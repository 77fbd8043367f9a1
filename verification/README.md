# cosmic-monitor

A system monitor for the COSMIC desktop, split in two:

- `src/` is the library, verified with Verus: the navigation pages and the
  state of the window (context drawer, process sort order, theme), the scale and
  marks of the graph axes, the one-minute window of graph samples, the ordering
  of network interfaces, the per-process GPU figures gathered from the NVIDIA
  driver and from DRM `fdinfo` files, the bookkeeping of scanned processes, and
  the warm-up of the sampling loop.
- `app/` is the program around it: the COSMIC user interface, the sampling
  threads that read `sysinfo`, `/proc` and NVML, and everything that computes in
  floating point.

`tests/` runs the library on concrete values.
