use cosmic_monitor::fdinfo::{parse_drm_line, parse_u64, DrmStat};
use cosmic_monitor::engines::{busy_nanos, EngineTime, FdEngines};
use cosmic_monitor::gpu::{GpuId, GpuProcessUsage, UtilizationSample};
use cosmic_monitor::graph::GraphKind;
use cosmic_monitor::history::{GraphHistory, Sample, WINDOW_NANOS};
use cosmic_monitor::nav::{ContextPage, NavPage};
use cosmic_monitor::network::{busiest, link_rank, sort_by_link_state, Interface, LinkState};
use cosmic_monitor::platform::FallbackPlatform;
use cosmic_monitor::processes::ProcessTable;
use cosmic_monitor::sampling::{WarmUp, IGNORED_SAMPLES};
use cosmic_monitor::ui::{Action, AppTheme, Effect, Event, ViewState};

#[test]
fn nav_pages_in_order() {
    assert_eq!(
        NavPage::all(),
        &[
            NavPage::Dashboard,
            NavPage::Processes,
            NavPage::Cpu,
            NavPage::Memory,
            NavPage::Gpu,
            NavPage::Disk,
            NavPage::Network,
        ]
    );
}

#[test]
fn nav_titles() {
    let ids: Vec<&str> = NavPage::all().iter().map(|p| p.message_id()).collect();
    assert_eq!(ids, vec!["dashboard", "processes", "cpu", "memory", "gpu", "disk", "network"]);
    let catalog: Vec<(String, String)> = [
        ("dashboard", "Übersicht"),
        ("processes", "Prozesse"),
        ("cpu", "Prozessor"),
        ("memory", "Speicher"),
        ("gpu", "Grafik"),
        ("disk", "Datenträger"),
        ("cpu", "ignored, not the first entry"),
    ]
    .iter()
    .map(|(k, v)| (k.to_string(), v.to_string()))
    .collect();
    let titles: Vec<String> = NavPage::all().iter().map(|p| p.title(&catalog)).collect();
    assert_eq!(
        titles,
        vec!["Übersicht", "Prozesse", "Prozessor", "Speicher", "Grafik", "Datenträger", "network"]
    );
    assert_eq!(NavPage::Cpu.title(&Vec::new()), "cpu");
}

#[test]
fn theme_dropdown_positions() {
    assert_eq!(AppTheme::System.dropdown_index(), 0);
    assert_eq!(AppTheme::Dark.dropdown_index(), 1);
    assert_eq!(AppTheme::Light.dropdown_index(), 2);
    assert_eq!(AppTheme::from_dropdown_index(0), AppTheme::System);
    assert_eq!(AppTheme::from_dropdown_index(1), AppTheme::Dark);
    assert_eq!(AppTheme::from_dropdown_index(2), AppTheme::Light);
    assert_eq!(AppTheme::from_dropdown_index(7), AppTheme::System);
    for theme in [AppTheme::Dark, AppTheme::Light, AppTheme::System] {
        assert_eq!(AppTheme::from_dropdown_index(theme.dropdown_index()), theme);
    }
}

#[test]
fn menu_actions_raise_events() {
    assert_eq!(Action::Nothing.message(), Event::Nothing);
    assert_eq!(Action::About.message(), Event::ToggleContextPage(ContextPage::About));
    assert_eq!(Action::Settings.message(), Event::ToggleContextPage(ContextPage::Settings));
}

#[test]
fn fresh_window_state() {
    let state = ViewState::new(AppTheme::Dark, 3);
    assert_eq!(state.context_page, ContextPage::Settings);
    assert!(!state.show_context);
    assert_eq!(state.sort_column, 3);
    assert!(!state.sort_reversed);
    assert_eq!(state.context_drawer(), None);
}

#[test]
fn toggling_the_drawer() {
    let mut state = ViewState::new(AppTheme::System, 0);
    assert_eq!(state.update(Event::ToggleContextPage(ContextPage::Settings)), Effect::Nothing);
    assert_eq!(state.context_drawer(), Some(ContextPage::Settings));
    state.update(Event::ToggleContextPage(ContextPage::Settings));
    assert_eq!(state.context_drawer(), None);
    state.update(Event::ToggleContextPage(ContextPage::About));
    assert_eq!(state.context_drawer(), Some(ContextPage::About));
    state.update(Event::ToggleContextPage(ContextPage::Settings));
    assert_eq!(state.context_drawer(), Some(ContextPage::Settings));
}

#[test]
fn escape_closes_the_drawer() {
    let mut state = ViewState::new(AppTheme::System, 0);
    state.update(Event::ToggleContextPage(ContextPage::About));
    assert_eq!(state.update(Event::Escape), Effect::Nothing);
    assert!(!state.show_context);
    assert_eq!(state.context_page, ContextPage::About);
    let before = state;
    state.update(Event::Escape);
    assert_eq!(state, before);
}

#[test]
fn sorting_processes() {
    let mut state = ViewState::new(AppTheme::System, 1);
    assert_eq!(state.update(Event::ProcessSort(1)), Effect::SortProcesses);
    assert!(state.sort_reversed);
    state.update(Event::ProcessSort(1));
    assert!(!state.sort_reversed);
    state.update(Event::ProcessSort(1));
    state.update(Event::ProcessSort(4));
    assert_eq!(state.sort_column, 4);
    assert!(!state.sort_reversed);
    assert_eq!(state.update(Event::Snapshot), Effect::SortProcesses);
}

#[test]
fn theme_events() {
    let mut state = ViewState::new(AppTheme::System, 0);
    assert_eq!(state.update(Event::AppTheme(AppTheme::Dark)), Effect::ApplyTheme(AppTheme::Dark));
    assert_eq!(state.app_theme, AppTheme::Dark);
    assert_eq!(state.update(Event::Config(AppTheme::Dark)), Effect::Nothing);
    assert_eq!(state.update(Event::Config(AppTheme::Light)), Effect::ApplyTheme(AppTheme::Light));
    assert_eq!(state.app_theme, AppTheme::Light);
    assert_eq!(state.update(Event::SystemThemeChange), Effect::ApplyTheme(AppTheme::Light));
}

#[test]
fn pass_through_events() {
    let mut state = ViewState::new(AppTheme::System, 0);
    let before = state;
    assert_eq!(
        state.update(Event::LaunchUrl("https://example.org".to_string())),
        Effect::OpenUrl("https://example.org".to_string())
    );
    assert_eq!(state.update(Event::NavPage(NavPage::Gpu)), Effect::ActivatePage(NavPage::Gpu));
    assert_eq!(state.update(Event::Nothing), Effect::Nothing);
    assert_eq!(state, before);
}

#[test]
fn percentage_graphs() {
    for kind in [GraphKind::Cpu, GraphKind::Memory, GraphKind::Swap, GraphKind::GpuUsage("0000:01:00.0"), GraphKind::GpuVram("x")] {
        assert!(kind.shows_percentage());
        assert_eq!(kind.y_scale(123_456), 100);
        let ticks = kind.y_axis_ticks(100);
        let values: Vec<u128> = ticks.iter().map(|t| t.value).collect();
        let labels: Vec<&str> = ticks.iter().map(|t| t.label.as_str()).collect();
        assert_eq!(values, vec![0, 20, 40, 60, 80, 100]);
        assert_eq!(labels, vec!["0%", "20%", "40%", "60%", "80%", "100%"]);
    }
}

#[test]
fn rate_scale_is_next_power_of_ten() {
    assert!(!GraphKind::DiskTotal.shows_percentage());
    assert!(!GraphKind::NetworkTotal.shows_percentage());
    assert_eq!(GraphKind::NetworkTotal.y_scale(1500), 10_000);
    let kind = GraphKind::DiskRead("nvme0n1");
    assert!(!kind.shows_percentage());
    assert_eq!(kind.y_scale(0), 1000);
    assert_eq!(kind.y_scale(999), 1000);
    assert_eq!(kind.y_scale(1000), 1000);
    assert_eq!(kind.y_scale(1001), 10_000);
    assert_eq!(kind.y_scale(123_456), 1_000_000);
    assert_eq!(GraphKind::NetworkTx("eth0").y_scale(10_000_000_000_000_000_000), 10_000_000_000_000_000_000);
    assert_eq!(GraphKind::NetworkRx("eth0").y_scale(u64::MAX), 100_000_000_000_000_000_000);
}

#[test]
fn rate_axis_labels() {
    let ticks = GraphKind::DiskWrite("sda").y_axis_ticks(1000);
    let values: Vec<u128> = ticks.iter().map(|t| t.value).collect();
    let labels: Vec<&str> = ticks.iter().map(|t| t.label.as_str()).collect();
    assert_eq!(values, vec![0, 200, 400, 600, 800, 1000]);
    assert_eq!(labels, vec!["0 B/s", "200 B/s", "400 B/s", "600 B/s", "800 B/s", "1 kB/s"]);

    let ticks = GraphKind::NetworkRx("wlan0").y_axis_ticks(10_000_000);
    let labels: Vec<&str> = ticks.iter().map(|t| t.label.as_str()).collect();
    assert_eq!(labels, vec!["0 B/s", "2 MB/s", "4 MB/s", "6 MB/s", "8 MB/s", "10 MB/s"]);
}

#[test]
fn history_keeps_one_minute() {
    let second: u64 = 1_000_000_000;
    let mut history: GraphHistory<&str> = GraphHistory::new();
    history.push(Sample { time: 0, item: "a" }, 0);
    history.push(Sample { time: 30 * second, item: "b" }, 30 * second);
    assert_eq!(history.len(), 2);
    history.push(Sample { time: 59 * second, item: "c" }, 59 * second);
    assert_eq!(history.len(), 3);
    history.push(Sample { time: 60 * second, item: "d" }, 60 * second);
    let items: Vec<&str> = history.samples().iter().map(|s| s.item).collect();
    assert_eq!(items, vec!["b", "c", "d"]);
    history.push(Sample { time: 200 * second, item: "e" }, 200 * second);
    let items: Vec<&str> = history.samples().iter().map(|s| s.item).collect();
    assert_eq!(items, vec!["e"]);
}

#[test]
fn history_window_edges() {
    let mut history: GraphHistory<u8> = GraphHistory::new();
    history.push(Sample { time: 10, item: 1 }, 10 + WINDOW_NANOS - 1);
    assert_eq!(history.len(), 1);
    let mut history: GraphHistory<u8> = GraphHistory::new();
    history.push(Sample { time: 10, item: 1 }, 10 + WINDOW_NANOS);
    assert_eq!(history.len(), 0);
    // a sample stamped after `now` counts as new
    let mut history: GraphHistory<u8> = GraphHistory::new();
    history.push(Sample { time: 500, item: 1 }, 100);
    assert_eq!(history.len(), 1);
}

#[test]
fn interfaces_ordered_by_state() {
    let states = [
        LinkState::Down,
        LinkState::Unknown,
        LinkState::Up,
        LinkState::Dormant,
        LinkState::Other,
        LinkState::Up,
        LinkState::Unknown,
    ];
    let items: Vec<Interface<usize>> = states
        .iter()
        .enumerate()
        .map(|(i, s)| Interface { state: *s, item: i })
        .collect();
    let sorted = sort_by_link_state(items);
    let order: Vec<usize> = sorted.iter().map(|x| x.item).collect();
    assert_eq!(order, vec![2, 5, 3, 1, 6, 0, 4]);
    assert_eq!(link_rank(LinkState::Up), 0);
    assert_eq!(link_rank(LinkState::Dormant), 1);
    assert_eq!(link_rank(LinkState::Unknown), 2);
    assert_eq!(link_rank(LinkState::LowerLayerDown), 3);
    assert_eq!(sort_by_link_state(Vec::<Interface<u8>>::new()).len(), 0);
}

#[test]
fn busiest_interface() {
    assert_eq!(busiest(&vec![]), None);
    assert_eq!(busiest(&vec![5]), Some(0));
    assert_eq!(busiest(&vec![1, 9, 3]), Some(1));
    assert_eq!(busiest(&vec![7, 2, 7, 1]), Some(2));
}

#[test]
fn gpu_usage_per_process() {
    let gpu0 = GpuId::Pci { domain: 0, bus: 1, device: 0, func: 0 };
    let gpu1 = GpuId::Pci { domain: 0, bus: 2, device: 0, func: 0 };
    let mut table = GpuProcessUsage::new();
    assert_eq!(table.last_seen_timestamp(), None);
    let samples = vec![
        UtilizationSample { pid: 10, timestamp: 100, sm_util: 20 },
        UtilizationSample { pid: 11, timestamp: 300, sm_util: 5 },
        UtilizationSample { pid: 10, timestamp: 200, sm_util: 30 },
    ];
    table.record_samples(gpu0, &samples);
    assert_eq!(table.last_seen_timestamp(), Some(300));
    table.record_samples(gpu1, &vec![UtilizationSample { pid: 10, timestamp: 250, sm_util: 7 }]);
    assert_eq!(table.last_seen_timestamp(), Some(300));
    table.add_vram(10, gpu0, 1 << 20);
    table.add_vram(10, gpu0, 1 << 20);
    table.add_vram(12, gpu1, 4096);

    let mut usage = table.process_gpu_usage(10);
    usage.sort_by_key(|u| match u.gpu {
        GpuId::Pci { bus, .. } => bus,
    });
    assert_eq!(usage.len(), 2);
    assert_eq!((usage[0].gpu, usage[0].utilization, usage[0].vram), (gpu0, 50, 2 << 20));
    assert_eq!((usage[1].gpu, usage[1].utilization, usage[1].vram), (gpu1, 7, 0));
    let usage = table.process_gpu_usage(12);
    assert_eq!(usage.len(), 1);
    assert_eq!((usage[0].utilization, usage[0].vram), (0, 4096));
    assert!(table.process_gpu_usage(99).is_empty());

    table.clear_processes();
    assert!(table.process_gpu_usage(10).is_empty());
    assert_eq!(table.last_seen_timestamp(), Some(300));
}

#[test]
fn gpu_utilization_saturates() {
    let gpu = GpuId::Pci { domain: 0, bus: 0, device: 0, func: 0 };
    let mut table = GpuProcessUsage::new();
    table.add_utilization(1, gpu, u32::MAX);
    table.add_utilization(1, gpu, 1);
    assert_eq!(table.process_gpu_usage(1)[0].utilization, u32::MAX as u64 + 1);
}

fn engine(name: &str, nanos: u64) -> EngineTime {
    EngineTime { name: name.to_string(), nanos }
}

#[test]
fn engine_busy_time() {
    let last = vec![FdEngines { id: (1, 5), engines: vec![engine("gfx", 1000), engine("video", 50)] }];
    let cur = vec![
        FdEngines { id: (1, 5), engines: vec![engine("gfx", 4000), engine("video", 40), engine("compute", 9)] },
        FdEngines { id: (2, 5), engines: vec![engine("gfx", 99999)] },
    ];
    // gfx gained 3000 ns; the video counter went back, which counts as no gain
    assert_eq!(busy_nanos(&cur, &last), Some(3000));
    // nothing to compare against
    assert_eq!(busy_nanos(&cur, &vec![]), None);
    let other = vec![FdEngines { id: (1, 5), engines: vec![engine("copy", 1)] }];
    assert_eq!(busy_nanos(&cur, &other), None);
    // an engine listed twice before is compared with both entries
    let twice = vec![FdEngines { id: (2, 5), engines: vec![engine("gfx", 99000), engine("gfx", 98999)] }];
    assert_eq!(busy_nanos(&cur, &twice), Some(999 + 1000));
}

#[test]
fn process_rounds() {
    let mut table: ProcessTable<&str> = ProcessTable::new();
    table.begin_round();
    table.put(1, "init");
    table.put(42, "shell");
    table.sweep();
    assert_eq!(table.get(42), Some(&"shell"));

    table.begin_round();
    let data = table.take(42).unwrap_or("new");
    table.put(42, data);
    let data = table.take(7).unwrap_or("editor");
    table.put(7, data);
    table.sweep();
    assert_eq!(table.get(1), None);
    assert_eq!(table.get(42), Some(&"shell"));
    assert_eq!(table.get(7), Some(&"editor"));
    assert_eq!(table.take(1000), None);
}

#[test]
fn warm_up_drops_first_samples() {
    let mut warm_up = WarmUp::for_graphs();
    let answers: Vec<bool> = (0..7).map(|_| warm_up.accept()).collect();
    assert_eq!(IGNORED_SAMPLES, 4);
    assert_eq!(answers, vec![false, false, false, false, true, true, true]);
    let mut open = WarmUp::new(0);
    assert!(open.accept());
}

#[test]
fn fallback_platform_exists() {
    let _platform = FallbackPlatform;
}

#[test]
fn drm_engine_lines() {
    match parse_drm_line("drm-engine-render:\t123456 ns") {
        DrmStat::Engine { name, value, unit } => {
            assert_eq!((name.as_str(), value.as_str(), unit.as_str()), ("render", "123456", "ns"));
        }
        _ => panic!("engine line not recognised"),
    }
    match parse_drm_line("drm-total-local: 512 KiB") {
        DrmStat::Total { name, value, unit } => {
            assert_eq!((name.as_str(), value.as_str(), unit.as_str()), ("local", "512", "KiB"));
        }
        _ => panic!("total line not recognised"),
    }
    assert!(matches!(parse_drm_line("drm-engine-capacity-video: 2"), DrmStat::Other));
    assert!(matches!(parse_drm_line("drm-engine-capacity-video: 2 x"), DrmStat::Other));
    assert!(matches!(parse_drm_line("drm-engine-gfx: 42"), DrmStat::Other));
    assert!(matches!(parse_drm_line("drm-driver: i915"), DrmStat::Other));
    assert!(matches!(parse_drm_line("pos: 0"), DrmStat::Other));
    assert!(matches!(parse_drm_line("no colon here"), DrmStat::Other));
    match parse_drm_line("drm-engine-video-enhance: 7 ns extra") {
        DrmStat::Engine { name, value, unit } => {
            assert_eq!((name.as_str(), value.as_str(), unit.as_str()), ("video-enhance", "7", "ns extra"));
        }
        _ => panic!("engine line not recognised"),
    }
}

#[test]
fn decimal_numbers() {
    for s in ["0", "42", "+7", "18446744073709551615", "", "+", "-1", "12a", "18446744073709551616", " 1", "007"] {
        assert_eq!(parse_u64(s), s.parse::<u64>().ok(), "{:?}", s);
    }
}

#[test]
fn process_table_rounds_count() {
    let mut table: ProcessTable<u8> = ProcessTable::new();
    assert_eq!(table.current_round(), 0);
    table.begin_round();
    table.begin_round();
    assert_eq!(table.current_round(), 2);
}
