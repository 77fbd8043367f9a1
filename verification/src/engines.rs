use vstd::prelude::*;

verus! {

/// The busy time that a DRM client reports for one engine of a GPU
/// (`drm-engine-<name>: <nanos> ns` in `/proc/<pid>/fdinfo/<fd>`).
pub struct EngineTime {
    pub name: String,
    pub nanos: u64,
}

/// The engines of one DRM file descriptor of a process, keyed by its
/// identity (the two numbers by which the platform tells clients apart).
pub struct FdEngines {
    pub id: (u32, u32),
    pub engines: Vec<EngineTime>,
}

/// How much later `now` is than `then`, or zero when the counter went back.
pub open spec fn elapsed(now: u64, then: u64) -> int {
    if now >= then {
        now - then
    } else {
        0
    }
}

/// The busy time that `e` gained since the entries of `last` with its name.
pub open spec fn engine_gain(e: EngineTime, last: Seq<EngineTime>) -> int
    decreases last.len(),
{
    if last.len() == 0 {
        0
    } else {
        engine_gain(e, last.drop_last()) + if last.last().name@ == e.name@ {
            elapsed(e.nanos, last.last().nanos)
        } else {
            0
        }
    }
}

/// How many entries of `last` have the name of `e`.
pub open spec fn engine_matches(e: EngineTime, last: Seq<EngineTime>) -> int
    decreases last.len(),
{
    if last.len() == 0 {
        0
    } else {
        engine_matches(e, last.drop_last()) + if last.last().name@ == e.name@ {
            1int
        } else {
            0
        }
    }
}

/// The busy time that the engines of `cur` gained since `last`.
pub open spec fn engines_gain(cur: Seq<EngineTime>, last: Seq<EngineTime>) -> int
    decreases cur.len(),
{
    if cur.len() == 0 {
        0
    } else {
        engines_gain(cur.drop_last(), last) + engine_gain(cur.last(), last)
    }
}

/// How many pairs of an engine of `cur` and an engine of `last` share a name.
pub open spec fn engines_matches(cur: Seq<EngineTime>, last: Seq<EngineTime>) -> int
    decreases cur.len(),
{
    if cur.len() == 0 {
        0
    } else {
        engines_matches(cur.drop_last(), last) + engine_matches(cur.last(), last)
    }
}

/// The position of the first descriptor of `fds` with the given identity.
pub open spec fn find_fd(fds: Seq<FdEngines>, id: (u32, u32)) -> Option<int> {
    if exists|i: int| 0 <= i < fds.len() && fds[i].id == id {
        Some(choose|i: int| 0 <= i < fds.len() && fds[i].id == id && forall|j: int| 0 <= j < i ==> fds[j].id != id)
    } else {
        None
    }
}

/// The busy time gained by the descriptor `f`, against the descriptor with its
/// identity in `last`; none where `last` has no such descriptor.
pub open spec fn fd_gain(f: FdEngines, last: Seq<FdEngines>) -> int {
    match find_fd(last, f.id) {
        Some(i) => engines_gain(f.engines@, last[i].engines@),
        None => 0,
    }
}

pub open spec fn fd_matches(f: FdEngines, last: Seq<FdEngines>) -> int {
    match find_fd(last, f.id) {
        Some(i) => engines_matches(f.engines@, last[i].engines@),
        None => 0,
    }
}

/// The busy time gained by all descriptors of `cur` since `last`.
pub open spec fn total_gain(cur: Seq<FdEngines>, last: Seq<FdEngines>) -> int
    decreases cur.len(),
{
    if cur.len() == 0 {
        0
    } else {
        total_gain(cur.drop_last(), last) + fd_gain(cur.last(), last)
    }
}

/// How many engine pairs were compared over all descriptors.
pub open spec fn total_matches(cur: Seq<FdEngines>, last: Seq<FdEngines>) -> int
    decreases cur.len(),
{
    if cur.len() == 0 {
        0
    } else {
        total_matches(cur.drop_last(), last) + fd_matches(cur.last(), last)
    }
}

/// `n`, or the largest `u64` where `n` is larger.
pub open spec fn clamp_u64(n: int) -> int {
    if n > u64::MAX {
        u64::MAX as int
    } else {
        n
    }
}

fn find_fd_exec(fds: &Vec<FdEngines>, id: (u32, u32)) -> (found: Option<usize>)
    ensures
        match found {
            Some(i) => i < fds@.len() && find_fd(fds@, id) == Some(i as int),
            None => find_fd(fds@, id) == None::<int>,
        },
{
    let mut i: usize = 0;
    while i < fds.len()
        invariant
            i <= fds@.len(),
            forall|j: int| 0 <= j < i ==> fds@[j].id != id,
        decreases fds@.len() - i,
    {
        if fds[i].id.0 == id.0 && fds[i].id.1 == id.1 {
            proof {
                let c = choose|c: int|
                    0 <= c < fds@.len() && fds@[c].id == id && forall|j: int|
                        0 <= j < c ==> fds@[j].id != id;
                assert(0 <= i < fds@.len() && fds@[i as int].id == id && forall|j: int|
                    0 <= j < i ==> fds@[j].id != id);
                if c < i {
                } else if c > i {
                    assert(fds@[i as int].id != id);
                }
            }
            return Some(i);
        }
        i = i + 1;
    }
    None
}

/// The busy time, in nanoseconds, that the GPU engines of a process gained
/// since the previous reading: for each descriptor that was there before,
/// each engine is compared with every earlier engine of the same name, and the
/// gains are added up (a sum past the range of `u64` stays at its largest
/// value). `None` when no engine could be compared.
pub fn busy_nanos(cur: &Vec<FdEngines>, last: &Vec<FdEngines>) -> (busy: Option<u64>)
    ensures
        total_matches(cur@, last@) == 0 ==> busy == None::<u64>,
        total_matches(cur@, last@) != 0 ==> busy == Some(
            clamp_u64(total_gain(cur@, last@)) as u64,
        ),
{
    let mut acc: u64 = 0;
    let mut matched: bool = false;
    let mut f: usize = 0;
    while f < cur.len()
        invariant
            f <= cur@.len(),
            total_gain(cur@.take(f as int), last@) >= 0,
            total_matches(cur@.take(f as int), last@) >= 0,
            acc == clamp_u64(total_gain(cur@.take(f as int), last@)),
            matched == (total_matches(cur@.take(f as int), last@) != 0),
        decreases cur@.len() - f,
    {
        proof {
            assert(cur@.take(f as int + 1).drop_last() == cur@.take(f as int));
            assert(cur@.take(f as int + 1).last() == cur@[f as int]);
        }
        let fd = &cur[f];
        match find_fd_exec(last, fd.id) {
            Some(l) => {
                let old_fd = &last[l];
                let mut e: usize = 0;
                while e < fd.engines.len()
                    invariant
                        e <= fd.engines@.len(),
                        fd == cur@[f as int],
                        old_fd == last@[l as int],
                        total_gain(cur@.take(f as int), last@) >= 0,
                        total_matches(cur@.take(f as int), last@) >= 0,
                        engines_gain(fd.engines@.take(e as int), old_fd.engines@) >= 0,
                        engines_matches(fd.engines@.take(e as int), old_fd.engines@) >= 0,
                        acc == clamp_u64(
                            total_gain(cur@.take(f as int), last@) + engines_gain(
                                fd.engines@.take(e as int),
                                old_fd.engines@,
                            ),
                        ),
                        matched == (total_matches(cur@.take(f as int), last@) + engines_matches(
                            fd.engines@.take(e as int),
                            old_fd.engines@,
                        ) != 0),
                    decreases fd.engines@.len() - e,
                {
                    proof {
                        assert(fd.engines@.take(e as int + 1).drop_last() == fd.engines@.take(
                            e as int,
                        ));
                        assert(fd.engines@.take(e as int + 1).last() == fd.engines@[e as int]);
                    }
                    let engine = &fd.engines[e];
                    let mut j: usize = 0;
                    while j < old_fd.engines.len()
                        invariant
                            j <= old_fd.engines@.len(),
                            engine == fd.engines@[e as int],
                            total_gain(cur@.take(f as int), last@) + engines_gain(
                                fd.engines@.take(e as int),
                                old_fd.engines@,
                            ) >= 0,
                            total_matches(cur@.take(f as int), last@) + engines_matches(
                                fd.engines@.take(e as int),
                                old_fd.engines@,
                            ) >= 0,
                            engine_gain(*engine, old_fd.engines@.take(j as int)) >= 0,
                            engine_matches(*engine, old_fd.engines@.take(j as int)) >= 0,
                            acc == clamp_u64(
                                total_gain(cur@.take(f as int), last@) + engines_gain(
                                    fd.engines@.take(e as int),
                                    old_fd.engines@,
                                ) + engine_gain(*engine, old_fd.engines@.take(j as int)),
                            ),
                            matched == (total_matches(cur@.take(f as int), last@)
                                + engines_matches(fd.engines@.take(e as int), old_fd.engines@)
                                + engine_matches(*engine, old_fd.engines@.take(j as int)) != 0),
                        decreases old_fd.engines@.len() - j,
                    {
                        proof {
                            assert(old_fd.engines@.take(j as int + 1).drop_last()
                                == old_fd.engines@.take(j as int));
                            assert(old_fd.engines@.take(j as int + 1).last()
                                == old_fd.engines@[j as int]);
                        }
                        let previous = &old_fd.engines[j];
                        if previous.name == engine.name {
                            let gain = engine.nanos.saturating_sub(previous.nanos);
                            acc = acc.saturating_add(gain);
                            matched = true;
                        }
                        j = j + 1;
                    }
                    proof {
                        assert(old_fd.engines@.take(old_fd.engines@.len() as int)
                            == old_fd.engines@);
                    }
                    e = e + 1;
                }
                proof {
                    assert(fd.engines@.take(fd.engines@.len() as int) == fd.engines@);
                }
            },
            None => {},
        }
        f = f + 1;
    }
    proof {
        assert(cur@.take(cur@.len() as int) == cur@);
    }
    if matched {
        Some(acc)
    } else {
        None
    }
}

/// An engine compared with one earlier entry gains what its counter advanced,
/// when the names agree and the counter did not go back; nothing otherwise.
pub proof fn lemma_engine_gain_single(e: EngineTime, l: EngineTime)
    ensures
        engine_gain(e, seq![l]) == (if l.name@ == e.name@ && e.nanos >= l.nanos {
            e.nanos - l.nanos
        } else {
            0
        }),
        engine_matches(e, seq![l]) == (if l.name@ == e.name@ {
            1int
        } else {
            0
        }),
{
    assert(seq![l].drop_last() =~= Seq::<EngineTime>::empty());
    assert(seq![l].last() == l);
    assert(engine_gain(e, Seq::<EngineTime>::empty()) == 0);
    assert(engine_matches(e, Seq::<EngineTime>::empty()) == 0);
}

/// An engine's gain adds up over the earlier entries it is compared with.
pub proof fn lemma_engine_gain_additive(e: EngineTime, a: Seq<EngineTime>, b: Seq<EngineTime>)
    ensures
        engine_gain(e, a + b) == engine_gain(e, a) + engine_gain(e, b),
        engine_matches(e, a + b) == engine_matches(e, a) + engine_matches(e, b),
    decreases b.len(),
{
    if b.len() == 0 {
        assert(a + b =~= a);
    } else {
        lemma_engine_gain_additive(e, a, b.drop_last());
        assert((a + b).drop_last() =~= a + b.drop_last());
        assert((a + b).last() == b.last());
    }
}

/// The busy time of a descriptor is additive over its engines: the engines of
/// `a + b` gain what those of `a` and those of `b` gain together.
pub proof fn lemma_engines_gain_additive(a: Seq<EngineTime>, b: Seq<EngineTime>, last: Seq<EngineTime>)
    ensures
        engines_gain(a + b, last) == engines_gain(a, last) + engines_gain(b, last),
        engines_matches(a + b, last) == engines_matches(a, last) + engines_matches(b, last),
    decreases b.len(),
{
    if b.len() == 0 {
        assert(a + b =~= a);
    } else {
        lemma_engines_gain_additive(a, b.drop_last(), last);
        assert((a + b).drop_last() =~= a + b.drop_last());
        assert((a + b).last() == b.last());
    }
}

/// One engine alone gains its own gain.
pub proof fn lemma_engines_gain_one(e: EngineTime, last: Seq<EngineTime>)
    ensures
        engines_gain(seq![e], last) == engine_gain(e, last),
        engines_matches(seq![e], last) == engine_matches(e, last),
{
    assert(seq![e].drop_last() =~= Seq::<EngineTime>::empty());
    assert(seq![e].last() == e);
    assert(engines_gain(Seq::<EngineTime>::empty(), last) == 0);
    assert(engines_matches(Seq::<EngineTime>::empty(), last) == 0);
}

/// Wherever an engine stands in a descriptor's list, it adds its gain against
/// the same-named entries of the previous reading.
pub proof fn lemma_engine_counts_anywhere(
    a: Seq<EngineTime>,
    e: EngineTime,
    b: Seq<EngineTime>,
    last: Seq<EngineTime>,
)
    ensures
        engines_gain(a + seq![e] + b, last) == engines_gain(a + b, last) + engine_gain(e, last),
        engines_matches(a + seq![e] + b, last) == engines_matches(a + b, last) + engine_matches(
            e,
            last,
        ),
{
    lemma_engines_gain_additive(a + seq![e], b, last);
    lemma_engines_gain_additive(a, seq![e], last);
    lemma_engines_gain_additive(a, b, last);
    lemma_engines_gain_one(e, last);
}

/// The busy time is additive over descriptors: those of `a + b` gain what those
/// of `a` and those of `b` gain together.
pub proof fn lemma_total_gain_additive(a: Seq<FdEngines>, b: Seq<FdEngines>, last: Seq<FdEngines>)
    ensures
        total_gain(a + b, last) == total_gain(a, last) + total_gain(b, last),
        total_matches(a + b, last) == total_matches(a, last) + total_matches(b, last),
    decreases b.len(),
{
    if b.len() == 0 {
        assert(a + b =~= a);
    } else {
        lemma_total_gain_additive(a, b.drop_last(), last);
        assert((a + b).drop_last() =~= a + b.drop_last());
        assert((a + b).last() == b.last());
    }
}

/// Appending a descriptor adds its gain against the first descriptor of the
/// previous reading with its identity, and nothing when there is none.
pub proof fn lemma_total_gain_push(cur: Seq<FdEngines>, d: FdEngines, last: Seq<FdEngines>, i: int)
    ensures
        0 <= i < last.len() && last[i].id == d.id && (forall|j: int|
            0 <= j < i ==> last[j].id != d.id) ==> total_gain(cur.push(d), last) == total_gain(
            cur,
            last,
        ) + engines_gain(d.engines@, last[i].engines@) && total_matches(cur.push(d), last)
            == total_matches(cur, last) + engines_matches(d.engines@, last[i].engines@),
        (forall|j: int| 0 <= j < last.len() ==> last[j].id != d.id) ==> total_gain(cur.push(d), last)
            == total_gain(cur, last) && total_matches(cur.push(d), last) == total_matches(cur, last),
{
    assert(cur.push(d).drop_last() =~= cur);
    if 0 <= i < last.len() && last[i].id == d.id && (forall|j: int| 0 <= j < i ==> last[j].id != d.id) {
        let c = choose|c: int|
            0 <= c < last.len() && last[c].id == d.id && forall|j: int| 0 <= j < c ==> last[j].id != d.id;
        if c < i {
        } else if c > i {
            assert(last[i].id != d.id);
        }
    }
}

} // verus!
