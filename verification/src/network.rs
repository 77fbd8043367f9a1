use vstd::prelude::*;

verus! {

/// The operational state of a network interface (RFC 2863).
#[derive(Clone, Copy, Debug, PartialEq, Eq, Structural)]
pub enum LinkState {
    Up,
    Down,
    Testing,
    Unknown,
    Dormant,
    NotPresent,
    LowerLayerDown,
    Other,
}

/// An interface listed on the network page, with its state.
pub struct Interface<T> {
    pub state: LinkState,
    pub item: T,
}

/// How far down the list interfaces in a state go: working interfaces first,
/// then dormant ones, then those of unknown state, then all others.
pub open spec fn rank_of(state: LinkState) -> int {
    match state {
        LinkState::Up => 0,
        LinkState::Dormant => 1,
        LinkState::Unknown => 2,
        _ => 3,
    }
}

/// The predicate that picks the interfaces of rank `r`.
pub open spec fn has_rank<T>(r: int) -> spec_fn(Interface<T>) -> bool {
    |x: Interface<T>| rank_of(x.state) == r
}

/// The rank of a state, by which the interface list is ordered.
pub fn link_rank(state: LinkState) -> (r: u8)
    ensures
        r == rank_of(state),
{
    match state {
        LinkState::Up => 0,
        LinkState::Dormant => 1,
        LinkState::Unknown => 2,
        _ => 3,
    }
}

proof fn lemma_filter_all<T>(s: Seq<T>, p: spec_fn(T) -> bool)
    requires
        forall|i: int| 0 <= i < s.len() ==> p(#[trigger] s[i]),
    ensures
        s.filter(p) == s,
    decreases s.len(),
{
    reveal_with_fuel(Seq::filter, 1);
    if s.len() > 0 {
        lemma_filter_all(s.drop_last(), p);
    }
}

proof fn lemma_filter_none<T>(s: Seq<T>, p: spec_fn(T) -> bool)
    requires
        forall|i: int| 0 <= i < s.len() ==> !p(#[trigger] s[i]),
    ensures
        s.filter(p) == Seq::<T>::empty(),
    decreases s.len(),
{
    reveal_with_fuel(Seq::filter, 1);
    if s.len() > 0 {
        lemma_filter_none(s.drop_last(), p);
    }
}

/// Orders interfaces by the rank of their state, keeping the order of the list
/// among interfaces of one rank.
pub fn sort_by_link_state<T>(items: Vec<Interface<T>>) -> (sorted: Vec<Interface<T>>)
    ensures
        forall|i: int, j: int|
            0 <= i <= j < sorted.len() ==> rank_of(#[trigger] sorted[i].state) <= rank_of(
                #[trigger] sorted[j].state,
            ),
        forall|r: int| #[trigger] sorted@.filter(has_rank(r)) == items@.filter(has_rank(r)),
        sorted.len() == items.len(),
{
    let ghost all = items@;
    let mut b0: Vec<Interface<T>> = Vec::new();
    let mut b1: Vec<Interface<T>> = Vec::new();
    let mut b2: Vec<Interface<T>> = Vec::new();
    let mut b3: Vec<Interface<T>> = Vec::new();
    for x in it: items
        invariant
            it.seq() == all,
            b0@ == all.take(it.index() as int).filter(has_rank(0)),
            b1@ == all.take(it.index() as int).filter(has_rank(1)),
            b2@ == all.take(it.index() as int).filter(has_rank(2)),
            b3@ == all.take(it.index() as int).filter(has_rank(3)),
    {
        let ghost k = it.index() as int;
        proof {
            assert(x == all[k]);
            assert(all.take(k + 1).drop_last() == all.take(k));
            reveal_with_fuel(Seq::filter, 1);
        }
        let r = link_rank(x.state);
        if r == 0 {
            b0.push(x);
        } else if r == 1 {
            b1.push(x);
        } else if r == 2 {
            b2.push(x);
        } else {
            b3.push(x);
        }
    }
    proof {
        assert(all.take(all.len() as int) == all);
        lemma_partition_len(all);
    }
    let ghost s0 = b0@;
    let ghost s1 = b1@;
    let ghost s2 = b2@;
    let ghost s3 = b3@;
    let mut sorted = b0;
    sorted.append(&mut b1);
    sorted.append(&mut b2);
    sorted.append(&mut b3);
    proof {
        assert(sorted@ == s0 + s1 + s2 + s3);
        lemma_buckets_sorted(all, sorted@);
    }
    sorted
}

/// The four ranks split a list: their parts add up to its length.
proof fn lemma_partition_len<T>(s: Seq<Interface<T>>)
    ensures
        s.filter(has_rank(0)).len() + s.filter(has_rank(1)).len() + s.filter(has_rank(2)).len()
            + s.filter(has_rank(3)).len() == s.len(),
    decreases s.len(),
{
    reveal_with_fuel(Seq::filter, 1);
    if s.len() > 0 {
        lemma_partition_len(s.drop_last());
    }
}

proof fn lemma_bucket_ranks<T>(s: Seq<Interface<T>>, r: int)
    ensures
        forall|i: int|
            0 <= i < s.filter(has_rank(r)).len() ==> rank_of(
                #[trigger] s.filter(has_rank(r))[i].state,
            ) == r,
{
    assert forall|i: int| 0 <= i < s.filter(has_rank(r)).len() implies rank_of(
        #[trigger] s.filter(has_rank(r))[i].state,
    ) == r by {
        s.lemma_filter_pred(has_rank(r), i);
    }
}

/// Concatenating the parts of each rank, in rank order, gives a list ordered by
/// rank whose part of each rank is that of the given list.
proof fn lemma_buckets_sorted<T>(all: Seq<Interface<T>>, sorted: Seq<Interface<T>>)
    requires
        sorted == all.filter(has_rank(0)) + all.filter(has_rank(1)) + all.filter(has_rank(2))
            + all.filter(has_rank(3)),
    ensures
        forall|i: int, j: int|
            0 <= i <= j < sorted.len() ==> rank_of(#[trigger] sorted[i].state) <= rank_of(
                #[trigger] sorted[j].state,
            ),
        forall|r: int| #[trigger] sorted.filter(has_rank(r)) == all.filter(has_rank(r)),
{
    let s0 = all.filter(has_rank(0));
    let s1 = all.filter(has_rank(1));
    let s2 = all.filter(has_rank(2));
    let s3 = all.filter(has_rank(3));
    lemma_bucket_ranks(all, 0);
    lemma_bucket_ranks(all, 1);
    lemma_bucket_ranks(all, 2);
    lemma_bucket_ranks(all, 3);
    let n0 = s0.len() as int;
    let n1 = n0 + s1.len();
    let n2 = n1 + s2.len();
    assert forall|i: int| 0 <= i < sorted.len() implies rank_of(#[trigger] sorted[i].state) == (
    if i < n0 {
        0int
    } else if i < n1 {
        1int
    } else if i < n2 {
        2int
    } else {
        3int
    }) by {
        if i < n0 {
            assert(sorted[i] == s0[i]);
        } else if i < n1 {
            assert(sorted[i] == s1[i - n0]);
        } else if i < n2 {
            assert(sorted[i] == s2[i - n1]);
        } else {
            assert(sorted[i] == s3[i - n2]);
        }
    }
    assert forall|r: int| #[trigger] sorted.filter(has_rank(r)) == all.filter(has_rank(r)) by {
        Seq::filter_distributes_over_add(s0 + s1 + s2, s3, has_rank(r));
        Seq::filter_distributes_over_add(s0 + s1, s2, has_rank(r));
        Seq::filter_distributes_over_add(s0, s1, has_rank(r));
        lemma_bucket_filter(all, 0, r);
        lemma_bucket_filter(all, 1, r);
        lemma_bucket_filter(all, 2, r);
        lemma_bucket_filter(all, 3, r);
        if r < 0 || r > 3 {
            lemma_filter_none(all, has_rank(r));
        }
    }
}

/// Filtering the part of rank `k` by rank `r` keeps it whole when the ranks agree
/// and empties it otherwise.
proof fn lemma_bucket_filter<T>(all: Seq<Interface<T>>, k: int, r: int)
    ensures
        all.filter(has_rank(k)).filter(has_rank(r)) == (if k == r {
            all.filter(has_rank(k))
        } else {
            Seq::<Interface<T>>::empty()
        }),
{
    lemma_bucket_ranks(all, k);
    let b = all.filter(has_rank(k));
    if k == r {
        lemma_filter_all(b, has_rank(r));
    } else {
        lemma_filter_none(b, has_rank(r));
    }
}

/// The interface with the most traffic, by its position in `traffic` (bytes
/// per second received plus sent): the last of those with the largest
/// figure, or `None` when there is no interface.
pub fn busiest(traffic: &Vec<u64>) -> (index: Option<usize>)
    ensures
        traffic.len() == 0 ==> index == None::<usize>,
        traffic.len() > 0 ==> index is Some,
        index matches Some(i) ==> {
            &&& i < traffic.len()
            &&& forall|j: int| 0 <= j < traffic.len() ==> traffic[j] <= traffic[i as int]
            &&& forall|j: int| i < j < traffic.len() ==> traffic[j] < traffic[i as int]
        },
{
    if traffic.len() == 0 {
        return None;
    }
    let mut best: usize = 0;
    let mut k: usize = 1;
    while k < traffic.len()
        invariant
            1 <= k <= traffic.len(),
            best < k,
            forall|j: int| 0 <= j < k ==> traffic[j] <= traffic[best as int],
            forall|j: int| best < j < k ==> traffic[j] < traffic[best as int],
        decreases traffic.len() - k,
    {
        if traffic[k] >= traffic[best] {
            best = k;
        }
        k = k + 1;
    }
    Some(best)
}

/// Working interfaces come first, then dormant ones, then those of unknown
/// state, then all others, which rank alike.
pub proof fn lemma_link_order(a: LinkState, b: LinkState)
    ensures
        rank_of(LinkState::Up) < rank_of(LinkState::Dormant),
        rank_of(LinkState::Dormant) < rank_of(LinkState::Unknown),
        a != LinkState::Up && a != LinkState::Dormant && a != LinkState::Unknown ==> rank_of(
            LinkState::Unknown,
        ) < rank_of(a),
        a != LinkState::Up && a != LinkState::Dormant && a != LinkState::Unknown && b
            != LinkState::Up && b != LinkState::Dormant && b != LinkState::Unknown ==> rank_of(a)
            == rank_of(b),
{
}

} // verus!
