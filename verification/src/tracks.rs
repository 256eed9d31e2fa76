//! Axis-neutral parent-owned track allocation.

use vstd::prelude::*;

verus! {

/// Size request of one track (a row child's width or a column child's height).
#[derive(Clone, Copy, Debug, PartialEq, Eq, Structural)]
pub enum TrackSize {
    /// The child's measured content, optionally capped.
    Content { max: Option<u16> },
    /// Exactly the requested size, as far as space allows.
    Fixed(u16),
    /// At least `min`, then a share of the remaining space.
    Flex { min: u16 },
    /// Like `Flex`, but never more than `max`.
    FlexMax { min: u16, max: u16 },
}

/// Sizes allocated to each track and the gap placed between tracks.
#[derive(Debug, Clone, PartialEq, Eq)]
pub struct TrackAllocation {
    pub tracks: Vec<u16>,
    pub gap: u16,
}

pub open spec fn is_flex(track: TrackSize) -> bool {
    track is Flex || track is FlexMax
}

/// The minimum a flex track asks for.
pub open spec fn flex_min(track: TrackSize) -> int {
    match track {
        TrackSize::Flex { min } => min as int,
        TrackSize::FlexMax { min, .. } => min as int,
        _ => 0,
    }
}

/// The cap of a flex track, if it has one.
pub open spec fn flex_cap(track: TrackSize) -> Option<int> {
    match track {
        TrackSize::FlexMax { max, .. } => Some(max as int),
        _ => None,
    }
}

/// The sum of the first `n` elements.
pub open spec fn sum_prefix(s: Seq<u16>, n: int) -> int
    decreases n,
{
    if n <= 0 {
        0
    } else {
        sum_prefix(s, n - 1) + s[n - 1]
    }
}

/// The space taken by the non-flex tracks before index `n`.
pub open spec fn fixed_used(tracks: Seq<TrackSize>, alloc: Seq<u16>, n: int) -> int
    decreases n,
{
    if n <= 0 {
        0
    } else {
        fixed_used(tracks, alloc, n - 1) + if is_flex(tracks[n - 1]) { 0 } else { alloc[n - 1] as int }
    }
}

/// The indices of the flex tracks before `n`, in order.
pub open spec fn flex_indices(tracks: Seq<TrackSize>, n: int) -> Seq<int>
    decreases n,
{
    if n <= 0 {
        Seq::empty()
    } else if is_flex(tracks[n - 1]) {
        flex_indices(tracks, n - 1).push(n - 1)
    } else {
        flex_indices(tracks, n - 1)
    }
}

/// What a flex track asks for in the minimum phase: its minimum, limited by
/// its cap.
pub open spec fn flex_want(track: TrackSize) -> int {
    match flex_cap(track) {
        Some(cap) => min_int(flex_min(track), cap),
        None => flex_min(track),
    }
}

/// The minimum-phase grants of the first `k` flex tracks listed in `order`,
/// made in order from `budget`: each receives what it asks for or what is
/// left, whichever is less.
pub open spec fn min_grants(tracks: Seq<TrackSize>, order: Seq<int>, budget: int, k: int) -> Seq<int>
    decreases k,
{
    if k <= 0 {
        Seq::empty()
    } else {
        let prev = min_grants(tracks, order, budget, k - 1);
        prev.push(min_int(flex_want(tracks[order[k - 1]]), budget - sum_ints(prev)))
    }
}

pub open spec fn sum_ints(s: Seq<int>) -> int
    decreases s.len(),
{
    if s.len() == 0 {
        0
    } else {
        sum_ints(s.drop_last()) + s.last()
    }
}

pub open spec fn min_int(a: int, b: int) -> int {
    if a < b { a } else { b }
}

/// The gap placed between `count` tracks in `available` cells.
pub open spec fn spec_gap(available: int, requested_gap: int, count: int) -> int {
    if count <= 1 {
        0
    } else {
        min_int(requested_gap, available / (count - 1))
    }
}

/// The space left for tracks once the gaps are placed.
pub open spec fn spec_capacity(available: int, requested_gap: int, count: int) -> int {
    if count == 0 {
        0
    } else {
        available - spec_gap(available, requested_gap, count) * (count - 1)
    }
}


/// The size a non-flex track at `i` is entitled to, given what is left.
pub open spec fn nonflex_grant_ok<F: Fn(usize, u16) -> u16>(
    track: TrackSize,
    i: int,
    left: int,
    granted: int,
    measure: F,
) -> bool {
    match track {
        TrackSize::Fixed(requested) => granted == min_int(requested as int, left),
        TrackSize::Content { max } => exists|preferred: u16|
            {
                &&& #[trigger] call_ensures(measure, (i as usize, min_int(left, u16::MAX as int) as u16), preferred)
                &&& granted == min_int(
                    match max {
                        Some(m) => min_int(preferred as int, m as int),
                        None => preferred as int,
                    },
                    left,
                )
            },
        _ => true,
    }
}

proof fn lemma_fixed_used_frame(tracks: Seq<TrackSize>, s: Seq<u16>, t: Seq<u16>, n: int)
    requires
        forall|j: int| 0 <= j < n && !is_flex(tracks[j]) ==> s[j] == t[j],
    ensures
        fixed_used(tracks, s, n) == fixed_used(tracks, t, n),
    decreases n,
{
    if n > 0 {
        lemma_fixed_used_frame(tracks, s, t, n - 1);
    }
}

proof fn lemma_sum_prefix_update(s: Seq<u16>, n: int, i: int, v: u16)
    requires
        0 <= i < s.len(),
        0 <= n <= s.len(),
    ensures
        sum_prefix(s.update(i, v), n) == sum_prefix(s, n) + if i < n { v - s[i] } else { 0 },
    decreases n,
{
    if n > 0 {
        lemma_sum_prefix_update(s, n - 1, i, v);
    }
}

proof fn lemma_sum_prefix_zero(s: Seq<u16>, n: int)
    requires
        n <= s.len(),
        forall|j: int| 0 <= j < s.len() ==> s[j] == 0,
    ensures
        sum_prefix(s, n) == 0,
    decreases n,
{
    if n > 0 {
        lemma_sum_prefix_zero(s, n - 1);
    }
}

proof fn lemma_sum_prefix_nonneg(s: Seq<u16>, n: int)
    ensures
        0 <= sum_prefix(s, n),
    decreases n,
{
    if n > 0 {
        lemma_sum_prefix_nonneg(s, n - 1);
    }
}

proof fn lemma_flex_indices(tracks: Seq<TrackSize>, n: int)
    requires
        0 <= n <= tracks.len(),
    ensures
        forall|k: int|
            0 <= k < flex_indices(tracks, n).len() ==> 0 <= #[trigger] flex_indices(tracks, n)[k] < n
                && is_flex(tracks[flex_indices(tracks, n)[k]]),
        forall|a: int, b: int|
            0 <= a < b < flex_indices(tracks, n).len() ==> #[trigger] flex_indices(tracks, n)[a]
                < #[trigger] flex_indices(tracks, n)[b],
        flex_indices(tracks, n).len() <= n,
        forall|i: int|
            0 <= i < n && is_flex(#[trigger] tracks[i]) ==> exists|k: int|
                0 <= k < flex_indices(tracks, n).len() && #[trigger] flex_indices(tracks, n)[k] == i,
    decreases n,
{
    if n > 0 {
        lemma_flex_indices(tracks, n - 1);
        let prev = flex_indices(tracks, n - 1);
        let cur = flex_indices(tracks, n);
        assert forall|i: int| 0 <= i < n && is_flex(#[trigger] tracks[i]) implies exists|k: int|
            0 <= k < cur.len() && #[trigger] cur[k] == i by {
            if i == n - 1 {
                assert(cur[cur.len() - 1] == i);
            } else {
                let k = choose|k: int| 0 <= k < prev.len() && #[trigger] prev[k] == i;
                assert(cur[k] == prev[k]);
            }
        }
    }
}

proof fn lemma_min_grants(tracks: Seq<TrackSize>, order: Seq<int>, budget: int, k: int)
    requires
        0 <= k <= order.len(),
        0 <= budget,
        forall|i: int| 0 <= i < order.len() ==> 0 <= #[trigger] order[i] < tracks.len(),
    ensures
        min_grants(tracks, order, budget, k).len() == k,
        0 <= sum_ints(min_grants(tracks, order, budget, k)) <= budget,
        forall|i: int|
            0 <= i < k ==> 0 <= #[trigger] min_grants(tracks, order, budget, k)[i] <= flex_want(
                tracks[order[i]],
            ),
    decreases k,
{
    if k > 0 {
        lemma_min_grants(tracks, order, budget, k - 1);
        let prev = min_grants(tracks, order, budget, k - 1);
        assert(min_grants(tracks, order, budget, k).drop_last() =~= prev);
    }
}

proof fn lemma_min_grants_len(tracks: Seq<TrackSize>, order: Seq<int>, budget: int, k: int)
    requires
        0 <= k,
    ensures
        min_grants(tracks, order, budget, k).len() == k,
    decreases k,
{
    if k > 0 {
        lemma_min_grants_len(tracks, order, budget, k - 1);
    }
}

proof fn lemma_min_grants_prefix(tracks: Seq<TrackSize>, order: Seq<int>, budget: int, k: int, m: int)
    requires
        0 <= k <= m,
    ensures
        min_grants(tracks, order, budget, k) == min_grants(tracks, order, budget, m).take(k),
    decreases m - k,
{
    lemma_min_grants_len(tracks, order, budget, m);
    lemma_min_grants_len(tracks, order, budget, k);
    if k < m {
        lemma_min_grants_len(tracks, order, budget, m - 1);
        lemma_min_grants_prefix(tracks, order, budget, k, m - 1);
        assert(min_grants(tracks, order, budget, m - 1) =~= min_grants(tracks, order, budget, m).take(m - 1));
        assert(min_grants(tracks, order, budget, m).take(m - 1).take(k) =~= min_grants(tracks, order, budget, m).take(k));
    } else {
        assert(min_grants(tracks, order, budget, m).take(m) =~= min_grants(tracks, order, budget, m));
    }
}

/// A flex track that may still receive space.
pub open spec fn can_grow(track: TrackSize, size: int) -> bool {
    match flex_cap(track) {
        Some(cap) => size < cap,
        None => true,
    }
}

/// A flex track that respects its cap.
pub open spec fn within_cap(track: TrackSize, size: int) -> bool {
    match flex_cap(track) {
        Some(cap) => size <= cap,
        None => true,
    }
}

/// The number of flex tracks among the first `n` listed in `order` that may
/// still receive space under `alloc`.
pub open spec fn growing(tracks: Seq<TrackSize>, order: Seq<int>, alloc: Seq<u16>, n: int) -> int
    decreases n,
{
    if n <= 0 {
        0
    } else {
        growing(tracks, order, alloc, n - 1) + if can_grow(tracks[order[n - 1]], alloc[order[n - 1]] as int) {
            1int
        } else {
            0int
        }
    }
}

proof fn lemma_growing_frame(tracks: Seq<TrackSize>, order: Seq<int>, a: Seq<u16>, b: Seq<u16>, n: int)
    requires
        forall|q: int| 0 <= q < n ==> a[#[trigger] order[q]] == b[order[q]],
    ensures
        growing(tracks, order, a, n) == growing(tracks, order, b, n),
    decreases n,
{
    if n > 0 {
        lemma_growing_frame(tracks, order, a, b, n - 1);
    }
}

proof fn lemma_growing_bounds(tracks: Seq<TrackSize>, order: Seq<int>, a: Seq<u16>, n: int, total: int)
    requires
        0 <= n <= total,
    ensures
        0 <= growing(tracks, order, a, n) <= n,
        growing(tracks, order, a, n) <= growing(tracks, order, a, total),
    decreases total,
{
    if total > n {
        lemma_growing_bounds(tracks, order, a, n, total - 1);
    } else if n > 0 {
        lemma_growing_bounds(tracks, order, a, n - 1, n - 1);
    }
}

proof fn lemma_growing_zero(tracks: Seq<TrackSize>, order: Seq<int>, a: Seq<u16>, n: int)
    requires
        0 <= n,
        growing(tracks, order, a, n) == 0,
    ensures
        forall|q: int| 0 <= q < n ==> !can_grow(tracks[#[trigger] order[q]], a[order[q]] as int),
    decreases n,
{
    if n > 0 {
        lemma_growing_bounds(tracks, order, a, n - 1, n - 1);
        lemma_growing_zero(tracks, order, a, n - 1);
    }
}

proof fn lemma_sum_prefix_element(s: Seq<u16>, n: int, i: int)
    requires
        0 <= i < n <= s.len(),
    ensures
        s[i] <= sum_prefix(s, n),
    decreases n,
{
    lemma_sum_prefix_nonneg(s, n - 1);
    if i < n - 1 {
        lemma_sum_prefix_element(s, n - 1, i);
    }
}

/// What the flex track at position `x` of `order` receives in a round that
/// shares `remaining` cells as `each` per growing track plus one more for
/// the first `remainder` of them, when `seen` growing tracks precede it: a
/// track that cannot grow receives nothing, a capped track at most its room.
pub open spec fn round_grant(
    tracks: Seq<TrackSize>,
    order: Seq<int>,
    alloc: Seq<u16>,
    x: int,
    seen: int,
    each: int,
    remainder: int,
    remaining: int,
) -> int {
    let track = tracks[order[x]];
    let current = alloc[order[x]] as int;
    if !can_grow(track, current) {
        0
    } else {
        let requested = if seen < remainder { each + 1 } else { each };
        let room = match flex_cap(track) {
            Some(cap) => cap - current,
            None => requested,
        };
        min_int(min_int(requested, room), remaining)
    }
}

/// The sizes after the first `p` flex tracks of one sharing round.
pub open spec fn round_sizes(
    tracks: Seq<TrackSize>,
    order: Seq<int>,
    alloc: Seq<u16>,
    each: int,
    remainder: int,
    remaining: int,
    p: int,
) -> Seq<u16>
    decreases p,
{
    if p <= 0 {
        alloc
    } else {
        let g = round_grant(tracks, order, alloc, p - 1, growing(tracks, order, alloc, p - 1), each, remainder, remaining);
        round_sizes(tracks, order, alloc, each, remainder, remaining, p - 1).update(
            order[p - 1],
            (alloc[order[p - 1]] + g) as u16,
        )
    }
}

/// The cells granted to the first `p` flex tracks of one sharing round.
pub open spec fn round_total(
    tracks: Seq<TrackSize>,
    order: Seq<int>,
    alloc: Seq<u16>,
    each: int,
    remainder: int,
    remaining: int,
    p: int,
) -> int
    decreases p,
{
    if p <= 0 {
        0
    } else {
        round_total(tracks, order, alloc, each, remainder, remaining, p - 1) + round_grant(
            tracks,
            order,
            alloc,
            p - 1,
            growing(tracks, order, alloc, p - 1),
            each,
            remainder,
            remaining,
        )
    }
}

/// `remaining` cells shared among the flex tracks in rounds: each round
/// splits what is left evenly among the tracks that can still grow (the
/// first ones in order taking one cell more when it does not divide), a
/// capped track takes no more than its room, and rounds go on until nothing
/// is left or no track can grow.
pub open spec fn share(tracks: Seq<TrackSize>, order: Seq<int>, alloc: Seq<u16>, remaining: int) -> Seq<u16>
    decreases remaining,
{
    let m = growing(tracks, order, alloc, order.len() as int);
    if remaining <= 0 || m <= 0 {
        alloc
    } else {
        let each = remaining / m;
        let remainder = remaining % m;
        let granted = round_total(tracks, order, alloc, each, remainder, remaining, order.len() as int);
        if granted <= 0 || granted > remaining {
            alloc
        } else {
            share(
                tracks,
                order,
                round_sizes(tracks, order, alloc, each, remainder, remaining, order.len() as int),
                remaining - granted,
            )
        }
    }
}

/// The number of flex tracks before index `j`.
pub open spec fn flex_rank(tracks: Seq<TrackSize>, j: int) -> int {
    flex_indices(tracks, j).len() as int
}

/// `sizes` with every flex track set to its minimum-phase grant.
pub open spec fn with_min_grants(tracks: Seq<TrackSize>, sizes: Seq<u16>, base: Seq<int>) -> Seq<u16> {
    Seq::new(sizes.len(), |j: int| if is_flex(tracks[j]) { base[flex_rank(tracks, j)] as u16 } else { sizes[j] })
}

proof fn lemma_flex_rank(tracks: Seq<TrackSize>, n: int)
    requires
        0 <= n <= tracks.len(),
    ensures
        forall|x: int|
            0 <= x < flex_indices(tracks, n).len() ==> flex_rank(tracks, #[trigger] flex_indices(tracks, n)[x]) == x,
    decreases n,
{
    if n > 0 {
        lemma_flex_rank(tracks, n - 1);
        let prev = flex_indices(tracks, n - 1);
        assert forall|x: int| 0 <= x < flex_indices(tracks, n).len() implies flex_rank(
            tracks,
            #[trigger] flex_indices(tracks, n)[x],
        ) == x by {
            if x < prev.len() {
                assert(flex_indices(tracks, n)[x] == prev[x]);
            }
        }
    }
}

/// Splits the available space between `tracks` and the gaps between them.
///
/// Fixed and content tracks are granted in order from the space left after
/// the gaps; flex tracks then receive their minimums in order, and the rest
/// is shared among flex tracks in rounds until it is used up or every flex
/// track has reached its cap.
pub fn allocate_tracks<F: Fn(usize, u16) -> u16>(
    available: u16,
    requested_gap: u16,
    tracks: &[TrackSize],
    measure_content: F,
) -> (r: TrackAllocation)
    requires
        tracks@.len() <= u16::MAX as int + 1,
        forall|i: usize, w: u16| call_requires(measure_content, (i, w)),
    ensures
        r.tracks@.len() == tracks@.len(),
        r.gap == spec_gap(available as int, requested_gap as int, tracks@.len() as int),
        ({
            let capacity = spec_capacity(available as int, requested_gap as int, tracks@.len() as int);
            &&& forall|i: int|
                0 <= i < tracks@.len() && !is_flex(#[trigger] tracks@[i]) ==> nonflex_grant_ok(
                    tracks@[i],
                    i,
                    capacity - fixed_used(tracks@, r.tracks@, i),
                    r.tracks@[i] as int,
                    measure_content,
                )
            &&& sum_prefix(r.tracks@, tracks@.len() as int) <= capacity
        }),
        ({
            let count = tracks@.len() as int;
            let capacity = spec_capacity(available as int, requested_gap as int, count);
            let order = flex_indices(tracks@, count);
            let base = min_grants(tracks@, order, capacity - fixed_used(tracks@, r.tracks@, count), order.len() as int);
            &&& forall|x: int| 0 <= x < order.len() ==> base[x] <= r.tracks@[#[trigger] order[x]] as int
            &&& forall|i: int| 0 <= i < count && is_flex(#[trigger] tracks@[i]) ==> within_cap(tracks@[i], r.tracks@[i] as int)
            &&& (sum_prefix(r.tracks@, count) == capacity || forall|i: int|
                0 <= i < count && is_flex(#[trigger] tracks@[i]) ==> !can_grow(tracks@[i], r.tracks@[i] as int))
        }),
        ({
            let count = tracks@.len() as int;
            let order = flex_indices(tracks@, count);
            let left = spec_capacity(available as int, requested_gap as int, count) - fixed_used(
                tracks@,
                r.tracks@,
                count,
            );
            let base = min_grants(tracks@, order, left, order.len() as int);
            r.tracks@ == share(tracks@, order, with_min_grants(tracks@, r.tracks@, base), left - sum_ints(base))
        }),
{
    let count = tracks.len();
    if count == 0 {
        return TrackAllocation { tracks: Vec::new(), gap: 0 };
    }
    let gap_count = count - 1;
    let gap: u16 = if gap_count == 0 {
        0
    } else {
        let quotient = available / (gap_count as u16);
        if requested_gap < quotient { requested_gap } else { quotient }
    };
    proof {
        if gap_count > 0 {
            assert(gap as int * gap_count as int <= available as int) by (nonlinear_arith)
                requires
                    gap as int <= available as int / gap_count as int,
                    gap_count > 0,
            ;
        }
    }
    let capacity: usize = (available as usize) - (gap as usize) * gap_count;
    assert(capacity as int == spec_capacity(available as int, requested_gap as int, count as int));
    let mut allocation: Vec<u16> = vec![0u16; count];
    let mut used: usize = 0;
    let mut flex: Vec<usize> = Vec::new();
    proof {
        lemma_sum_prefix_zero(allocation@, count as int);
        assert(flex@.map_values(|k: usize| k as int) =~= flex_indices(tracks@, 0));
    }

    let mut index: usize = 0;
    while index < count
        invariant
            count == tracks@.len(),
            count <= u16::MAX as int + 1,
            capacity <= u16::MAX,
            capacity as int == spec_capacity(available as int, requested_gap as int, count as int),
            forall|i: usize, w: u16| call_requires(measure_content, (i, w)),
            0 <= index <= count,
            allocation@.len() == count,
            used as int == fixed_used(tracks@, allocation@, index as int),
            used as int == sum_prefix(allocation@, count as int),
            used <= capacity,
            forall|j: int| index <= j < count ==> allocation@[j] == 0,
            forall|j: int| 0 <= j < index && is_flex(#[trigger] tracks@[j]) ==> allocation@[j] == 0,
            forall|j: int|
                0 <= j < index && !is_flex(#[trigger] tracks@[j]) ==> nonflex_grant_ok(
                    tracks@[j],
                    j,
                    capacity - fixed_used(tracks@, allocation@, j),
                    allocation@[j] as int,
                    measure_content,
                ),
            flex@.map_values(|k: usize| k as int) == flex_indices(tracks@, index as int),
        decreases count - index,
    {
        let track = tracks[index];
        let ghost before = allocation@;
        match track {
            TrackSize::Fixed(requested) => {
                let left = capacity - used;
                let amount: usize = if (requested as usize) < left { requested as usize } else { left };
                allocation.set(index, amount as u16);
                used = used + amount;
                proof {
                    lemma_fixed_used_frame(tracks@, before, allocation@, index as int);
                }
            },
            TrackSize::Content { max } => {
                let left = capacity - used;
                let remaining: u16 = left as u16;
                let preferred = measure_content(index, remaining);
                let capped: usize = match max {
                    Some(m) => if preferred < m { preferred as usize } else { m as usize },
                    None => preferred as usize,
                };
                let amount: usize = if capped < left { capped } else { left };
                allocation.set(index, amount as u16);
                used = used + amount;
                proof {
                    lemma_fixed_used_frame(tracks@, before, allocation@, index as int);
                    assert(call_ensures(measure_content, (index, min_int(capacity - fixed_used(tracks@, allocation@, index as int), u16::MAX as int) as u16), preferred));
                    assert(nonflex_grant_ok(track, index as int, capacity - fixed_used(tracks@, allocation@, index as int), allocation@[index as int] as int, measure_content));
                }
            },
            TrackSize::Flex { .. } => {
                flex.push(index);
            },
            TrackSize::FlexMax { .. } => {
                flex.push(index);
            },
        }
        proof {
            lemma_fixed_used_frame(tracks@, before, allocation@, index as int);
            lemma_sum_prefix_update(before, count as int, index as int, allocation@[index as int]);
            assert forall|j: int|
                0 <= j < index && !is_flex(#[trigger] tracks@[j]) implies nonflex_grant_ok(
                tracks@[j],
                j,
                capacity - fixed_used(tracks@, allocation@, j),
                allocation@[j] as int,
                measure_content,
            ) by {
                lemma_fixed_used_frame(tracks@, before, allocation@, j);
            }
            assert(flex@.map_values(|k: usize| k as int) =~= flex_indices(tracks@, index + 1));
        }
        index += 1;
    }

    let ghost order = flex_indices(tracks@, count as int);
    let ghost phase1 = allocation@;
    assert(used as int == fixed_used(tracks@, phase1, count as int));
    assert(forall|j: int|
        0 <= j < count && !is_flex(#[trigger] tracks@[j]) ==> nonflex_grant_ok(
            tracks@[j],
            j,
            capacity - fixed_used(tracks@, phase1, j),
            phase1[j] as int,
            measure_content,
        ));
    let ghost budget = capacity - used;
    proof {
        lemma_flex_indices(tracks@, count as int);
        assert(flex@.len() == order.len());
        assert forall|k: int| 0 <= k < flex@.len() implies flex@[k] as int == order[k] by {
            assert(flex@.map_values(|x: usize| x as int)[k] == flex@[k] as int);
        }
    }
    let mut remaining: usize = capacity - used;
    let mut k: usize = 0;
    while k < flex.len()
        invariant
            count == tracks@.len(),
            count <= u16::MAX as int + 1,
            capacity <= u16::MAX,
            used <= capacity,
            budget == capacity - used,
            order == flex_indices(tracks@, count as int),
            flex@.len() == order.len(),
            forall|x: int| 0 <= x < flex@.len() ==> #[trigger] flex@[x] as int == order[x],
            forall|x: int| 0 <= x < order.len() ==> 0 <= #[trigger] order[x] < count && is_flex(tracks@[order[x]]),
            forall|a: int, b: int| 0 <= a < b < order.len() ==> #[trigger] order[a] < #[trigger] order[b],
            0 <= k <= flex@.len(),
            allocation@.len() == count,
            forall|j: int| 0 <= j < count && !is_flex(#[trigger] tracks@[j]) ==> allocation@[j] == phase1[j],
            forall|j: int| 0 <= j < count && is_flex(#[trigger] tracks@[j]) ==> phase1[j] == 0,
            forall|x: int| 0 <= x < k ==> allocation@[#[trigger] order[x]] == min_grants(tracks@, order, budget, k as int)[x],
            forall|x: int| k <= x < order.len() ==> allocation@[#[trigger] order[x]] == 0,
            remaining as int == budget - sum_ints(min_grants(tracks@, order, budget, k as int)),
            sum_prefix(allocation@, count as int) == used + sum_ints(min_grants(tracks@, order, budget, k as int)),
            used as int == sum_prefix(phase1, count as int),
            forall|j: int|
                0 <= j < count && !is_flex(#[trigger] tracks@[j]) ==> nonflex_grant_ok(
                    tracks@[j],
                    j,
                    capacity - fixed_used(tracks@, phase1, j),
                    phase1[j] as int,
                    measure_content,
                ),
        decreases flex@.len() - k,
    {
        proof {
            lemma_min_grants(tracks@, order, budget, k as int);
            lemma_min_grants(tracks@, order, budget, k + 1);
            lemma_min_grants_prefix(tracks@, order, budget, k as int, k + 1);
        }
        let idx = flex[k];
        let want: usize = match tracks[idx] {
            TrackSize::Flex { min } => min as usize,
            TrackSize::FlexMax { min, max } => if min < max { min as usize } else { max as usize },
            _ => 0,
        };
        let amount: usize = if want < remaining { want } else { remaining };
        let ghost before = allocation@;
        allocation.set(idx, amount as u16);
        remaining = remaining - amount;
        proof {
            lemma_sum_prefix_update(before, count as int, idx as int, amount as u16);
            assert(min_grants(tracks@, order, budget, k + 1).drop_last() =~= min_grants(tracks@, order, budget, k as int));
            assert forall|x: int| 0 <= x < k + 1 implies allocation@[#[trigger] order[x]] == min_grants(tracks@, order, budget, k + 1)[x] by {
                if x < k {
                    assert(order[x] < order[k as int]);
                }
            }
            assert forall|x: int| k + 1 <= x < order.len() implies allocation@[#[trigger] order[x]] == 0 by {
                assert(order[k as int] < order[x]);
            }
        }
        k += 1;
    }
    let ghost base = min_grants(tracks@, order, budget, order.len() as int);
    proof {
        lemma_min_grants(tracks@, order, budget, order.len() as int);
        assert forall|x: int| 0 <= x < order.len() implies match flex_cap(tracks@[#[trigger] order[x]]) {
            Some(c) => allocation@[order[x]] <= c,
            None => true,
        } by {}
    }
    proof {
        assert forall|x: int| 0 <= x < order.len() implies within_cap(
            tracks@[#[trigger] order[x]],
            allocation@[order[x]] as int,
        ) by {
            assert(allocation@[order[x]] == base[x]);
        }
    }

    // Count the flex tracks that can still grow.
    let mut active: usize = 0;
    let mut p: usize = 0;
    while p < flex.len()
        invariant
            count == tracks@.len(),
            order == flex_indices(tracks@, count as int),
            flex@.len() == order.len(),
            forall|x: int| 0 <= x < flex@.len() ==> #[trigger] flex@[x] as int == order[x],
            forall|x: int| 0 <= x < order.len() ==> 0 <= #[trigger] order[x] < count && is_flex(tracks@[order[x]]),
            allocation@.len() == count,
            0 <= p <= flex@.len(),
            active as int == growing(tracks@, order, allocation@, p as int),
            active <= p,
        decreases flex@.len() - p,
    {
        let idx = flex[p];
        let grows = match tracks[idx] {
            TrackSize::FlexMax { max, .. } => allocation[idx] < max,
            _ => true,
        };
        if grows {
            active += 1;
        }
        p += 1;
    }

    let ghost shared_from = allocation@;
    let ghost shared_cells = remaining as int;
    proof {
        assert(shared_cells == budget - sum_ints(base));
    }
    while remaining > 0 && active > 0
        invariant
            share(tracks@, order, allocation@, remaining as int) == share(tracks@, order, shared_from, shared_cells),
            count == tracks@.len(),
            capacity <= u16::MAX,
            order == flex_indices(tracks@, count as int),
            flex@.len() == order.len(),
            forall|x: int| 0 <= x < flex@.len() ==> #[trigger] flex@[x] as int == order[x],
            forall|x: int| 0 <= x < order.len() ==> 0 <= #[trigger] order[x] < count && is_flex(tracks@[order[x]]),
            forall|a: int, b: int| 0 <= a < b < order.len() ==> #[trigger] order[a] < #[trigger] order[b],
            allocation@.len() == count,
            forall|j: int| 0 <= j < count && !is_flex(#[trigger] tracks@[j]) ==> allocation@[j] == phase1[j],
            forall|x: int| 0 <= x < order.len() ==> base[x] <= allocation@[#[trigger] order[x]] as int,
            forall|x: int| 0 <= x < order.len() ==> within_cap(tracks@[#[trigger] order[x]], allocation@[order[x]] as int),
            sum_prefix(allocation@, count as int) + remaining == capacity,
            active as int == growing(tracks@, order, allocation@, order.len() as int),
        decreases remaining,
    {
        let m = active;
        let each = remaining / m;
        let remainder = remaining % m;
        proof {
            assert(each * m + remainder == remaining) by (nonlinear_arith)
                requires each == remaining / m, remainder == remaining % m, m > 0;
            assert(each <= remaining && (each >= 1 || remainder >= 1)) by (nonlinear_arith)
                requires each * m + remainder == remaining, m > 0, remainder >= 0, each >= 0, remaining > 0;
            lemma_sum_prefix_nonneg(allocation@, count as int);
        }
        let ghost round_start = allocation@;
        let ghost mut requested_total: int = 0;
        let mut granted_total: usize = 0;
        let mut next_active: usize = 0;
        let mut seen: usize = 0;
        let mut p: usize = 0;
        while p < flex.len()
            invariant
                count == tracks@.len(),
                capacity <= u16::MAX,
                m as int == growing(tracks@, order, round_start, order.len() as int),
                m > 0,
                remaining > 0,
                each * m + remainder == remaining,
                remainder < m,
                each <= remaining,
                remaining <= capacity,
                each >= 1 || remainder >= 1,
                0 <= p <= flex@.len(),
                order == flex_indices(tracks@, count as int),
                flex@.len() == order.len(),
                forall|x: int| 0 <= x < flex@.len() ==> #[trigger] flex@[x] as int == order[x],
                forall|x: int| 0 <= x < order.len() ==> 0 <= #[trigger] order[x] < count && is_flex(tracks@[order[x]]),
                forall|a: int, b: int| 0 <= a < b < order.len() ==> #[trigger] order[a] < #[trigger] order[b],
                allocation@.len() == count,
                round_start.len() == count,
                forall|j: int| 0 <= j < count && !is_flex(#[trigger] tracks@[j]) ==> allocation@[j] == phase1[j],
                forall|x: int| 0 <= x < order.len() ==> base[x] <= allocation@[#[trigger] order[x]] as int,
                forall|x: int| 0 <= x < order.len() ==> within_cap(tracks@[#[trigger] order[x]], allocation@[order[x]] as int),
                forall|x: int| p <= x < order.len() ==> allocation@[#[trigger] order[x]] == round_start[order[x]],
                sum_prefix(round_start, count as int) + remaining == capacity,
                sum_prefix(allocation@, count as int) == sum_prefix(round_start, count as int) + granted_total,
                seen as int == growing(tracks@, order, round_start, p as int),
                next_active as int == growing(tracks@, order, allocation@, p as int),
                next_active <= p,
                requested_total == seen * each + min_int(seen as int, remainder as int),
                granted_total <= requested_total,
                seen >= 1 ==> granted_total >= 1,
                allocation@ == round_sizes(
                    tracks@,
                    order,
                    round_start,
                    each as int,
                    remainder as int,
                    remaining as int,
                    p as int,
                ),
                granted_total as int == round_total(
                    tracks@,
                    order,
                    round_start,
                    each as int,
                    remainder as int,
                    remaining as int,
                    p as int,
                ),
            decreases flex@.len() - p,
        {
            proof {
                lemma_growing_bounds(tracks@, order, round_start, p as int + 1, order.len() as int);
            }
            let idx = flex[p];
            let current = allocation[idx];
            let grows = match tracks[idx] {
                TrackSize::FlexMax { max, .. } => current < max,
                _ => true,
            };
            let ghost before = allocation@;
            let ghost seen_before = seen as int;
            let ghost total_before = granted_total as int;
            if grows {
                let requested: usize = if seen < remainder { each + 1 } else { each };
                proof {
                    lemma_sum_prefix_element(allocation@, count as int, idx as int);
                    assert(current == round_start[order[p as int]]);
                    assert(growing(tracks@, order, round_start, p + 1) == seen + 1);
                    assert(seen + 1 <= m);
                    assert(seen * each + each == (seen + 1) * each) by (nonlinear_arith);
                    assert((seen + 1) * each <= m * each) by (nonlinear_arith)
                        requires seen + 1 <= m, each >= 0;
                    assert(requested_total + requested == (seen + 1) * each + min_int(seen + 1, remainder as int));
                    assert(m * each == each * m) by (nonlinear_arith);
                    assert(min_int(seen + 1, remainder as int) <= remainder);
                    assert(requested_total + requested <= remaining);
                }
                let room: usize = match tracks[idx] {
                    TrackSize::FlexMax { max, .. } => (max - current) as usize,
                    _ => requested,
                };
                let mut granted: usize = if requested < room { requested } else { room };
                if remaining < granted {
                    granted = remaining;
                }
                proof {
                    assert(current as int <= sum_prefix(allocation@, count as int));
                    assert(current + granted <= capacity);
                }
                allocation.set(idx, current + granted as u16);
                granted_total = granted_total + granted;
                proof {
                    requested_total = requested_total + requested;
                    lemma_sum_prefix_update(before, count as int, idx as int, (current + granted) as u16);
                }
                seen = seen + 1;
                let still = match tracks[idx] {
                    TrackSize::FlexMax { max, .. } => allocation[idx] < max,
                    _ => true,
                };
                if still {
                    next_active = next_active + 1;
                }
            }
            proof {
                let g = round_grant(
                    tracks@,
                    order,
                    round_start,
                    p as int,
                    seen_before,
                    each as int,
                    remainder as int,
                    remaining as int,
                );
                assert(before[idx as int] == round_start[idx as int]);
                assert(grows == can_grow(tracks@[idx as int], round_start[idx as int] as int));
                assert(g == allocation@[idx as int] - before[idx as int]);
                assert(allocation@ =~= before.update(order[p as int], (round_start[order[p as int]] + g) as u16));
                assert(granted_total == total_before + g);
                lemma_growing_frame(tracks@, order, before, allocation@, p as int);
                assert forall|x: int| p + 1 <= x < order.len() implies allocation@[#[trigger] order[x]] == round_start[order[x]] by {
                    assert(order[p as int] < order[x]);
                }
                assert forall|x: int| 0 <= x < order.len() implies base[x] <= allocation@[#[trigger] order[x]] as int by {
                    assert(base[x] <= before[order[x]] as int);
                }
            }
            p += 1;
        }
        proof {
            lemma_growing_bounds(tracks@, order, round_start, order.len() as int, order.len() as int);
            assert(seen * each == each * m) by (nonlinear_arith)
                requires seen == m;
        }
        proof {
            assert(growing(tracks@, order, round_start, order.len() as int) == m);
            assert(p == order.len());
            assert(1 <= granted_total <= remaining);
            assert(share(tracks@, order, round_start, remaining as int) == share(
                tracks@,
                order,
                allocation@,
                remaining - granted_total,
            ));
        }
        remaining = remaining - granted_total;
        active = next_active;
    }
    proof {
        lemma_flex_indices(tracks@, count as int);
        lemma_flex_rank(tracks@, count as int);
        lemma_fixed_used_frame(tracks@, phase1, allocation@, count as int);
        assert(allocation@ == share(tracks@, order, shared_from, shared_cells));
        assert forall|j: int| 0 <= j < count implies #[trigger] shared_from[j] == with_min_grants(
            tracks@,
            allocation@,
            base,
        )[j] by {
            if is_flex(tracks@[j]) {
                let x = choose|x: int| 0 <= x < order.len() && #[trigger] order[x] == j;
                assert(flex_rank(tracks@, order[x]) == x);
            }
        }
        assert(shared_from =~= with_min_grants(tracks@, allocation@, base));
        if active == 0 {
            lemma_growing_zero(tracks@, order, allocation@, order.len() as int);
        }
        assert forall|i: int| 0 <= i < count && is_flex(#[trigger] tracks@[i]) implies within_cap(
            tracks@[i],
            allocation@[i] as int,
        ) && (remaining == 0 || !can_grow(tracks@[i], allocation@[i] as int)) by {
            let k = choose|k: int| 0 <= k < order.len() && #[trigger] order[k] == i;
            assert(within_cap(tracks@[order[k]], allocation@[order[k]] as int));
        }
        assert forall|i: int|
            0 <= i < count && !is_flex(#[trigger] tracks@[i]) implies nonflex_grant_ok(
            tracks@[i],
            i,
            capacity - fixed_used(tracks@, allocation@, i),
            allocation@[i] as int,
            measure_content,
        ) by {
            lemma_fixed_used_frame(tracks@, phase1, allocation@, i);
        }
    }

    TrackAllocation { tracks: allocation, gap }
}

} // verus!
