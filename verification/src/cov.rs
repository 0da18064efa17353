//! Novelty detection over coverage maps.
//!
//! A new trace is compared position by position against a persistent
//! history map of the same length: the trace is interesting when some
//! position's value exceeds the history value there, and the novel
//! positions can be collected in ascending order. The scan is expressed
//! over a pluggable reduction and novelty predicate, with the unsigned
//! maximum and value-changed pair as the canonical policy, and several
//! chunked variants are proved to report exactly what the scalar
//! reference reports.

use vstd::prelude::*;

use crate::chunks::copy_chunk;
use crate::simd_ops::u8x16_max;
use crate::simd_ops::u8x32_max;

verus! {

/// Folds the existing history value with the new trace value; for coverage
/// feedback the fold keeps the larger of the two.
pub trait Reducer<T> {
    /// The value the fold produces.
    spec fn spec_reduce(first: T, second: T) -> T;

    /// Folds the two values.
    fn reduce(first: T, second: T) -> (r: T)
        ensures
            r == Self::spec_reduce(first, second),
    ;
}

/// Keeps the larger of the two values.
pub struct MaxReducer {}

impl Reducer<u8> for MaxReducer {
    open spec fn spec_reduce(first: u8, second: u8) -> u8 {
        if first > second {
            first
        } else {
            second
        }
    }

    fn reduce(first: u8, second: u8) -> (r: u8) {
        if first > second {
            first
        } else {
            second
        }
    }
}

/// Decides whether a reduced value is novel against the value history held
/// before the fold.
pub trait IsNovel<T> {
    /// Whether the reduced value counts as novel.
    spec fn spec_is_novel(prior: T, reduced: T) -> bool;

    /// Decides novelty of the reduced value.
    fn is_novel(prior: T, reduced: T) -> (r: bool)
        ensures
            r == Self::spec_is_novel(prior, reduced),
    ;
}

/// A reduced value is novel when it differs from the prior history value.
pub struct DifferentIsNovel {}

impl IsNovel<u8> for DifferentIsNovel {
    open spec fn spec_is_novel(prior: u8, reduced: u8) -> bool {
        prior != reduced
    }

    fn is_novel(prior: u8, reduced: u8) -> (r: bool) {
        prior != reduced
    }
}

/// Whether position `i` of the trace is novel under a strategy: the scan
/// skips bytes still at the zero default, folds the rest into the history
/// value and asks the predicate about the outcome.
pub open spec fn strategy_novel_at<R: Reducer<u8>, N: IsNovel<u8>>(h: u8, m: u8) -> bool {
    m != 0 && N::spec_is_novel(h, R::spec_reduce(h, m))
}

/// The ascending positions below `n` that a strategy reports as novel.
pub open spec fn strategy_prefix<R: Reducer<u8>, N: IsNovel<u8>>(
    h: Seq<u8>,
    m: Seq<u8>,
    n: int,
) -> Seq<usize>
    decreases n,
{
    if n <= 0 {
        Seq::empty()
    } else if strategy_novel_at::<R, N>(h[n - 1], m[n - 1]) {
        strategy_prefix::<R, N>(h, m, n - 1).push((n - 1) as usize)
    } else {
        strategy_prefix::<R, N>(h, m, n - 1)
    }
}

/// Whether the trace improves on history anywhere: some position's new
/// value exceeds the history value there.
pub open spec fn is_interesting(h: Seq<u8>, m: Seq<u8>) -> bool {
    exists|i: int| 0 <= i < m.len() && m[i] > h[i]
}

/// The ascending positions below `n` where the trace value exceeds the
/// history value.
pub open spec fn novel_prefix(h: Seq<u8>, m: Seq<u8>, n: int) -> Seq<usize>
    decreases n,
{
    if n <= 0 {
        Seq::empty()
    } else if m[n - 1] > h[n - 1] {
        novel_prefix(h, m, n - 1).push((n - 1) as usize)
    } else {
        novel_prefix(h, m, n - 1)
    }
}

/// The ascending positions where the trace value exceeds the history value.
pub open spec fn novel_positions(h: Seq<u8>, m: Seq<u8>) -> Seq<usize> {
    novel_prefix(h, m, m.len() as int)
}

/// Scans history and trace position by position with the given reduction
/// and novelty predicate. Reports whether any position was novel; when
/// `collect_positions` holds, also the ascending positions that were,
/// otherwise an empty list, stopping at the first novel position.
pub fn afl_default_impl<R: Reducer<u8>, N: IsNovel<u8>>(
    hist: &Vec<u8>,
    map: &Vec<u8>,
    collect_positions: bool,
) -> (r: (bool, Vec<usize>))
    requires
        hist@.len() == map@.len(),
    ensures
        r.0 == exists|i: int|
            0 <= i < map@.len() && strategy_novel_at::<R, N>(hist@[i], map@[i]),
        collect_positions ==> r.1@ == strategy_prefix::<R, N>(hist@, map@, map@.len() as int),
        !collect_positions ==> r.1@.len() == 0,
{
    let mut novelties: Vec<usize> = Vec::new();
    let mut interesting = false;
    let len = map.len();
    if collect_positions {
        let mut i: usize = 0;
        while i < len
            invariant
                i <= len,
                len == map@.len(),
                hist@.len() == map@.len(),
                novelties@ == strategy_prefix::<R, N>(hist@, map@, i as int),
                interesting == exists|j: int|
                    0 <= j < i && strategy_novel_at::<R, N>(hist@[j], map@[j]),
            decreases len - i,
        {
            let item = map[i];
            if item != 0 {
                let existing = hist[i];
                let reduced = R::reduce(existing, item);
                if N::is_novel(existing, reduced) {
                    interesting = true;
                    novelties.push(i);
                    assert(strategy_novel_at::<R, N>(hist@[i as int], map@[i as int]));
                }
            }
            i = i + 1;
        }
    } else {
        let mut i: usize = 0;
        while i < len
            invariant_except_break
                i <= len,
                len == map@.len(),
                hist@.len() == map@.len(),
                !interesting,
                forall|j: int|
                    0 <= j < i ==> !strategy_novel_at::<R, N>(hist@[j], #[trigger] map@[j]),
            ensures
                interesting == exists|j: int|
                    0 <= j < map@.len() && strategy_novel_at::<R, N>(hist@[j], map@[j]),
            decreases len - i,
        {
            let item = map[i];
            if item != 0 {
                let existing = hist[i];
                let reduced = R::reduce(existing, item);
                if N::is_novel(existing, reduced) {
                    interesting = true;
                    assert(strategy_novel_at::<R, N>(hist@[i as int], map@[i as int]));
                    break ;
                }
            }
            i = i + 1;
        }
    }
    (interesting, novelties)
}

/// With the maximum reduction and the value-changed predicate, a position
/// is novel exactly when the trace value exceeds the history value, so the
/// strategy scan reports the canonical positions.
proof fn lemma_max_strategy_prefix(h: Seq<u8>, m: Seq<u8>, n: int)
    requires
        h.len() == m.len(),
        n <= m.len(),
    ensures
        strategy_prefix::<MaxReducer, DifferentIsNovel>(h, m, n) == novel_prefix(h, m, n),
    decreases n,
{
    if n > 0 {
        lemma_max_strategy_prefix(h, m, n - 1);
    }
}

/// With the maximum reduction and the value-changed predicate, some
/// position is novel under the strategy exactly when the trace improves on
/// history somewhere.
proof fn lemma_max_strategy_interesting(h: Seq<u8>, m: Seq<u8>)
    requires
        h.len() == m.len(),
    ensures
        (exists|i: int|
            0 <= i < m.len() && strategy_novel_at::<MaxReducer, DifferentIsNovel>(h[i], m[i]))
            == is_interesting(h, m),
{
    if exists|i: int|
        0 <= i < m.len() && strategy_novel_at::<MaxReducer, DifferentIsNovel>(h[i], m[i]) {
        let i = choose|i: int|
            0 <= i < m.len() && strategy_novel_at::<MaxReducer, DifferentIsNovel>(h[i], m[i]);
        assert(m[i] > h[i]);
    }
    if is_interesting(h, m) {
        let i = choose|i: int| 0 <= i < m.len() && m[i] > h[i];
        assert(strategy_novel_at::<MaxReducer, DifferentIsNovel>(h[i], m[i]));
    }
}

/// Compares a new trace against the history map with the canonical policy:
/// the maximum reduction and the value-changed novelty predicate. Reports
/// whether any position improved on history and, when asked, the ascending
/// positions that did.
pub fn detect_novelty(hist: &Vec<u8>, map: &Vec<u8>, collect_positions: bool) -> (r: (
    bool,
    Vec<usize>,
))
    requires
        hist@.len() == map@.len(),
    ensures
        r.0 == is_interesting(hist@, map@),
        collect_positions ==> r.1@ == novel_positions(hist@, map@),
        !collect_positions ==> r.1@.len() == 0,
{
    proof {
        lemma_max_strategy_prefix(hist@, map@, map@.len() as int);
        lemma_max_strategy_interesting(hist@, map@);
    }
    afl_default_impl::<MaxReducer, DifferentIsNovel>(hist, map, collect_positions)
}

/// A span without improvements adds no positions to the canonical scan.
proof fn lemma_novel_prefix_skip(h: Seq<u8>, m: Seq<u8>, a: int, b: int)
    requires
        h.len() == m.len(),
        0 <= a <= b <= m.len(),
        forall|j: int| a <= j < b ==> !(m[j] > h[j]),
    ensures
        novel_prefix(h, m, b) == novel_prefix(h, m, a),
    decreases b - a,
{
    if a < b {
        lemma_novel_prefix_skip(h, m, a, b - 1);
    }
}

/// Every reported position lies below the scanned bound and improves on
/// history; the report is strictly ascending; and it contains every
/// improving position below the bound.
pub proof fn lemma_novel_prefix_complete(h: Seq<u8>, m: Seq<u8>, n: int)
    requires
        h.len() == m.len(),
        m.len() <= usize::MAX,
        0 <= n <= m.len(),
    ensures
        forall|k: int|
            0 <= k < novel_prefix(h, m, n).len() ==> (#[trigger] novel_prefix(h, m, n)[k] < n
                && m[novel_prefix(h, m, n)[k] as int] > h[novel_prefix(h, m, n)[k] as int]),
        forall|k1: int, k2: int|
            0 <= k1 < k2 < novel_prefix(h, m, n).len() ==> novel_prefix(h, m, n)[k1]
                < novel_prefix(h, m, n)[k2],
        forall|i: int| 0 <= i < n && m[i] > h[i] ==> novel_prefix(h, m, n).contains(i as usize),
    decreases n,
{
    if n > 0 {
        lemma_novel_prefix_complete(h, m, n - 1);
        let pre = novel_prefix(h, m, n - 1);
        let cur = novel_prefix(h, m, n);
        if m[n - 1] > h[n - 1] {
            assert(cur == pre.push((n - 1) as usize));
            assert forall|k: int|
                0 <= k < cur.len() implies (#[trigger] cur[k] < n && m[cur[k] as int]
                > h[cur[k] as int]) by {
                if k < pre.len() {
                    assert(cur[k] == pre[k]);
                } else {
                    assert(cur[k] == (n - 1) as usize);
                }
            }
            assert forall|k1: int, k2: int| 0 <= k1 < k2 < cur.len() implies cur[k1] < cur[k2] by {
                if k2 < pre.len() {
                    assert(pre[k1] < pre[k2]);
                } else {
                    assert(cur[k2] == (n - 1) as usize);
                    assert(cur[k1] == pre[k1]);
                    assert(pre[k1] < n - 1);
                }
            }
            assert forall|i: int| 0 <= i < n && m[i] > h[i] implies cur.contains(i as usize) by {
                if i < n - 1 {
                    assert(pre.contains(i as usize));
                    let k = choose|k: int| 0 <= k < pre.len() && pre[k] == i as usize;
                    assert(cur[k] == i as usize);
                } else {
                    assert(cur[cur.len() - 1] == (n - 1) as usize);
                    assert(i == n - 1);
                }
            }
        } else {
            assert(cur == pre);
            assert forall|i: int| 0 <= i < n && m[i] > h[i] implies cur.contains(i as usize) by {
                assert(i != n - 1);
                assert(pre.contains(i as usize));
            }
        }
    }
}

/// The kernel's position-completeness law: with position collection, the
/// report is exactly the ascending list of positions where the trace value
/// exceeds the history value, each exactly once.
pub proof fn lemma_novel_positions_complete(h: Seq<u8>, m: Seq<u8>)
    requires
        h.len() == m.len(),
        m.len() <= usize::MAX,
    ensures
        forall|k: int|
            0 <= k < novel_positions(h, m).len() ==> (#[trigger] novel_positions(h, m)[k]
                < m.len() && m[novel_positions(h, m)[k] as int] > h[novel_positions(h, m)[k] as int]),
        forall|k1: int, k2: int|
            0 <= k1 < k2 < novel_positions(h, m).len() ==> novel_positions(h, m)[k1]
                < novel_positions(h, m)[k2],
        forall|i: int| 0 <= i < m.len() && m[i] > h[i] ==> novel_positions(h, m).contains(i as usize),
{
    lemma_novel_prefix_complete(h, m, m.len() as int);
}

/// The kernel's monotonicity law: reducing an unreported position with the
/// maximum leaves the history value unchanged.
pub proof fn lemma_novelty_monotonicity(h: Seq<u8>, m: Seq<u8>, i: int)
    requires
        h.len() == m.len(),
        m.len() <= usize::MAX,
        0 <= i < m.len(),
        !novel_positions(h, m).contains(i as usize),
    ensures
        MaxReducer::spec_reduce(h[i], m[i]) == h[i],
{
    lemma_novel_positions_complete(h, m);
}

/// Scans `[lo, hi)` with the per-byte rule, appending every improving
/// position in ascending order; reports whether the span held one.
fn scan_range_collect(
    hist: &Vec<u8>,
    map: &Vec<u8>,
    lo: usize,
    hi: usize,
    novelties: &mut Vec<usize>,
) -> (found: bool)
    requires
        hist@.len() == map@.len(),
        lo <= hi <= map@.len(),
        old(novelties)@ == novel_prefix(hist@, map@, lo as int),
    ensures
        final(novelties)@ == novel_prefix(hist@, map@, hi as int),
        found == exists|j: int| lo <= j < hi && map@[j] > hist@[j],
{
    let mut found = false;
    let mut j = lo;
    while j < hi
        invariant
            lo <= j <= hi,
            hi <= map@.len(),
            hist@.len() == map@.len(),
            novelties@ == novel_prefix(hist@, map@, j as int),
            found == exists|t: int| lo <= t < j && map@[t] > hist@[t],
        decreases hi - j,
    {
        if map[j] > hist[j] {
            novelties.push(j);
            found = true;
        }
        j = j + 1;
    }
    found
}

/// Scans `[lo, hi)` with the per-byte rule and reports whether the span
/// holds an improving position, without collecting it.
fn any_novel_in_range(hist: &Vec<u8>, map: &Vec<u8>, lo: usize, hi: usize) -> (found: bool)
    requires
        hist@.len() == map@.len(),
        lo <= hi <= map@.len(),
    ensures
        found == exists|j: int| lo <= j < hi && map@[j] > hist@[j],
{
    let mut j = lo;
    while j < hi
        invariant_except_break
            lo <= j <= hi,
            hi <= map@.len(),
            hist@.len() == map@.len(),
            forall|t: int| lo <= t < j ==> !(#[trigger] map@[t] > hist@[t]),
        ensures
            (exists|t: int| lo <= t < hi && map@[t] > hist@[t]) == !(j >= hi),
        decreases hi - j,
    {
        if map[j] > hist[j] {
            break ;
        }
        j = j + 1;
    }
    j < hi
}

/// The lane-wise maximum of two equal-length byte vectors, computed lane
/// by lane.
fn lane_max(a: &Vec<u8>, b: &Vec<u8>) -> (r: Vec<u8>)
    requires
        a@.len() == b@.len(),
    ensures
        r@.len() == a@.len(),
        forall|k: int|
            0 <= k < a@.len() ==> r@[k] == (if a@[k] > b@[k] {
                a@[k]
            } else {
                b@[k]
            }),
{
    let n = a.len();
    let mut r: Vec<u8> = Vec::with_capacity(n);
    let mut k: usize = 0;
    while k < n
        invariant
            k <= n,
            n == a@.len(),
            a@.len() == b@.len(),
            r@.len() == k,
            forall|j: int|
                0 <= j < k ==> #[trigger] r@[j] == (if a@[j] > b@[j] {
                    a@[j]
                } else {
                    b@[j]
                }),
        decreases n - k,
    {
        let v = if a[k] > b[k] {
            a[k]
        } else {
            b[k]
        };
        r.push(v);
        k = k + 1;
    }
    r
}

/// Whether a chunk-wide maximum differs from the history chunk it was
/// folded with: exactly when some position of the chunk improves on
/// history.
fn max_differs(mx: &Vec<u8>, hist: &Vec<u8>, map: &Vec<u8>, lo: usize) -> (differs: bool)
    requires
        hist@.len() == map@.len(),
        lo + mx@.len() <= map@.len(),
        forall|k: int|
            0 <= k < mx@.len() ==> #[trigger] mx@[k] == (if map@[lo + k] > hist@[lo + k] {
                map@[lo + k]
            } else {
                hist@[lo + k]
            }),
    ensures
        differs == exists|j: int| lo <= j < lo + mx@.len() && map@[j] > hist@[j],
{
    let n = mx.len();
    let len = map.len();
    let mut k: usize = 0;
    let mut differs = false;
    while k < n
        invariant
            k <= n,
            n == mx@.len(),
            len == map@.len(),
            lo + n <= len,
            hist@.len() == map@.len(),
            forall|j: int|
                0 <= j < n ==> #[trigger] mx@[j] == (if map@[lo + j] > hist@[lo + j] {
                    map@[lo + j]
                } else {
                    hist@[lo + j]
                }),
            differs == exists|j: int| 0 <= j < k && mx@[j] != hist@[lo + j],
        decreases n - k,
    {
        if mx[k] != hist[lo + k] {
            differs = true;
        }
        k = k + 1;
    }
    assert forall|j: int| 0 <= j < n implies ((mx@[j] != hist@[lo + j]) == (map@[lo + j]
        > hist@[lo + j])) by {}
    if differs {
        proof {
            let j = choose|j: int| 0 <= j < n && mx@[j] != hist@[lo + j];
            assert(map@[lo + j] > hist@[lo + j]);
        }
    } else {
        proof {
            if exists|j: int| lo <= j < lo + n && map@[j] > hist@[j] {
                let j = choose|j: int| lo <= j < lo + n && map@[j] > hist@[j];
                assert(mx@[j - lo] != hist@[lo + (j - lo)]);
            }
        }
    }
    differs
}

/// Compares trace and history in 16-byte chunks: a chunk whose lane-wise
/// maximum with history differs from history holds at least one improving
/// position, which a scalar scan of exactly that chunk then enumerates;
/// tail bytes after the last whole chunk are scanned with the per-byte
/// rule. The lane-wise maximum is computed lane by lane in place of the
/// platform vector type. Reports exactly what `detect_novelty` reports.
pub fn afl_nightly_simd(hist: &Vec<u8>, map: &Vec<u8>, collect_positions: bool) -> (r: (
    bool,
    Vec<usize>,
))
    requires
        hist@.len() == map@.len(),
    ensures
        r.0 == is_interesting(hist@, map@),
        collect_positions ==> r.1@ == novel_positions(hist@, map@),
        !collect_positions ==> r.1@.len() == 0,
{
    let mut novelties: Vec<usize> = Vec::new();
    let mut interesting = false;
    let size = map.len();
    if collect_positions {
        let mut i: usize = 0;
        while size - i >= 16
            invariant
                i <= size,
                size == map@.len(),
                hist@.len() == map@.len(),
                novelties@ == novel_prefix(hist@, map@, i as int),
                interesting == exists|j: int| 0 <= j < i && map@[j] > hist@[j],
            decreases size - i,
        {
            let hchunk = copy_chunk(hist, i, 16);
            let mchunk = copy_chunk(map, i, 16);
            let mx = lane_max(&mchunk, &hchunk);
            proof {
                assert forall|k: int| 0 <= k < 16 implies #[trigger] mx@[k] == (if map@[i + k]
                    > hist@[i + k] {
                    map@[i + k]
                } else {
                    hist@[i + k]
                }) by {
                    assert(mchunk@[k] == map@[i + k]);
                    assert(hchunk@[k] == hist@[i + k]);
                }
            }
            let differs = max_differs(&mx, hist, map, i);
            if differs {
                interesting = true;
                let _found = scan_range_collect(hist, map, i, i + 16, &mut novelties);
            } else {
                proof {
                    lemma_novel_prefix_skip(hist@, map@, i as int, i as int + 16);
                }
            }
            proof {
                if differs {
                    let j = choose|j: int| i <= j < i + 16 && map@[j] > hist@[j];
                    assert(0 <= j < i + 16 && map@[j] > hist@[j]);
                } else {
                    if interesting {
                        let j = choose|j: int| 0 <= j < i && map@[j] > hist@[j];
                        assert(0 <= j < i + 16 && map@[j] > hist@[j]);
                    }
                    assert forall|j: int|
                        0 <= j < i + 16 && (#[trigger] map@[j]) > hist@[j] implies j < i by {}
                }
            }
            i = i + 16;
        }
        let found = scan_range_collect(hist, map, i, size, &mut novelties);
        if found {
            interesting = true;
        }
        proof {
            if found {
                let j = choose|j: int| i <= j < size && map@[j] > hist@[j];
                assert(0 <= j < size && map@[j] > hist@[j]);
            } else if interesting {
                let j = choose|j: int| 0 <= j < i && map@[j] > hist@[j];
                assert(0 <= j < size && map@[j] > hist@[j]);
            } else {
                assert forall|j: int|
                    0 <= j < size && (#[trigger] map@[j]) > hist@[j] implies j < i by {}
            }
        }
    } else {
        let mut i: usize = 0;
        while size - i >= 16
            invariant_except_break
                i <= size,
                size == map@.len(),
                hist@.len() == map@.len(),
                !interesting,
                forall|j: int| 0 <= j < i ==> !((#[trigger] map@[j]) > hist@[j]),
            ensures
                i <= size,
                interesting ==> is_interesting(hist@, map@),
                !interesting ==> (size - i < 16 && forall|j: int|
                    0 <= j < i ==> !((#[trigger] map@[j]) > hist@[j])),
            decreases size - i,
        {
            let hchunk = copy_chunk(hist, i, 16);
            let mchunk = copy_chunk(map, i, 16);
            let mx = lane_max(&mchunk, &hchunk);
            proof {
                assert forall|k: int| 0 <= k < 16 implies #[trigger] mx@[k] == (if map@[i + k]
                    > hist@[i + k] {
                    map@[i + k]
                } else {
                    hist@[i + k]
                }) by {
                    assert(mchunk@[k] == map@[i + k]);
                    assert(hchunk@[k] == hist@[i + k]);
                }
            }
            let differs = max_differs(&mx, hist, map, i);
            if differs {
                interesting = true;
                proof {
                    let j = choose|j: int| i <= j < i + 16 && map@[j] > hist@[j];
                    assert(0 <= j < map@.len() && map@[j] > hist@[j]);
                }
                break ;
            }
            proof {
                assert forall|j: int|
                    i <= j < i + 16 implies !((#[trigger] map@[j]) > hist@[j]) by {}
            }
            i = i + 16;
        }
        if !interesting {
            let found = any_novel_in_range(hist, map, i, size);
            if found {
                interesting = true;
                proof {
                    let j = choose|j: int| i <= j < size && map@[j] > hist@[j];
                    assert(0 <= j < size && map@[j] > hist@[j]);
                }
            } else {
                proof {
                    assert forall|j: int|
                        0 <= j < size implies !((#[trigger] map@[j]) > hist@[j]) by {}
                }
            }
        }
    }
    (interesting, novelties)
}

/// Compares trace and history in 16-byte chunks through the 16-lane
/// vector maximum: a chunk whose maximum with history differs from history
/// holds at least one improving position, which a scalar scan of exactly
/// that chunk then enumerates; tail bytes after the last whole chunk are
/// scanned with the per-byte rule. Reports exactly what `detect_novelty`
/// reports.
pub fn afl_stable_wide_128(hist: &Vec<u8>, map: &Vec<u8>, collect_positions: bool) -> (r: (
    bool,
    Vec<usize>,
))
    requires
        hist@.len() == map@.len(),
    ensures
        r.0 == is_interesting(hist@, map@),
        collect_positions ==> r.1@ == novel_positions(hist@, map@),
        !collect_positions ==> r.1@.len() == 0,
{
    let mut novelties: Vec<usize> = Vec::new();
    let mut interesting = false;
    let size = map.len();
    if collect_positions {
        let mut i: usize = 0;
        while size - i >= 16
            invariant
                i <= size,
                size == map@.len(),
                hist@.len() == map@.len(),
                novelties@ == novel_prefix(hist@, map@, i as int),
                interesting == exists|j: int| 0 <= j < i && map@[j] > hist@[j],
            decreases size - i,
        {
            let hchunk = copy_chunk(hist, i, 16);
            let mchunk = copy_chunk(map, i, 16);
            let mx = u8x16_max(&mchunk, &hchunk);
            proof {
                assert forall|k: int| 0 <= k < 16 implies #[trigger] mx@[k] == (if map@[i + k]
                    > hist@[i + k] {
                    map@[i + k]
                } else {
                    hist@[i + k]
                }) by {
                    assert(mchunk@[k] == map@[i + k]);
                    assert(hchunk@[k] == hist@[i + k]);
                }
            }
            let differs = max_differs(&mx, hist, map, i);
            if differs {
                interesting = true;
                let _found = scan_range_collect(hist, map, i, i + 16, &mut novelties);
            } else {
                proof {
                    lemma_novel_prefix_skip(hist@, map@, i as int, i as int + 16);
                }
            }
            proof {
                if differs {
                    let j = choose|j: int| i <= j < i + 16 && map@[j] > hist@[j];
                    assert(0 <= j < i + 16 && map@[j] > hist@[j]);
                } else {
                    if interesting {
                        let j = choose|j: int| 0 <= j < i && map@[j] > hist@[j];
                        assert(0 <= j < i + 16 && map@[j] > hist@[j]);
                    }
                    assert forall|j: int|
                        0 <= j < i + 16 && (#[trigger] map@[j]) > hist@[j] implies j < i by {}
                }
            }
            i = i + 16;
        }
        let found = scan_range_collect(hist, map, i, size, &mut novelties);
        if found {
            interesting = true;
        }
        proof {
            if found {
                let j = choose|j: int| i <= j < size && map@[j] > hist@[j];
                assert(0 <= j < size && map@[j] > hist@[j]);
            } else if interesting {
                let j = choose|j: int| 0 <= j < i && map@[j] > hist@[j];
                assert(0 <= j < size && map@[j] > hist@[j]);
            } else {
                assert forall|j: int|
                    0 <= j < size && (#[trigger] map@[j]) > hist@[j] implies j < i by {}
            }
        }
    } else {
        let mut i: usize = 0;
        while size - i >= 16
            invariant_except_break
                i <= size,
                size == map@.len(),
                hist@.len() == map@.len(),
                !interesting,
                forall|j: int| 0 <= j < i ==> !((#[trigger] map@[j]) > hist@[j]),
            ensures
                i <= size,
                interesting ==> is_interesting(hist@, map@),
                !interesting ==> (size - i < 16 && forall|j: int|
                    0 <= j < i ==> !((#[trigger] map@[j]) > hist@[j])),
            decreases size - i,
        {
            let hchunk = copy_chunk(hist, i, 16);
            let mchunk = copy_chunk(map, i, 16);
            let mx = u8x16_max(&mchunk, &hchunk);
            proof {
                assert forall|k: int| 0 <= k < 16 implies #[trigger] mx@[k] == (if map@[i + k]
                    > hist@[i + k] {
                    map@[i + k]
                } else {
                    hist@[i + k]
                }) by {
                    assert(mchunk@[k] == map@[i + k]);
                    assert(hchunk@[k] == hist@[i + k]);
                }
            }
            let differs = max_differs(&mx, hist, map, i);
            if differs {
                interesting = true;
                proof {
                    let j = choose|j: int| i <= j < i + 16 && map@[j] > hist@[j];
                    assert(0 <= j < map@.len() && map@[j] > hist@[j]);
                }
                break ;
            }
            proof {
                assert forall|j: int|
                    i <= j < i + 16 implies !((#[trigger] map@[j]) > hist@[j]) by {}
            }
            i = i + 16;
        }
        if !interesting {
            let found = any_novel_in_range(hist, map, i, size);
            if found {
                interesting = true;
                proof {
                    let j = choose|j: int| i <= j < size && map@[j] > hist@[j];
                    assert(0 <= j < size && map@[j] > hist@[j]);
                }
            } else {
                proof {
                    assert forall|j: int|
                        0 <= j < size implies !((#[trigger] map@[j]) > hist@[j]) by {}
                }
            }
        }
    }
    (interesting, novelties)
}


/// Compares trace and history in 32-byte chunks through the 32-lane
/// vector maximum, with the same chunk rule as the 16-byte variant and a
/// per-byte tail. Reports exactly what `detect_novelty` reports.
pub fn afl_stable_wide_256(hist: &Vec<u8>, map: &Vec<u8>, collect_positions: bool) -> (r: (
    bool,
    Vec<usize>,
))
    requires
        hist@.len() == map@.len(),
    ensures
        r.0 == is_interesting(hist@, map@),
        collect_positions ==> r.1@ == novel_positions(hist@, map@),
        !collect_positions ==> r.1@.len() == 0,
{
    let mut novelties: Vec<usize> = Vec::new();
    let mut interesting = false;
    let size = map.len();
    if collect_positions {
        let mut i: usize = 0;
        while size - i >= 32
            invariant
                i <= size,
                size == map@.len(),
                hist@.len() == map@.len(),
                novelties@ == novel_prefix(hist@, map@, i as int),
                interesting == exists|j: int| 0 <= j < i && map@[j] > hist@[j],
            decreases size - i,
        {
            let hchunk = copy_chunk(hist, i, 32);
            let mchunk = copy_chunk(map, i, 32);
            let mx = u8x32_max(&mchunk, &hchunk);
            proof {
                assert forall|k: int| 0 <= k < 32 implies #[trigger] mx@[k] == (if map@[i + k]
                    > hist@[i + k] {
                    map@[i + k]
                } else {
                    hist@[i + k]
                }) by {
                    assert(mchunk@[k] == map@[i + k]);
                    assert(hchunk@[k] == hist@[i + k]);
                }
            }
            let differs = max_differs(&mx, hist, map, i);
            if differs {
                interesting = true;
                let _found = scan_range_collect(hist, map, i, i + 32, &mut novelties);
            } else {
                proof {
                    lemma_novel_prefix_skip(hist@, map@, i as int, i as int + 32);
                }
            }
            proof {
                if differs {
                    let j = choose|j: int| i <= j < i + 32 && map@[j] > hist@[j];
                    assert(0 <= j < i + 32 && map@[j] > hist@[j]);
                } else {
                    if interesting {
                        let j = choose|j: int| 0 <= j < i && map@[j] > hist@[j];
                        assert(0 <= j < i + 32 && map@[j] > hist@[j]);
                    }
                    assert forall|j: int|
                        0 <= j < i + 32 && (#[trigger] map@[j]) > hist@[j] implies j < i by {}
                }
            }
            i = i + 32;
        }
        let found = scan_range_collect(hist, map, i, size, &mut novelties);
        if found {
            interesting = true;
        }
        proof {
            if found {
                let j = choose|j: int| i <= j < size && map@[j] > hist@[j];
                assert(0 <= j < size && map@[j] > hist@[j]);
            } else if interesting {
                let j = choose|j: int| 0 <= j < i && map@[j] > hist@[j];
                assert(0 <= j < size && map@[j] > hist@[j]);
            } else {
                assert forall|j: int|
                    0 <= j < size && (#[trigger] map@[j]) > hist@[j] implies j < i by {}
            }
        }
    } else {
        let mut i: usize = 0;
        while size - i >= 32
            invariant_except_break
                i <= size,
                size == map@.len(),
                hist@.len() == map@.len(),
                !interesting,
                forall|j: int| 0 <= j < i ==> !((#[trigger] map@[j]) > hist@[j]),
            ensures
                i <= size,
                interesting ==> is_interesting(hist@, map@),
                !interesting ==> (size - i < 32 && forall|j: int|
                    0 <= j < i ==> !((#[trigger] map@[j]) > hist@[j])),
            decreases size - i,
        {
            let hchunk = copy_chunk(hist, i, 32);
            let mchunk = copy_chunk(map, i, 32);
            let mx = u8x32_max(&mchunk, &hchunk);
            proof {
                assert forall|k: int| 0 <= k < 32 implies #[trigger] mx@[k] == (if map@[i + k]
                    > hist@[i + k] {
                    map@[i + k]
                } else {
                    hist@[i + k]
                }) by {
                    assert(mchunk@[k] == map@[i + k]);
                    assert(hchunk@[k] == hist@[i + k]);
                }
            }
            let differs = max_differs(&mx, hist, map, i);
            if differs {
                interesting = true;
                proof {
                    let j = choose|j: int| i <= j < i + 32 && map@[j] > hist@[j];
                    assert(0 <= j < map@.len() && map@[j] > hist@[j]);
                }
                break ;
            }
            proof {
                assert forall|j: int|
                    i <= j < i + 32 implies !((#[trigger] map@[j]) > hist@[j]) by {}
            }
            i = i + 32;
        }
        if !interesting {
            let found = any_novel_in_range(hist, map, i, size);
            if found {
                interesting = true;
                proof {
                    let j = choose|j: int| i <= j < size && map@[j] > hist@[j];
                    assert(0 <= j < size && map@[j] > hist@[j]);
                }
            } else {
                proof {
                    assert forall|j: int|
                        0 <= j < size implies !((#[trigger] map@[j]) > hist@[j]) by {}
                }
            }
        }
    }
    (interesting, novelties)
}

/// Two reports produced for the same history and trace under the canonical
/// contract are identical: every detector variant returns the one flag and
/// the one position list the scalar reference defines.
pub proof fn lemma_novelty_agreement(
    h: Seq<u8>,
    m: Seq<u8>,
    flag_a: bool,
    positions_a: Seq<usize>,
    flag_b: bool,
    positions_b: Seq<usize>,
)
    requires
        h.len() == m.len(),
        flag_a == is_interesting(h, m),
        flag_b == is_interesting(h, m),
        positions_a == novel_positions(h, m),
        positions_b == novel_positions(h, m),
    ensures
        flag_a == flag_b,
        positions_a == positions_b,
{
}

} // verus!
