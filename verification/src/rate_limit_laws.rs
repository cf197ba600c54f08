//! The promise of the rate limiter over a whole run of hits: on a clock
//! that does not go back, no key is allowed more than the limit of hits in
//! any stretch of time as long as the window.

use vstd::prelude::*;
use crate::rate_limit::{elapsed, hits_of, in_window, recent, spec_hit, spec_record, spec_sweep};

verus! {

/// The table after the first `n` hits of `hits` (key and time each),
/// starting from `m0`.
pub open spec fn table_after(
    m0: Map<Seq<char>, Seq<u128>>,
    hits: Seq<(Seq<char>, u128)>,
    window: u128,
    max: nat,
    n: int,
) -> Map<Seq<char>, Seq<u128>>
    decreases n,
{
    if n <= 0 {
        m0
    } else {
        spec_hit(table_after(m0, hits, window, max, n - 1), hits[n - 1].0, hits[n - 1].1, window, max).1
    }
}

/// Whether the `j`-th hit of the run is allowed.
pub open spec fn allowed_at(
    m0: Map<Seq<char>, Seq<u128>>,
    hits: Seq<(Seq<char>, u128)>,
    window: u128,
    max: nat,
    j: int,
) -> bool {
    spec_hit(table_after(m0, hits, window, max, j), hits[j].0, hits[j].1, window, max).0
}

/// How many of the first `n` hits are allowed hits of `key` at a time
/// that `inside` accepts.
pub open spec fn allowed_count(
    m0: Map<Seq<char>, Seq<u128>>,
    hits: Seq<(Seq<char>, u128)>,
    window: u128,
    max: nat,
    key: Seq<char>,
    inside: spec_fn(u128) -> bool,
    n: int,
) -> nat
    decreases n,
{
    if n <= 0 {
        0
    } else {
        allowed_count(m0, hits, window, max, key, inside, n - 1) + if hits[n - 1].0 == key && allowed_at(
            m0,
            hits,
            window,
            max,
            n - 1,
        ) && inside(hits[n - 1].1) {
            1nat
        } else {
            0nat
        }
    }
}

/// The times of the run never go back.
pub open spec fn times_ordered(hits: Seq<(Seq<char>, u128)>) -> bool {
    forall|i: int, j: int| 0 <= i <= j < hits.len() ==> #[trigger] hits[i].1 <= #[trigger] hits[j].1
}

/// Times in `[from, from + window)`.
pub open spec fn in_stretch(from: int, window: u128) -> spec_fn(u128) -> bool {
    |t: u128| from <= t < from + window
}

proof fn lemma_count_mono(
    m0: Map<Seq<char>, Seq<u128>>,
    hits: Seq<(Seq<char>, u128)>,
    window: u128,
    max: nat,
    key: Seq<char>,
    p: spec_fn(u128) -> bool,
    q: spec_fn(u128) -> bool,
    n: int,
)
    requires
        n <= hits.len(),
        forall|j: int| 0 <= j < n && #[trigger] p(hits[j].1) ==> q(hits[j].1),
    ensures
        allowed_count(m0, hits, window, max, key, p, n) <= allowed_count(m0, hits, window, max, key, q, n),
    decreases n,
{
    if n > 0 {
        lemma_count_mono(m0, hits, window, max, key, p, q, n - 1);
    }
}

proof fn lemma_recent_twice(h: Seq<u128>, t0: u128, t: u128, window: u128)
    requires
        t0 <= t,
    ensures
        recent(recent(h, t0, window), t, window) == recent(h, t, window),
    decreases h.len(),
{
    reveal_with_fuel(Seq::filter, 2);
    if h.len() > 0 {
        let init = h.drop_last();
        let x = h.last();
        lemma_recent_twice(init, t0, t, window);
        assert(elapsed(t0, x) <= elapsed(t, x));
        let p0 = in_window(t0, window);
        let p1 = in_window(t, window);
        assert(p1(x) ==> p0(x));
        let r0 = recent(init, t0, window);
        if p0(x) {
            assert(recent(h, t0, window) == r0.push(x));
            assert(r0.push(x).drop_last() =~= r0);
            assert(r0.push(x).last() == x);
        } else {
            assert(recent(h, t0, window) == r0);
        }
    }
}

proof fn lemma_recent_push(h: Seq<u128>, x: u128, t: u128, window: u128)
    ensures
        recent(h.push(x), t, window).len() == recent(h, t, window).len() + if in_window(t, window)(x) {
            1int
        } else {
            0int
        },
{
    let hx = h.push(x);
    assert(hx.drop_last() =~= h);
    assert(hx.last() == x);
    assert(hx.len() > 0);
    let p = in_window(t, window);
    reveal_with_fuel(Seq::filter, 2);
    assert(hx.filter(p) == if p(hx.last()) {
        hx.drop_last().filter(p).push(hx.last())
    } else {
        hx.drop_last().filter(p)
    });
}

proof fn lemma_sweep_keeps_or_drops(m: Map<Seq<char>, Seq<u128>>, now: u128, window: u128, k: Seq<char>)
    ensures
        hits_of(spec_sweep(m, now, window), k) == hits_of(m, k) || (recent(hits_of(m, k), now, window).len() == 0
            && hits_of(spec_sweep(m, now, window), k).len() == 0),
{
}

proof fn lemma_run_invariant(
    hits: Seq<(Seq<char>, u128)>,
    window: u128,
    max: nat,
    n: int,
)
    requires
        times_ordered(hits),
        0 <= n <= hits.len(),
    ensures
        forall|k: Seq<char>, t: u128|
            #![trigger allowed_count(Map::empty(), hits, window, max, k, in_window(t, window), n)]
            (n > 0 ==> hits[n - 1].1 <= t) ==> allowed_count(Map::empty(), hits, window, max, k, in_window(t, window), n)
                <= recent(hits_of(table_after(Map::empty(), hits, window, max, n), k), t, window).len(),
    decreases n,
{
    let m0 = Map::<Seq<char>, Seq<u128>>::empty();
    if n == 0 {
        assert forall|k: Seq<char>, t: u128|
            #![trigger allowed_count(m0, hits, window, max, k, in_window(t, window), n)]
            (n > 0 ==> hits[n - 1].1 <= t) implies allowed_count(m0, hits, window, max, k, in_window(t, window), n)
                <= recent(hits_of(table_after(m0, hits, window, max, n), k), t, window).len() by {
        }
    } else {
        lemma_run_invariant(hits, window, max, n - 1);
        let m = table_after(m0, hits, window, max, n - 1);
        let key = hits[n - 1].0;
        let tn = hits[n - 1].1;
        let (ok, m1) = spec_record(m, key, tn, window, max);
        let m2 = table_after(m0, hits, window, max, n);
        assert(m2 == spec_hit(m, key, tn, window, max).1);
        assert(ok == allowed_at(m0, hits, window, max, n - 1));
        // before the sweep
        assert forall|k: Seq<char>, t: u128| tn <= t implies #[trigger] allowed_count(m0, hits, window, max, k, in_window(t, window), n)
            <= recent(hits_of(m1, k), t, window).len() by {
            if n > 1 {
                assert(hits[n - 2].1 <= hits[n - 1].1);
            }
            assert(allowed_count(m0, hits, window, max, k, in_window(t, window), n - 1)
                <= recent(hits_of(m, k), t, window).len());
            if k == key {
                lemma_recent_twice(hits_of(m, k), tn, t, window);
                if ok {
                    lemma_recent_push(recent(hits_of(m, k), tn, window), tn, t, window);
                }
            }
        }
        assert forall|k: Seq<char>, t: u128|
            #![trigger allowed_count(m0, hits, window, max, k, in_window(t, window), n)]
            (n > 0 ==> hits[n - 1].1 <= t) implies allowed_count(m0, hits, window, max, k, in_window(t, window), n)
                <= recent(hits_of(m2, k), t, window).len() by {
            assert(allowed_count(m0, hits, window, max, k, in_window(t, window), n)
                <= recent(hits_of(m1, k), t, window).len());
            if ok {
                assert(m2 == spec_sweep(m1, tn, window));
                lemma_sweep_keeps_or_drops(m1, tn, window, k);
                if hits_of(m2, k) != hits_of(m1, k) {
                    assert(allowed_count(m0, hits, window, max, k, in_window(tn, window), n)
                        <= recent(hits_of(m1, k), tn, window).len());
                    assert forall|j: int| 0 <= j < n && #[trigger] in_window(t, window)(hits[j].1) implies in_window(
                        tn,
                        window,
                    )(hits[j].1) by {
                        assert(hits[j].1 <= hits[n - 1].1);
                    }
                    lemma_count_mono(m0, hits, window, max, k, in_window(t, window), in_window(tn, window), n);
                    hits_of(m2, k).lemma_filter_len(in_window(t, window));
                }
            } else {
                assert(m2 == m1);
            }
        }
    }
}

proof fn lemma_allowed_hit_bound(hits: Seq<(Seq<char>, u128)>, window: u128, max: nat, j: int)
    requires
        times_ordered(hits),
        0 <= j < hits.len(),
        allowed_at(Map::empty(), hits, window, max, j),
    ensures
        allowed_count(Map::empty(), hits, window, max, hits[j].0, in_window(hits[j].1, window), j + 1) <= max,
{
    let m0 = Map::<Seq<char>, Seq<u128>>::empty();
    let key = hits[j].0;
    let t = hits[j].1;
    lemma_run_invariant(hits, window, max, j);
    if j > 0 {
        assert(hits[j - 1].1 <= hits[j].1);
    }
    assert(allowed_count(m0, hits, window, max, key, in_window(t, window), j)
        <= recent(hits_of(table_after(m0, hits, window, max, j), key), t, window).len());
}

proof fn lemma_stretch_bound(hits: Seq<(Seq<char>, u128)>, window: u128, max: nat, key: Seq<char>, from: int, n: int)
    requires
        times_ordered(hits),
        0 <= n <= hits.len(),
    ensures
        allowed_count(Map::empty(), hits, window, max, key, in_stretch(from, window), n) <= max,
    decreases n,
{
    let m0 = Map::<Seq<char>, Seq<u128>>::empty();
    if n > 0 {
        lemma_stretch_bound(hits, window, max, key, from, n - 1);
        let t = hits[n - 1].1;
        if hits[n - 1].0 == key && allowed_at(m0, hits, window, max, n - 1) && in_stretch(from, window)(t) {
            assert forall|j: int| 0 <= j < n && #[trigger] in_stretch(from, window)(hits[j].1) implies in_window(
                t,
                window,
            )(hits[j].1) by {
                assert(hits[j].1 <= hits[n - 1].1);
            }
            lemma_count_mono(m0, hits, window, max, key, in_stretch(from, window), in_window(t, window), n);
            lemma_allowed_hit_bound(hits, window, max, n - 1);
        }
    }
}

/// The limit holds over every stretch of time as long as the window: in a
/// run of hits on a fresh limiter (`from_nanos` gives the empty table and
/// the window asked for) whose times never go back (as those of `hit`
/// never do), at most `max` hits of one key at times in
/// `[from, from + window)` are allowed.
pub proof fn law_limit_holds_in_every_window(
    hits: Seq<(Seq<char>, u128)>,
    window: u128,
    max: nat,
    key: Seq<char>,
    from: int,
)
    requires
        times_ordered(hits),
    ensures
        allowed_count(Map::empty(), hits, window, max, key, in_stretch(from, window), hits.len() as int) <= max,
{
    lemma_stretch_bound(hits, window, max, key, from, hits.len() as int);
}

} // verus!
