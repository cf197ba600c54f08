//! A sliding-window rate limiter: per key, the times of the hits that are
//! still inside the window, and a limit on how many there may be.
//!
//! Times are nanoseconds since the limiter was made, read from the
//! monotonic clock; the functions whose names end in `_at` take the time as
//! an argument, the others read the clock.

use vstd::prelude::*;
use std::time::{Duration, Instant};
use crate::chars::str_eq;

verus! {

/// `std::time::Instant`, an instant of the monotonic clock, carried opaque.
#[verifier::external_type_specification]
#[verifier::external_body]
pub struct ExInstant(Instant);

/// `Instant::now`: a reading of the monotonic clock. Nothing is stated of
/// it: it depends on the machine and the moment.
#[verifier::external_body]
fn clock_now() -> Instant {
    Instant::now()
}

/// `Instant::elapsed`: the time since `origin`. Nothing is stated of it: it
/// depends on the clock.
#[verifier::external_body]
fn time_since(origin: &Instant) -> Duration {
    origin.elapsed()
}

/// `Duration::as_nanos`: the whole nanoseconds of a duration. A `Duration`
/// is opaque here, so nothing is stated of the result.
#[verifier::external_body]
fn whole_nanos(d: &Duration) -> u128 {
    d.as_nanos()
}

/// Nanoseconds from `t` to `now`; zero when `t` is later (the duration
/// between two instants saturates at zero).
pub open spec fn elapsed(now: u128, t: u128) -> int {
    if now >= t {
        now - t
    } else {
        0
    }
}

/// Whether a hit at `t` is still inside the window at `now`.
pub open spec fn in_window(now: u128, window: u128) -> spec_fn(u128) -> bool {
    |t: u128| elapsed(now, t) < window
}

/// The hits of `hits` that are still inside the window, in order.
pub open spec fn recent(hits: Seq<u128>, now: u128, window: u128) -> Seq<u128> {
    hits.filter(in_window(now, window))
}

/// The recorded hits of `key` (none when it has no entry).
pub open spec fn hits_of(m: Map<Seq<char>, Seq<u128>>, key: Seq<char>) -> Seq<u128> {
    if m.contains_key(key) {
        m[key]
    } else {
        Seq::empty()
    }
}

/// A hit of `key` at `now`: whether it is allowed (fewer than `max` recent
/// hits), and the table after it: the key keeps its recent hits, plus this
/// one when it is allowed.
pub open spec fn spec_record(
    m: Map<Seq<char>, Seq<u128>>,
    key: Seq<char>,
    now: u128,
    window: u128,
    max: nat,
) -> (bool, Map<Seq<char>, Seq<u128>>) {
    let kept = recent(hits_of(m, key), now, window);
    if kept.len() >= max {
        (false, m.insert(key, kept))
    } else {
        (true, m.insert(key, kept.push(now)))
    }
}

/// The number of keys above which a sweep drops idle keys.
pub open spec fn sweep_threshold() -> nat {
    10000
}

/// When more than `sweep_threshold()` keys are tracked, only the keys with
/// a hit inside the window stay; otherwise the table is unchanged.
pub open spec fn spec_sweep(m: Map<Seq<char>, Seq<u128>>, now: u128, window: u128) -> Map<Seq<char>, Seq<u128>> {
    if m.dom().len() > sweep_threshold() {
        Map::new(
            |k: Seq<char>| m.contains_key(k) && recent(m[k], now, window).len() > 0,
            |k: Seq<char>| m[k],
        )
    } else {
        m
    }
}

/// A hit of `key` at `now`, followed by a sweep when it is allowed.
pub open spec fn spec_hit(
    m: Map<Seq<char>, Seq<u128>>,
    key: Seq<char>,
    now: u128,
    window: u128,
    max: nat,
) -> (bool, Map<Seq<char>, Seq<u128>>) {
    let (ok, m1) = spec_record(m, key, now, window, max);
    if ok {
        (true, spec_sweep(m1, now, window))
    } else {
        (false, m1)
    }
}

/// Whether a hit of `key` at `now` would be allowed.
pub open spec fn spec_is_allowed(m: Map<Seq<char>, Seq<u128>>, key: Seq<char>, now: u128, window: u128, max: nat) -> bool {
    if m.contains_key(key) {
        recent(m[key], now, window).len() < max
    } else {
        true
    }
}

/// The entries of the table as keys and hit times.
pub open spec fn entries_view(v: Seq<(String, Vec<u128>)>) -> Seq<(Seq<char>, Seq<u128>)> {
    v.map_values(|e: (String, Vec<u128>)| (e.0@, e.1@))
}

/// No key has two entries.
pub open spec fn keys_distinct(s: Seq<(Seq<char>, Seq<u128>)>) -> bool {
    forall|i: int, j: int| 0 <= i < s.len() && 0 <= j < s.len() && i != j ==> #[trigger] s[i].0 != #[trigger] s[j].0
}

/// The table the entries stand for.
pub open spec fn table_of(s: Seq<(Seq<char>, Seq<u128>)>) -> Map<Seq<char>, Seq<u128>>
    decreases s.len(),
{
    if s.len() == 0 {
        Map::empty()
    } else {
        table_of(s.drop_last()).insert(s.last().0, s.last().1)
    }
}

proof fn lemma_table_of(s: Seq<(Seq<char>, Seq<u128>)>)
    requires
        keys_distinct(s),
    ensures
        forall|k: Seq<char>| #[trigger] table_of(s).contains_key(k) <==> exists|i: int| 0 <= i < s.len() && s[i].0 == k,
        forall|i: int| 0 <= i < s.len() ==> #[trigger] table_of(s)[s[i].0] == s[i].1,
        table_of(s).dom().finite(),
        table_of(s).dom().len() == s.len(),
    decreases s.len(),
{
    if s.len() > 0 {
        let init = s.drop_last();
        let last = s.len() - 1;
        assert forall|i: int, j: int| 0 <= i < init.len() && 0 <= j < init.len() && i != j implies #[trigger] init[i].0
            != #[trigger] init[j].0 by {
            assert(s[i].0 != s[j].0);
        }
        lemma_table_of(init);
        assert forall|k: Seq<char>| #[trigger] table_of(s).contains_key(k) <==> exists|i: int|
            0 <= i < s.len() && s[i].0 == k by {
            if table_of(s).contains_key(k) && k != s[last].0 {
                let i = choose|i: int| 0 <= i < init.len() && init[i].0 == k;
                assert(s[i].0 == k);
            }
            if exists|i: int| 0 <= i < s.len() && s[i].0 == k {
                let i = choose|i: int| 0 <= i < s.len() && s[i].0 == k;
                if i < last {
                    assert(init[i].0 == k);
                }
            }
        }
        assert forall|i: int| 0 <= i < s.len() implies #[trigger] table_of(s)[s[i].0] == s[i].1 by {
            if i < last {
                assert(s[i].0 != s[last].0);
                assert(init[i] == s[i]);
            }
        }
        if table_of(init).contains_key(s[last].0) {
            let i = choose|i: int| 0 <= i < init.len() && init[i].0 == s[last].0;
            assert(s[i].0 == s[last].0);
        }
    }
}

/// A sliding-window rate limiter.
pub struct RateLimiter {
    window: u128,
    max: usize,
    origin: Instant,
    latest: u128,
    times: Vec<(String, Vec<u128>)>,
}

impl RateLimiter {
    #[verifier::type_invariant]
    spec fn keys_unique(self) -> bool {
        keys_distinct(entries_view(self.times@))
    }

    /// The recorded hit times per key.
    pub closed spec fn table(&self) -> Map<Seq<char>, Seq<u128>> {
        table_of(entries_view(self.times@))
    }

    /// The window, in nanoseconds.
    pub closed spec fn window_nanos(&self) -> u128 {
        self.window
    }

    /// How many hits a key may have inside the window.
    pub closed spec fn limit(&self) -> nat {
        self.max as nat
    }

    /// The time of the latest hit read from the clock (zero before any).
    pub closed spec fn latest_reading(&self) -> u128 {
        self.latest
    }

    /// A limiter allowing `max` hits per key within `window_nanos`
    /// nanoseconds, tracking no key yet; its clock starts now.
    pub fn from_nanos(window_nanos: u128, max: usize) -> (r: Self)
        ensures
            r.table() == Map::<Seq<char>, Seq<u128>>::empty(),
            r.window_nanos() == window_nanos,
            r.limit() == max,
            r.latest_reading() == 0,
    {
        let r = RateLimiter { window: window_nanos, max, origin: clock_now(), latest: 0, times: Vec::new() };
        proof {
            assert(entries_view(r.times@) =~= Seq::empty());
        }
        r
    }

    /// A limiter allowing `max` hits per key within `window`, tracking no
    /// key yet. (The window is read as whole nanoseconds; `from_nanos`
    /// takes them as a number.)
    pub fn new(window: Duration, max: usize) -> (r: Self)
        ensures
            r.table() == Map::<Seq<char>, Seq<u128>>::empty(),
            r.limit() == max,
            r.latest_reading() == 0,
    {
        let w = whole_nanos(&window);
        Self::from_nanos(w, max)
    }

    /// A reading of the limiter's clock: nanoseconds since it was made.
    pub fn clock(&self) -> u128 {
        let d = time_since(&self.origin);
        whole_nanos(&d)
    }

    /// A hit of `key` at time `now`: allowed when the key has fewer than
    /// the limit of hits inside the window, and then recorded.
    pub fn hit_at(&mut self, key: &str, now: u128) -> (r: bool)
        ensures
            (r, final(self).table()) == spec_hit(old(self).table(), key@, now, old(self).window_nanos(), old(self).limit()),
            final(self).window_nanos() == old(self).window_nanos(),
            final(self).limit() == old(self).limit(),
            final(self).latest_reading() == old(self).latest_reading(),
    {
        let ok = self.record(key, now);
        if ok {
            self.sweep(now);
        }
        ok
    }

    /// A reading of the limiter's clock for a hit, recorded as the latest.
    /// The clock is monotonic (`Instant`), so a reading is never below the
    /// latest one; the limiter holds it at the latest anyway, which makes
    /// the order of the hits' times proved rather than trusted.
    pub fn next_reading(&mut self) -> (now: u128)
        ensures
            old(self).latest_reading() <= now,
            final(self).latest_reading() == now,
            final(self).table() == old(self).table(),
            final(self).window_nanos() == old(self).window_nanos(),
            final(self).limit() == old(self).limit(),
    {
        let reading = self.clock();
        let now = if reading < self.latest { self.latest } else { reading };
        proof {
            use_type_invariant(&*self);
        }
        self.latest = now;
        now
    }

    /// A hit of `key` now, at the next reading of the limiter's clock.
    pub fn hit(&mut self, key: &str) -> (r: bool)
        ensures
            old(self).latest_reading() <= final(self).latest_reading(),
            (r, final(self).table()) == spec_hit(
                old(self).table(),
                key@,
                final(self).latest_reading(),
                old(self).window_nanos(),
                old(self).limit(),
            ),
            final(self).window_nanos() == old(self).window_nanos(),
            final(self).limit() == old(self).limit(),
    {
        let now = self.next_reading();
        self.hit_at(key, now)
    }

    /// Whether a hit of `key` at time `now` would be allowed; nothing is
    /// recorded.
    pub fn is_allowed_at(&self, key: &str, now: u128) -> (r: bool)
        ensures
            r == spec_is_allowed(self.table(), key@, now, self.window_nanos(), self.limit()),
    {
        proof {
            use_type_invariant(self);
            lemma_table_of(entries_view(self.times@));
        }
        match find_key(&self.times, key) {
            Some(i) => {
                let kept = recent_hits(&self.times[i].1, now, self.window);
                proof {
                    assert(entries_view(self.times@)[i as int].0 == key@);
                }
                kept.len() < self.max
            },
            None => true,
        }
    }

    /// Whether a hit of `key` now would be allowed.
    pub fn is_allowed(&self, key: &str) -> (r: bool)
        ensures
            exists|now: u128| r == spec_is_allowed(self.table(), key@, now, self.window_nanos(), self.limit()),
    {
        let now = self.clock();
        self.is_allowed_at(key, now)
    }

    /// Forgets the hits of `key`.
    pub fn reset(&mut self, key: &str)
        ensures
            final(self).table() == old(self).table().remove(key@),
            final(self).window_nanos() == old(self).window_nanos(),
            final(self).limit() == old(self).limit(),
            final(self).latest_reading() == old(self).latest_reading(),
    {
        proof {
            use_type_invariant(&*self);
        }
        let mut times: Vec<(String, Vec<u128>)> = Vec::new();
        std::mem::swap(&mut times, &mut self.times);
        let ghost before = entries_view(times@);
        proof {
            lemma_table_of(before);
        }
        match find_key(&times, key) {
            Some(i) => {
                let _gone = times.remove(i);
                let ghost after = entries_view(times@);
                proof {
                    assert(after =~= before.remove(i as int));
                    lemma_distinct_remove(before, i as int);
                    lemma_table_of(after);
                    assert(table_of(after) =~= table_of(before).remove(key@)) by {
                        assert forall|k: Seq<char>| #[trigger] table_of(after).contains_key(k) <==> table_of(
                            before,
                        ).remove(key@).contains_key(k) by {
                            if table_of(before).contains_key(k) && k != key@ {
                                let j = choose|j: int| 0 <= j < before.len() && before[j].0 == k;
                                if j < i {
                                    assert(after[j] == before[j]);
                                } else {
                                    assert(after[j - 1] == before[j]);
                                }
                            }
                            if table_of(after).contains_key(k) {
                                let j = choose|j: int| 0 <= j < after.len() && after[j].0 == k;
                                if j < i {
                                    assert(after[j] == before[j]);
                                } else {
                                    assert(after[j] == before[j + 1]);
                                    assert(before[j + 1].0 != before[i as int].0);
                                }
                            }
                        }
                        assert forall|k: Seq<char>| #[trigger] table_of(after).contains_key(k) implies table_of(after)[k]
                            == table_of(before)[k] by {
                            let j = choose|j: int| 0 <= j < after.len() && after[j].0 == k;
                            if j < i {
                                assert(after[j] == before[j]);
                            } else {
                                assert(after[j] == before[j + 1]);
                            }
                        }
                    }
                }
            },
            None => {
                proof {
                    assert(table_of(before) =~= table_of(before).remove(key@));
                }
            },
        }
        self.times = times;
    }

    /// Records a hit of `key` at `now` when it is allowed; the key's hits
    /// outside the window are dropped either way.
    fn record(&mut self, key: &str, now: u128) -> (r: bool)
        ensures
            (r, final(self).table()) == spec_record(old(self).table(), key@, now, old(self).window_nanos(), old(self).limit()),
            final(self).window_nanos() == old(self).window_nanos(),
            final(self).limit() == old(self).limit(),
            final(self).latest_reading() == old(self).latest_reading(),
    {
        proof {
            use_type_invariant(&*self);
        }
        let mut times: Vec<(String, Vec<u128>)> = Vec::new();
        std::mem::swap(&mut times, &mut self.times);
        let ghost before = entries_view(times@);
        let ghost m = table_of(before);
        proof {
            lemma_table_of(before);
        }
        let ok;
        match find_key(&times, key) {
            Some(i) => {
                let (k, hits) = times.remove(i);
                let mut kept = recent_hits(&hits, now, self.window);
                ok = kept.len() < self.max;
                if ok {
                    kept.push(now);
                }
                let ghost nv = kept@;
                times.insert(i, (k, kept));
                let ghost after = entries_view(times@);
                proof {
                    assert(before[i as int].0 == key@);
                    assert(after =~= before.update(i as int, (key@, nv)));
                    lemma_distinct_update(before, i as int, nv);
                    lemma_table_of(after);
                    assert(table_of(after) =~= m.insert(key@, nv)) by {
                        assert forall|k2: Seq<char>| #[trigger] table_of(after).contains_key(k2) <==> m.insert(
                            key@,
                            nv,
                        ).contains_key(k2) by {
                            if m.contains_key(k2) {
                                let j = choose|j: int| 0 <= j < before.len() && before[j].0 == k2;
                                assert(after[j].0 == k2);
                            }
                            if table_of(after).contains_key(k2) {
                                let j = choose|j: int| 0 <= j < after.len() && after[j].0 == k2;
                                if j != i {
                                    assert(before[j].0 == k2);
                                }
                            }
                        }
                        assert forall|k2: Seq<char>| #[trigger] table_of(after).contains_key(k2) implies table_of(after)[k2]
                            == m.insert(key@, nv)[k2] by {
                            let j = choose|j: int| 0 <= j < after.len() && after[j].0 == k2;
                            if j != i {
                                assert(after[j] == before[j]);
                            }
                        }
                    }
                }
            },
            None => {
                let empty: Vec<u128> = Vec::new();
                let mut kept = recent_hits(&empty, now, self.window);
                ok = kept.len() < self.max;
                if ok {
                    kept.push(now);
                }
                let ghost nv = kept@;
                times.push((key.to_owned(), kept));
                let ghost after = entries_view(times@);
                proof {
                    assert(empty@ =~= hits_of(m, key@));
                    assert(after =~= before.push((key@, nv)));
                    assert(after.drop_last() =~= before);
                    assert forall|a: int, b: int| 0 <= a < after.len() && 0 <= b < after.len() && a != b implies #[trigger] after[a].0
                        != #[trigger] after[b].0 by {
                        if a < before.len() && b < before.len() {
                            assert(before[a].0 != before[b].0);
                        } else if a < before.len() {
                            assert(after[a] == before[a]);
                        } else {
                            assert(after[b] == before[b]);
                        }
                    }
                }
            },
        }
        self.times = times;
        ok
    }

    /// When more keys than the threshold are tracked, drops the keys
    /// without a hit inside the window at `now`.
    fn sweep(&mut self, now: u128)
        ensures
            final(self).table() == spec_sweep(old(self).table(), now, old(self).window_nanos()),
            final(self).window_nanos() == old(self).window_nanos(),
            final(self).limit() == old(self).limit(),
            final(self).latest_reading() == old(self).latest_reading(),
    {
        proof {
            use_type_invariant(&*self);
            lemma_table_of(entries_view(self.times@));
        }
        if self.times.len() <= 10000 {
            return;
        }
        let mut times: Vec<(String, Vec<u128>)> = Vec::new();
        std::mem::swap(&mut times, &mut self.times);
        let ghost before = entries_view(times@);
        let kept = keep_active(times, now, self.window);
        proof {
            lemma_table_of(before);
            lemma_swept_table(before, entries_view(kept@), now, self.window);
        }
        self.times = kept;
    }
}

/// `kept` holds exactly the entries of `s[from..]` with a hit inside the
/// window.
pub open spec fn active_kept(
    s: Seq<(Seq<char>, Seq<u128>)>,
    kept: Seq<(Seq<char>, Seq<u128>)>,
    now: u128,
    window: u128,
    from: int,
) -> bool {
    &&& forall|j: int| 0 <= j < kept.len() ==> s.subrange(from, s.len() as int).contains(#[trigger] kept[j])
        && recent(kept[j].1, now, window).len() > 0
    &&& forall|i: int| from <= i < s.len() && recent(s[i].1, now, window).len() > 0 ==> kept.contains(#[trigger] s[i])
}

proof fn lemma_swept_table(
    before: Seq<(Seq<char>, Seq<u128>)>,
    kv: Seq<(Seq<char>, Seq<u128>)>,
    now: u128,
    window: u128,
)
    requires
        keys_distinct(before),
        keys_distinct(kv),
        active_kept(before, kv, now, window, 0),
        before.len() > sweep_threshold(),
    ensures
        table_of(kv) == spec_sweep(table_of(before), now, window),
{
    let m = table_of(before);
    lemma_table_of(before);
    lemma_table_of(kv);
    assert(before.subrange(0, before.len() as int) =~= before);
    let sw = spec_sweep(m, now, window);
    assert forall|k: Seq<char>| #[trigger] table_of(kv).contains_key(k) implies sw.contains_key(k) && table_of(kv)[k]
        == sw[k] by {
        let j = choose|j: int| 0 <= j < kv.len() && kv[j].0 == k;
        assert(before.contains(kv[j]));
        let i = choose|i: int| 0 <= i < before.len() && before[i] == kv[j];
        assert(m[before[i].0] == before[i].1);
        assert(table_of(kv)[kv[j].0] == kv[j].1);
    }
    assert forall|k: Seq<char>| #[trigger] sw.contains_key(k) implies table_of(kv).contains_key(k) by {
        let i = choose|i: int| 0 <= i < before.len() && before[i].0 == k;
        assert(m[before[i].0] == before[i].1);
        assert(kv.contains(before[i]));
        let j = choose|j: int| 0 <= j < kv.len() && kv[j] == before[i];
        assert(kv[j].0 == k);
    }
    assert(table_of(kv) =~= sw);
}

/// The entries of `times` with a hit inside the window at `now`.
fn keep_active(times: Vec<(String, Vec<u128>)>, now: u128, window: u128) -> (kept: Vec<(String, Vec<u128>)>)
    requires
        keys_distinct(entries_view(times@)),
    ensures
        keys_distinct(entries_view(kept@)),
        active_kept(entries_view(times@), entries_view(kept@), now, window, 0),
{
    let ghost before = entries_view(times@);
    let ghost n = before.len();
    let mut times = times;
    let mut kept: Vec<(String, Vec<u128>)> = Vec::new();
    proof {
        assert(entries_view(kept@) =~= Seq::empty());
    }
    while times.len() > 0
        invariant
            keys_distinct(before),
            n == before.len(),
            times@.len() <= n,
            entries_view(times@) == before.subrange(0, times@.len() as int),
            keys_distinct(entries_view(kept@)),
            active_kept(before, entries_view(kept@), now, window, times@.len() as int),
        decreases times@.len(),
    {
        let ghost t0 = times@.len() as int;
        let ghost old_t = times@;
        let e = times.pop().unwrap();
        let ghost ev = (e.0@, e.1@);
        proof {
            assert(old_t[t0 - 1] == e);
            assert(entries_view(old_t)[t0 - 1] == ev);
            assert(before.subrange(0, t0)[t0 - 1] == before[t0 - 1]);
            assert(times@ =~= old_t.drop_last());
            assert(entries_view(times@) =~= before.subrange(0, times@.len() as int));
        }
        let r = recent_hits(&e.1, now, window);
        let ghost k0 = entries_view(kept@);
        let ghost tail0 = before.subrange(t0, n as int);
        let ghost tail1 = before.subrange(t0 - 1, n as int);
        proof {
            assert forall|x: (Seq<char>, Seq<u128>)| tail0.contains(x) implies tail1.contains(x) by {
                let i = choose|i: int| 0 <= i < tail0.len() && tail0[i] == x;
                assert(tail1[i + 1] == x);
            }
        }
        if r.len() > 0 {
            kept.push(e);
            proof {
                let kv = entries_view(kept@);
                assert(kv =~= k0.push(ev));
                assert(tail1[0] == ev);
                assert forall|a: int, b: int| 0 <= a < kv.len() && 0 <= b < kv.len() && a != b implies #[trigger] kv[a].0
                    != #[trigger] kv[b].0 by {
                    if a < k0.len() && b < k0.len() {
                        assert(k0[a].0 != k0[b].0);
                    } else if a < k0.len() {
                        assert(tail0.contains(k0[a]));
                        let i = choose|i: int| 0 <= i < tail0.len() && tail0[i] == k0[a];
                        assert(before[t0 + i].0 != before[t0 - 1].0);
                    } else if b < k0.len() {
                        assert(tail0.contains(k0[b]));
                        let i = choose|i: int| 0 <= i < tail0.len() && tail0[i] == k0[b];
                        assert(before[t0 + i].0 != before[t0 - 1].0);
                    }
                }
                assert forall|j: int| 0 <= j < kv.len() implies tail1.contains(#[trigger] kv[j]) && recent(
                    kv[j].1,
                    now,
                    window,
                ).len() > 0 by {
                    if j < k0.len() {
                        assert(kv[j] == k0[j]);
                        assert(tail0.contains(k0[j]));
                    } else {
                        assert(kv[j] == tail1[0]);
                    }
                }
                assert forall|i: int| t0 - 1 <= i < n && recent(before[i].1, now, window).len() > 0 implies kv.contains(
                    #[trigger] before[i],
                ) by {
                    if i == t0 - 1 {
                        assert(kv[k0.len() as int] == before[i]);
                    } else {
                        assert(k0.contains(before[i]));
                        let j = choose|j: int| 0 <= j < k0.len() && k0[j] == before[i];
                        assert(kv[j] == before[i]);
                    }
                }
            }
        } else {
            proof {
                assert forall|j: int| 0 <= j < k0.len() implies tail1.contains(#[trigger] k0[j]) && recent(
                    k0[j].1,
                    now,
                    window,
                ).len() > 0 by {
                    assert(tail0.contains(k0[j]));
                }
                assert forall|i: int| t0 - 1 <= i < n && recent(before[i].1, now, window).len() > 0 implies k0.contains(
                    #[trigger] before[i],
                ) by {
                    if i == t0 - 1 {
                        assert(before[i] == ev);
                    }
                }
            }
        }
    }
    proof {
        assert(before.subrange(0, 0) =~= Seq::<(Seq<char>, Seq<u128>)>::empty());
    }
    kept
}

/// Removing an entry keeps the keys distinct.
proof fn lemma_distinct_remove(s: Seq<(Seq<char>, Seq<u128>)>, i: int)
    requires
        keys_distinct(s),
        0 <= i < s.len(),
    ensures
        keys_distinct(s.remove(i)),
{
    let t = s.remove(i);
    assert forall|a: int, b: int| 0 <= a < t.len() && 0 <= b < t.len() && a != b implies #[trigger] t[a].0
        != #[trigger] t[b].0 by {
        let a2 = if a < i { a } else { a + 1 };
        let b2 = if b < i { b } else { b + 1 };
        assert(t[a] == s[a2] && t[b] == s[b2]);
        assert(s[a2].0 != s[b2].0);
    }
}

/// Replacing the times of an entry keeps the keys distinct.
proof fn lemma_distinct_update(s: Seq<(Seq<char>, Seq<u128>)>, i: int, v: Seq<u128>)
    requires
        keys_distinct(s),
        0 <= i < s.len(),
    ensures
        keys_distinct(s.update(i, (s[i].0, v))),
{
    let t = s.update(i, (s[i].0, v));
    assert forall|a: int, b: int| 0 <= a < t.len() && 0 <= b < t.len() && a != b implies #[trigger] t[a].0
        != #[trigger] t[b].0 by {
        assert(t[a].0 == s[a].0 && t[b].0 == s[b].0);
    }
}

/// The index of the entry for `key`, if there is one.
fn find_key(times: &Vec<(String, Vec<u128>)>, key: &str) -> (r: Option<usize>)
    ensures
        match r {
            Some(i) => i < times@.len() && entries_view(times@)[i as int].0 == key@,
            None => forall|i: int| 0 <= i < times@.len() ==> entries_view(times@)[i].0 != key@,
        },
{
    let mut i: usize = 0;
    while i < times.len()
        invariant
            i <= times@.len(),
            forall|j: int| 0 <= j < i ==> entries_view(times@)[j].0 != key@,
        decreases times@.len() - i,
    {
        if str_eq(times[i].0.as_str(), key) {
            return Some(i);
        }
        i = i + 1;
    }
    None
}

/// The hits of `hits` still inside the window at `now`.
fn recent_hits(hits: &Vec<u128>, now: u128, window: u128) -> (r: Vec<u128>)
    ensures
        r@ == recent(hits@, now, window),
{
    let mut r: Vec<u128> = Vec::new();
    let mut i: usize = 0;
    proof {
        reveal(Seq::filter);
        assert(hits@.subrange(0, 0) =~= Seq::<u128>::empty());
    }
    while i < hits.len()
        invariant
            i <= hits@.len(),
            r@ == recent(hits@.subrange(0, i as int), now, window),
        decreases hits@.len() - i,
    {
        let t = hits[i];
        proof {
            assert(hits@.subrange(0, i + 1) =~= hits@.subrange(0, i as int).push(t));
            hits@.subrange(0, i as int).lemma_filter_push(t, in_window(now, window));
        }
        let e = if now >= t { now - t } else { 0 };
        if e < window {
            r.push(t);
        }
        i = i + 1;
    }
    proof {
        assert(hits@.subrange(0, i as int) =~= hits@);
    }
    r
}

/// No hit is ever recorded inside the window beyond the limit: when every
/// key holds at most `max` hits, so does every key after a hit.
pub proof fn law_hits_stay_bounded(m: Map<Seq<char>, Seq<u128>>, key: Seq<char>, now: u128, window: u128, max: nat)
    requires
        forall|k: Seq<char>| #[trigger] m.contains_key(k) ==> m[k].len() <= max,
    ensures
        forall|k: Seq<char>| #[trigger] spec_hit(m, key, now, window, max).1.contains_key(k)
            ==> spec_hit(m, key, now, window, max).1[k].len() <= max,
{
    let kept = recent(hits_of(m, key), now, window);
    hits_of(m, key).lemma_filter_len(in_window(now, window));
    if !m.contains_key(key) {
        assert(hits_of(m, key).len() == 0);
    }
}

/// Asking first predicts the answer: whether a hit would be allowed is
/// whether the hit is allowed (for a limit above zero).
pub proof fn law_is_allowed_predicts_hit(m: Map<Seq<char>, Seq<u128>>, key: Seq<char>, now: u128, window: u128, max: nat)
    requires
        max > 0,
    ensures
        spec_is_allowed(m, key, now, window, max) == spec_hit(m, key, now, window, max).0,
{
    reveal(Seq::filter);
}

/// A refused hit is not recorded: the key keeps only its hits inside the
/// window, at least `max` of them, and no other key changes.
pub proof fn law_refused_hit_not_recorded(m: Map<Seq<char>, Seq<u128>>, key: Seq<char>, now: u128, window: u128, max: nat)
    requires
        !spec_hit(m, key, now, window, max).0,
    ensures
        spec_hit(m, key, now, window, max).1 == m.insert(key, recent(hits_of(m, key), now, window)),
        recent(hits_of(m, key), now, window).len() >= max,
{
}

/// Hits older than the window do not count: a key whose hits all lie
/// outside the window is allowed (for a limit above zero).
pub proof fn law_old_hits_expire(m: Map<Seq<char>, Seq<u128>>, key: Seq<char>, now: u128, window: u128, max: nat)
    requires
        max > 0,
        forall|i: int| 0 <= i < hits_of(m, key).len() ==> elapsed(now, #[trigger] hits_of(m, key)[i]) >= window,
    ensures
        spec_hit(m, key, now, window, max).0,
        spec_is_allowed(m, key, now, window, max),
{
    let h = hits_of(m, key);
    let p = in_window(now, window);
    assert(h.all(|x: u128| !p(x)));
    h.lemma_all_neg_filter_empty(p);
}

/// After a reset, the key's next hit is allowed (for a limit above zero).
pub proof fn law_reset_then_allowed(m: Map<Seq<char>, Seq<u128>>, key: Seq<char>, now: u128, window: u128, max: nat)
    requires
        max > 0,
    ensures
        spec_hit(m.remove(key), key, now, window, max).0,
        spec_is_allowed(m.remove(key), key, now, window, max),
{
    reveal(Seq::filter);
}

} // verus!
