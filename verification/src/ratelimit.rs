//! Sliding-window limiter keyed by client address.
//!
//! Times are readings of a monotonic clock in nanoseconds; the caller keeps the limiter
//! behind a lock.

use vstd::prelude::*;

use crate::text::str_eq;

verus! {

/// How long ago `t` was at `now`; a reading from the future counts as no time at all
/// (`Instant::duration_since` saturates).
pub open spec fn elapsed(now: u64, t: u64) -> int {
    if now >= t {
        now - t
    } else {
        0
    }
}

/// A key is kept while its latest hit is younger than the window.
pub open spec fn live(q: Seq<u64>, now: u64, window: u64) -> bool {
    q.len() > 0 && elapsed(now, q.last()) < window
}

/// The hits from the front that are at least a window old are dropped.
pub open spec fn prune_front(q: Seq<u64>, now: u64, window: u64) -> Seq<u64>
    decreases q.len(),
{
    if q.len() > 0 && elapsed(now, q[0]) >= window {
        prune_front(q.drop_first(), now, window)
    } else {
        q
    }
}

/// The entries whose key is still live, in order.
pub open spec fn retain_live(es: Seq<(Seq<char>, Seq<u64>)>, now: u64, window: u64) -> Seq<
    (Seq<char>, Seq<u64>),
>
    decreases es.len(),
{
    if es.len() == 0 {
        es
    } else {
        let r = retain_live(es.drop_last(), now, window);
        if live(es.last().1, now, window) {
            r.push(es.last())
        } else {
            r
        }
    }
}

/// Where `key` is, or -1.
pub open spec fn key_index(es: Seq<(Seq<char>, Seq<u64>)>, key: Seq<char>) -> int
    decreases es.len(),
{
    if es.len() == 0 {
        -1
    } else if es.last().0 == key {
        es.len() - 1
    } else {
        key_index(es.drop_last(), key)
    }
}

/// The hits recorded for `key` (none when it has no entry).
pub open spec fn queue_in(es: Seq<(Seq<char>, Seq<u64>)>, key: Seq<char>) -> Seq<u64> {
    let i = key_index(es, key);
    if i >= 0 {
        es[i].1
    } else {
        Seq::empty()
    }
}

/// `es` with the hits of `key` replaced (a new entry goes at the end).
pub open spec fn set_queue(es: Seq<(Seq<char>, Seq<u64>)>, key: Seq<char>, q: Seq<u64>) -> Seq<
    (Seq<char>, Seq<u64>),
> {
    let i = key_index(es, key);
    if i >= 0 {
        es.update(i, (key, q))
    } else {
        es.push((key, q))
    }
}

pub open spec fn unique_keys(es: Seq<(Seq<char>, Seq<u64>)>) -> bool {
    forall|i: int, j: int| 0 <= i < j < es.len() ==> es[i].0 != es[j].0
}

/// One request for `key` at `now`: expired keys are forgotten, the key's old hits are
/// dropped, and the request is allowed when fewer than `max` hits remain, in which case it
/// is recorded. Returns the answer and the new entries.
pub open spec fn allow_spec(
    es: Seq<(Seq<char>, Seq<u64>)>,
    key: Seq<char>,
    now: u64,
    max: usize,
    window: u64,
) -> (bool, Seq<(Seq<char>, Seq<u64>)>) {
    let kept = retain_live(es, now, window);
    let q = prune_front(queue_in(kept, key), now, window);
    let ok = q.len() < max;
    (ok, set_queue(kept, key, if ok { q.push(now) } else { q }))
}

#[derive(Debug)]
pub struct RateLimiter {
    max: usize,
    window: u64,
    keys: Vec<String>,
    queues: Vec<Vec<u64>>,
}

impl View for RateLimiter {
    type V = Seq<(Seq<char>, Seq<u64>)>;

    closed spec fn view(&self) -> Seq<(Seq<char>, Seq<u64>)> {
        Seq::new(self.keys@.len(), |i: int| (self.keys@[i]@, self.queues@[i]@))
    }
}

impl RateLimiter {
    pub closed spec fn max_hits(&self) -> usize {
        self.max
    }

    pub closed spec fn window_nanos(&self) -> u64 {
        self.window
    }

    pub closed spec fn wf(&self) -> bool {
        &&& self.keys@.len() == self.queues@.len()
        &&& unique_keys(self@)
    }

    /// At most `max` requests per key within any `window` nanoseconds.
    pub fn new(max: usize, window: u64) -> (r: Self)
        ensures
            r.wf(),
            r.max_hits() == max,
            r.window_nanos() == window,
            r@ == Seq::<(Seq<char>, Seq<u64>)>::empty(),
    {
        let r = RateLimiter { max, window, keys: Vec::new(), queues: Vec::new() };
        assert(r@ =~= Seq::<(Seq<char>, Seq<u64>)>::empty());
        r
    }

    /// Whether a request for `key` at `now` (nanoseconds) is allowed; an allowed one is
    /// counted.
    pub fn allow(&mut self, key: &str, now: u64) -> (ok: bool)
        requires
            old(self).wf(),
        ensures
            final(self).wf(),
            final(self).max_hits() == old(self).max_hits(),
            final(self).window_nanos() == old(self).window_nanos(),
            (ok, final(self)@) == allow_spec(
                old(self)@,
                key@,
                now,
                old(self).max_hits(),
                old(self).window_nanos(),
            ),
    {
        let ghost es = self@;
        let window = self.window;
        let max = self.max;
        // Forget the keys whose latest hit is a window old.
        let mut keys: Vec<String> = Vec::new();
        let mut queues: Vec<Vec<u64>> = Vec::new();
        let mut i: usize = 0;
        while i < self.keys.len()
            invariant
                i <= self.keys.len(),
                self.keys@.len() == self.queues@.len(),
                self@ == es,
                unique_keys(es),
                keys@.len() == queues@.len(),
                Seq::new(keys@.len(), |j: int| (keys@[j]@, queues@[j]@)) == retain_live(
                    es.take(i as int),
                    now,
                    window,
                ),
            decreases self.keys.len() - i,
        {
            let ghost before = Seq::new(keys@.len(), |j: int| (keys@[j]@, queues@[j]@));
            assert(es.take(i + 1).drop_last() =~= es.take(i as int));
            assert(es.take(i + 1).last() == es[i as int]);
            let q = &self.queues[i];
            let keep = q.len() > 0 && elapsed_nanos(now, q[q.len() - 1]) < window;
            if keep {
                keys.push(self.keys[i].clone());
                queues.push(copy_hits(q));
                assert(Seq::new(keys@.len(), |j: int| (keys@[j]@, queues@[j]@)) =~= before.push(
                    es[i as int],
                ));
            }
            i = i + 1;
        }
        assert(es.take(es.len() as int) =~= es);
        let ghost kept = retain_live(es, now, window);
        proof {
            lemma_retain_unique(es, now, window);
        }
        // Find the key's hits.
        let mut idx: usize = keys.len();
        assert(kept.take(idx as int) =~= kept);
        while idx > 0 && !str_eq(keys[idx - 1].as_str(), key)
            invariant
                idx <= keys@.len(),
                keys@.len() == queues@.len(),
                Seq::new(keys@.len(), |j: int| (keys@[j]@, queues@[j]@)) == kept,
                key_index(kept, key@) == key_index(kept.take(idx as int), key@),
            decreases idx,
        {
            assert(kept.take(idx as int).drop_last() =~= kept.take(idx - 1));
            assert(kept.take(idx as int).last() == kept[idx - 1]);
            idx = idx - 1;
        }
        let found = idx > 0;
        let ghost ki = key_index(kept, key@);
        proof {
            if found {
                assert(kept.take(idx as int).last() == kept[idx - 1]);
            } else {
                assert(kept.take(0) =~= Seq::<(Seq<char>, Seq<u64>)>::empty());
            }
        }
        let q: Vec<u64> = if found {
            assert(ki == idx - 1);
            copy_hits(&queues[idx - 1])
        } else {
            assert(ki == -1);
            Vec::new()
        };
        assert(q@ == queue_in(kept, key@));
        // Drop the hits that are a window old.
        let q = drop_old_hits(&q, now, window);
        let ok = q.len() < max;
        let mut q = q;
        if ok {
            q.push(now);
        }
        if found {
            queues.set(idx - 1, q);
        } else {
            keys.push(String::from_str(key));
            queues.push(q);
        }
        proof {
            lemma_key_index_bounds(kept, key@);
            let new_es = Seq::new(keys@.len(), |j: int| (keys@[j]@, queues@[j]@));
            assert(new_es =~= set_queue(kept, key@, q@));
            lemma_set_queue_unique(kept, key@, q@);
        }
        *self = RateLimiter { max, window, keys, queues };
        ok
    }
}

fn elapsed_nanos(now: u64, t: u64) -> (r: u64)
    ensures
        r == elapsed(now, t),
{
    if now >= t {
        now - t
    } else {
        0
    }
}

fn copy_hits(q: &Vec<u64>) -> (r: Vec<u64>)
    ensures
        r@ == q@,
{
    let mut r: Vec<u64> = Vec::new();
    let mut i: usize = 0;
    while i < q.len()
        invariant
            i <= q.len(),
            r@ == q@.take(i as int),
        decreases q.len() - i,
    {
        r.push(q[i]);
        i = i + 1;
        assert(r@ =~= q@.take(i as int));
    }
    assert(q@.take(q.len() as int) =~= q@);
    r
}

proof fn lemma_prune_skip(q: Seq<u64>, now: u64, window: u64, j: int)
    requires
        0 <= j <= q.len(),
        forall|k: int| 0 <= k < j ==> elapsed(now, #[trigger] q[k]) >= window,
        j == q.len() || elapsed(now, q[j]) < window,
    ensures
        prune_front(q, now, window) == q.skip(j),
    decreases j,
{
    if j == 0 {
        assert(q.skip(0) =~= q);
    } else {
        assert(elapsed(now, q[0]) >= window);
        let r = q.drop_first();
        assert forall|k: int| 0 <= k < j - 1 implies elapsed(now, #[trigger] r[k]) >= window by {
            assert(r[k] == q[k + 1]);
        }
        if j < q.len() {
            assert(r[j - 1] == q[j]);
        }
        lemma_prune_skip(r, now, window, j - 1);
        assert(r.skip(j - 1) =~= q.skip(j));
    }
}

fn drop_old_hits(q: &Vec<u64>, now: u64, window: u64) -> (r: Vec<u64>)
    ensures
        r@ == prune_front(q@, now, window),
{
    let mut j: usize = 0;
    while j < q.len() && elapsed_nanos(now, q[j]) >= window
        invariant
            j <= q.len(),
            forall|k: int| 0 <= k < j ==> elapsed(now, #[trigger] q@[k]) >= window,
        decreases q.len() - j,
    {
        j = j + 1;
    }
    proof {
        lemma_prune_skip(q@, now, window, j as int);
    }
    let mut r: Vec<u64> = Vec::new();
    let mut k: usize = j;
    while k < q.len()
        invariant
            j <= k <= q.len(),
            r@ == q@.subrange(j as int, k as int),
        decreases q.len() - k,
    {
        r.push(q[k]);
        k = k + 1;
        assert(r@ =~= q@.subrange(j as int, k as int));
    }
    assert(r@ =~= q@.skip(j as int));
    r
}

proof fn lemma_key_index_bounds(es: Seq<(Seq<char>, Seq<u64>)>, key: Seq<char>)
    ensures
        -1 <= key_index(es, key) < es.len(),
        key_index(es, key) >= 0 ==> es[key_index(es, key)].0 == key,
        key_index(es, key) < 0 ==> forall|i: int| 0 <= i < es.len() ==> es[i].0 != key,
    decreases es.len(),
{
    if es.len() > 0 {
        lemma_key_index_bounds(es.drop_last(), key);
        if es.last().0 != key {
            assert forall|i: int| 0 <= i < es.len() - 1 implies es.drop_last()[i] == es[i] by {}
        }
    }
}

/// What `retain_live` keeps comes from the input, in order, and is still live.
proof fn lemma_retain_from(es: Seq<(Seq<char>, Seq<u64>)>, now: u64, window: u64)
    ensures
        forall|i: int|
            0 <= i < retain_live(es, now, window).len() ==> es.contains(
                #[trigger] retain_live(es, now, window)[i],
            ),
        forall|i: int|
            0 <= i < retain_live(es, now, window).len() ==> live(
                #[trigger] retain_live(es, now, window)[i].1,
                now,
                window,
            ),
    decreases es.len(),
{
    if es.len() > 0 {
        let d = es.drop_last();
        lemma_retain_from(d, now, window);
        let r = retain_live(d, now, window);
        assert forall|i: int| 0 <= i < retain_live(es, now, window).len() implies es.contains(
            #[trigger] retain_live(es, now, window)[i],
        ) by {
            if i < r.len() {
                assert(retain_live(es, now, window)[i] == r[i]);
                let k = choose|k: int| 0 <= k < d.len() && d[k] == r[i];
                assert(es[k] == d[k]);
            } else {
                assert(retain_live(es, now, window)[i] == es[es.len() - 1]);
            }
        }
        assert forall|i: int| 0 <= i < retain_live(es, now, window).len() implies live(
            #[trigger] retain_live(es, now, window)[i].1,
            now,
            window,
        ) by {
            if i < r.len() {
                assert(retain_live(es, now, window)[i] == r[i]);
            }
        }
    }
}

proof fn lemma_retain_unique(es: Seq<(Seq<char>, Seq<u64>)>, now: u64, window: u64)
    requires
        unique_keys(es),
    ensures
        unique_keys(retain_live(es, now, window)),
    decreases es.len(),
{
    if es.len() > 0 {
        let d = es.drop_last();
        assert(unique_keys(d)) by {
            assert forall|a: int, b: int| 0 <= a < b < d.len() implies d[a].0 != d[b].0 by {
                assert(d[a] == es[a] && d[b] == es[b]);
            }
        }
        lemma_retain_unique(d, now, window);
        lemma_retain_from(d, now, window);
        let r = retain_live(d, now, window);
        if live(es.last().1, now, window) {
            let r2 = r.push(es.last());
            assert forall|a: int, b: int| 0 <= a < b < r2.len() implies r2[a].0 != r2[b].0 by {
                if b == r2.len() - 1 {
                    assert(d.contains(r[a]));
                    let k = choose|k: int| 0 <= k < d.len() && d[k] == r[a];
                    assert(es[k] == d[k]);
                    assert(es[k].0 != es[es.len() - 1].0);
                } else {
                    assert(r2[a] == r[a] && r2[b] == r[b]);
                }
            }
        }
    }
}

proof fn lemma_set_queue_unique(es: Seq<(Seq<char>, Seq<u64>)>, key: Seq<char>, q: Seq<u64>)
    requires
        unique_keys(es),
    ensures
        unique_keys(set_queue(es, key, q)),
{
    lemma_key_index_bounds(es, key);
    let r = set_queue(es, key, q);
    assert forall|a: int, b: int| 0 <= a < b < r.len() implies r[a].0 != r[b].0 by {
        if key_index(es, key) >= 0 {
            assert(r[a].0 == es[a].0);
            assert(r[b].0 == es[b].0);
        } else if b == es.len() {
            assert(r[a] == es[a]);
        } else {
            assert(r[a] == es[a] && r[b] == es[b]);
        }
    }
}

// ---------------------------------------------------------------------------------------------
// What every request keeps
// ---------------------------------------------------------------------------------------------

proof fn lemma_key_index_same_keys(a: Seq<(Seq<char>, Seq<u64>)>, b: Seq<(Seq<char>, Seq<u64>)>, key: Seq<char>)
    requires
        a.len() == b.len(),
        forall|i: int| 0 <= i < a.len() ==> a[i].0 == b[i].0,
    ensures
        key_index(a, key) == key_index(b, key),
    decreases a.len(),
{
    if a.len() > 0 {
        lemma_key_index_same_keys(a.drop_last(), b.drop_last(), key);
    }
}

proof fn lemma_key_index_push(s: Seq<(Seq<char>, Seq<u64>)>, e: (Seq<char>, Seq<u64>), key: Seq<char>)
    ensures
        key_index(s.push(e), key) == (if e.0 == key {
            s.len() as int
        } else {
            key_index(s, key)
        }),
{
    assert(s.push(e).drop_last() =~= s);
}

/// The hits of `key` after `set_queue` are the new ones; every other key keeps its hits.
proof fn lemma_set_queue_lookup(s: Seq<(Seq<char>, Seq<u64>)>, key: Seq<char>, q: Seq<u64>, k2: Seq<char>)
    ensures
        queue_in(set_queue(s, key, q), k2) == (if k2 == key {
            q
        } else {
            queue_in(s, k2)
        }),
{
    lemma_key_index_bounds(s, key);
    lemma_key_index_bounds(s, k2);
    let i = key_index(s, key);
    if i >= 0 {
        let t = s.update(i, (key, q));
        lemma_key_index_same_keys(s, t, k2);
        if k2 != key && key_index(s, k2) >= 0 {
            assert(key_index(s, k2) != i);
        }
    } else {
        lemma_key_index_push(s, (key, q), k2);
    }
}

/// Forgetting expired keys leaves a key's hits as they were if the key is live, and none
/// otherwise.
proof fn lemma_queue_in_retain(es: Seq<(Seq<char>, Seq<u64>)>, key: Seq<char>, now: u64, window: u64)
    requires
        unique_keys(es),
    ensures
        queue_in(retain_live(es, now, window), key) == (if live(queue_in(es, key), now, window) {
            queue_in(es, key)
        } else {
            Seq::<u64>::empty()
        }),
    decreases es.len(),
{
    if es.len() > 0 {
        let d = es.drop_last();
        let e = es.last();
        assert(unique_keys(d)) by {
            assert forall|a: int, b: int| 0 <= a < b < d.len() implies d[a].0 != d[b].0 by {
                assert(d[a] == es[a] && d[b] == es[b]);
            }
        }
        lemma_queue_in_retain(d, key, now, window);
        let r = retain_live(d, now, window);
        lemma_key_index_push(r, e, key);
        lemma_key_index_bounds(r, key);
        lemma_key_index_bounds(d, key);
        if e.0 == key {
            if key_index(d, key) >= 0 {
                assert(es[key_index(d, key)].0 != es[es.len() - 1].0);
            }
            assert(queue_in(d, key) == Seq::<u64>::empty());
            assert(queue_in(es, key) == e.1);
            if live(e.1, now, window) {
                assert(retain_live(es, now, window) == r.push(e));
                assert(r.push(e)[r.len() as int] == e);
            } else {
                assert(retain_live(es, now, window) == r);
            }
        } else {
            assert(key_index(es, key) == key_index(d, key));
            if key_index(d, key) >= 0 {
                assert(es[key_index(d, key)] == d[key_index(d, key)]);
            }
            assert(queue_in(es, key) == queue_in(d, key));
            if live(e.1, now, window) {
                assert(retain_live(es, now, window) == r.push(e));
                if key_index(r, key) >= 0 {
                    assert(r.push(e)[key_index(r, key)] == r[key_index(r, key)]);
                }
                assert(queue_in(r.push(e), key) == queue_in(r, key));
            } else {
                assert(retain_live(es, now, window) == r);
            }
        }
    }
}

/// Every request keeps each key at no more than `max` recorded hits.
pub proof fn lemma_allow_bounded(
    es: Seq<(Seq<char>, Seq<u64>)>,
    key: Seq<char>,
    now: u64,
    max: usize,
    window: u64,
)
    requires
        forall|i: int| 0 <= i < es.len() ==> #[trigger] es[i].1.len() <= max,
    ensures
        forall|i: int|
            0 <= i < allow_spec(es, key, now, max, window).1.len() ==> #[trigger] allow_spec(
                es,
                key,
                now,
                max,
                window,
            ).1[i].1.len() <= max,
{
    let kept = retain_live(es, now, window);
    lemma_retain_from(es, now, window);
    assert forall|i: int| 0 <= i < kept.len() implies #[trigger] kept[i].1.len() <= max by {
        assert(es.contains(kept[i]));
        let k = choose|k: int| 0 <= k < es.len() && es[k] == kept[i];
        assert(es[k].1.len() <= max);
    }
    lemma_key_index_bounds(kept, key);
    let q0 = queue_in(kept, key);
    assert(q0.len() <= max) by {
        if key_index(kept, key) >= 0 {
            assert(kept[key_index(kept, key)].1.len() <= max);
        }
    }
    lemma_prune_len(q0, now, window);
    let q = prune_front(q0, now, window);
    let ok = q.len() < max;
    let nq = if ok {
        q.push(now)
    } else {
        q
    };
    let r = set_queue(kept, key, nq);
    assert forall|i: int| 0 <= i < r.len() implies #[trigger] r[i].1.len() <= max by {
        if key_index(kept, key) >= 0 {
            if i != key_index(kept, key) {
                assert(r[i] == kept[i]);
            }
        } else if i < kept.len() {
            assert(r[i] == kept[i]);
        }
    }
}

proof fn lemma_prune_len(q: Seq<u64>, now: u64, window: u64)
    ensures
        prune_front(q, now, window).len() <= q.len(),
    decreases q.len(),
{
    if q.len() > 0 && elapsed(now, q[0]) >= window {
        lemma_prune_len(q.drop_first(), now, window);
    }
}

proof fn lemma_prune_all_old(q: Seq<u64>, now: u64, window: u64)
    requires
        forall|i: int| 0 <= i < q.len() ==> elapsed(now, #[trigger] q[i]) >= window,
    ensures
        prune_front(q, now, window) == Seq::<u64>::empty(),
    decreases q.len(),
{
    if q.len() > 0 {
        let r = q.drop_first();
        assert forall|i: int| 0 <= i < r.len() implies elapsed(now, #[trigger] r[i]) >= window by {
            assert(r[i] == q[i + 1]);
        }
        lemma_prune_all_old(r, now, window);
    }
}

/// A key whose hits are all at least a window old is allowed again (when `max` allows any
/// request at all).
pub proof fn lemma_allow_recovers(
    es: Seq<(Seq<char>, Seq<u64>)>,
    key: Seq<char>,
    now: u64,
    max: usize,
    window: u64,
)
    requires
        unique_keys(es),
        max > 0,
        forall|i: int|
            0 <= i < queue_in(es, key).len() ==> elapsed(now, #[trigger] queue_in(es, key)[i])
                >= window,
    ensures
        allow_spec(es, key, now, max, window).0,
{
    lemma_queue_in_retain(es, key, now, window);
    let q = queue_in(es, key);
    if q.len() > 0 {
        assert(elapsed(now, q[q.len() - 1]) >= window);
    }
    lemma_prune_all_old(Seq::<u64>::empty(), now, window);
}

/// A request for one key leaves every other key as forgetting expired keys alone would.
pub proof fn lemma_allow_other_keys(
    es: Seq<(Seq<char>, Seq<u64>)>,
    key: Seq<char>,
    other: Seq<char>,
    now: u64,
    max: usize,
    window: u64,
)
    requires
        unique_keys(es),
        other != key,
    ensures
        queue_in(allow_spec(es, key, now, max, window).1, other) == (if live(
            queue_in(es, other),
            now,
            window,
        ) {
            queue_in(es, other)
        } else {
            Seq::<u64>::empty()
        }),
{
    let kept = retain_live(es, now, window);
    let q = prune_front(queue_in(kept, key), now, window);
    let nq = if q.len() < max {
        q.push(now)
    } else {
        q
    };
    lemma_set_queue_lookup(kept, key, nq, other);
    lemma_queue_in_retain(es, other, now, window);
}

/// An allowed request is recorded as the key's latest hit.
pub proof fn lemma_allow_records(
    es: Seq<(Seq<char>, Seq<u64>)>,
    key: Seq<char>,
    now: u64,
    max: usize,
    window: u64,
)
    ensures
        allow_spec(es, key, now, max, window).0 ==> queue_in(
            allow_spec(es, key, now, max, window).1,
            key,
        ).last() == now,
        allow_spec(es, key, now, max, window).0 ==> queue_in(
            allow_spec(es, key, now, max, window).1,
            key,
        ).len() <= max,
{
    let kept = retain_live(es, now, window);
    let q = prune_front(queue_in(kept, key), now, window);
    let nq = if q.len() < max {
        q.push(now)
    } else {
        q
    };
    lemma_set_queue_lookup(kept, key, nq, key);
}

// ---------------------------------------------------------------------------------------------
// Histories of requests
// ---------------------------------------------------------------------------------------------

/// The entries of a limiter made by `new(max, window)` after it has been asked about the
/// requests `reqs` (key, time), in order.
pub open spec fn run(reqs: Seq<(Seq<char>, u64)>, max: usize, window: u64) -> Seq<
    (Seq<char>, Seq<u64>),
>
    decreases reqs.len(),
{
    if reqs.len() == 0 {
        Seq::empty()
    } else {
        allow_spec(run(reqs.drop_last(), max, window), reqs.last().0, reqs.last().1, max, window).1
    }
}

/// The answer such a limiter gives to request `i` of `reqs`.
pub open spec fn answer(reqs: Seq<(Seq<char>, u64)>, i: int, max: usize, window: u64) -> bool {
    allow_spec(run(reqs.take(i), max, window), reqs[i].0, reqs[i].1, max, window).0
}

/// The times of the allowed requests for `key` among the first `n` of `reqs`, in order.
pub open spec fn allowed_times(
    reqs: Seq<(Seq<char>, u64)>,
    n: int,
    key: Seq<char>,
    max: usize,
    window: u64,
) -> Seq<u64>
    decreases n,
{
    if n <= 0 {
        Seq::empty()
    } else {
        let before = allowed_times(reqs, n - 1, key, max, window);
        if reqs[n - 1].0 == key && answer(reqs, n - 1, max, window) {
            before.push(reqs[n - 1].1)
        } else {
            before
        }
    }
}

/// How many of the times `ts` are younger than `window` at `now`.
pub open spec fn count_recent(ts: Seq<u64>, now: u64, window: u64) -> nat
    decreases ts.len(),
{
    if ts.len() == 0 {
        0
    } else {
        count_recent(ts.drop_last(), now, window) + if elapsed(now, ts.last()) < window {
            1nat
        } else {
            0nat
        }
    }
}

/// The requests come with times that never go back.
pub open spec fn times_nondecreasing(reqs: Seq<(Seq<char>, u64)>) -> bool {
    forall|i: int, j: int| 0 <= i <= j < reqs.len() ==> #[trigger] reqs[i].1 <= #[trigger] reqs[j].1
}

spec fn ascending(q: Seq<u64>) -> bool {
    forall|i: int, j: int| 0 <= i <= j < q.len() ==> #[trigger] q[i] <= #[trigger] q[j]
}

spec fn bounded_by(q: Seq<u64>, t: u64) -> bool {
    forall|i: int| 0 <= i < q.len() ==> #[trigger] q[i] <= t
}

/// `q` is what is left of the times `a` once a front part, all at least a window old at
/// `t`, has been dropped.
spec fn tracks(q: Seq<u64>, a: Seq<u64>, t: u64, window: u64) -> bool {
    &&& q.len() <= a.len()
    &&& q == a.skip(a.len() - q.len())
    &&& forall|j: int| 0 <= j < a.len() - q.len() ==> elapsed(t, #[trigger] a[j]) >= window
}

proof fn lemma_prune_ascending(q: Seq<u64>, now: u64, window: u64)
    requires
        ascending(q),
        bounded_by(q, now),
    ensures
        prune_front(q, now, window).len() <= q.len(),
        prune_front(q, now, window) == q.skip(q.len() - prune_front(q, now, window).len()),
        forall|j: int|
            0 <= j < q.len() - prune_front(q, now, window).len() ==> elapsed(now, #[trigger] q[j])
                >= window,
        forall|j: int|
            0 <= j < prune_front(q, now, window).len() ==> elapsed(
                now,
                #[trigger] prune_front(q, now, window)[j],
            ) < window,
    decreases q.len(),
{
    if q.len() > 0 && elapsed(now, q[0]) >= window {
        let d = q.drop_first();
        assert(ascending(d)) by {
            assert forall|i: int, j: int| 0 <= i <= j < d.len() implies #[trigger] d[i] <= #[trigger] d[j] by {
                assert(d[i] == q[i + 1] && d[j] == q[j + 1]);
            }
        }
        assert(bounded_by(d, now)) by {
            assert forall|i: int| 0 <= i < d.len() implies #[trigger] d[i] <= now by {
                assert(d[i] == q[i + 1]);
            }
        }
        lemma_prune_ascending(d, now, window);
        let r = prune_front(d, now, window);
        assert(d.skip(d.len() - r.len()) =~= q.skip(q.len() - r.len()));
        assert forall|j: int| 0 <= j < q.len() - r.len() implies elapsed(now, #[trigger] q[j])
            >= window by {
            if j > 0 {
                assert(q[j] == d[j - 1]);
            }
        }
    } else {
        assert(q.skip(0) =~= q);
        assert forall|j: int| 0 <= j < q.len() implies elapsed(now, #[trigger] q[j]) < window by {
            assert(q[0] <= q[j]);
        }
    }
}

proof fn lemma_count_recent(a: Seq<u64>, p: int, now: u64, window: u64)
    requires
        0 <= p <= a.len(),
        forall|j: int| 0 <= j < p ==> elapsed(now, #[trigger] a[j]) >= window,
    ensures
        count_recent(a, now, window) <= a.len() - p,
        (forall|j: int| p <= j < a.len() ==> elapsed(now, #[trigger] a[j]) < window) ==> count_recent(
            a,
            now,
            window,
        ) == a.len() - p,
    decreases a.len(),
{
    if a.len() > 0 {
        let d = a.drop_last();
        let p2 = if p == a.len() {
            p - 1
        } else {
            p
        };
        assert forall|j: int| 0 <= j < p2 implies elapsed(now, #[trigger] d[j]) >= window by {
            assert(d[j] == a[j]);
        }
        lemma_count_recent(d, p2, now, window);
        if forall|j: int| p <= j < a.len() ==> elapsed(now, #[trigger] a[j]) < window {
            assert forall|j: int| p2 <= j < d.len() implies elapsed(now, #[trigger] d[j]) < window by {
                assert(d[j] == a[j]);
            }
        }
    }
}

/// When the key's hits are not live at `now`, every time it was ever allowed is a window old.
proof fn lemma_not_live_all_old(q: Seq<u64>, a: Seq<u64>, t: u64, now: u64, window: u64)
    requires
        tracks(q, a, t, window),
        ascending(a),
        bounded_by(a, t),
        t <= now,
        !live(q, now, window),
    ensures
        forall|j: int| 0 <= j < a.len() ==> elapsed(now, #[trigger] a[j]) >= window,
{
    let p = a.len() - q.len();
    assert forall|j: int| 0 <= j < a.len() implies elapsed(now, #[trigger] a[j]) >= window by {
        if j < p {
            assert(elapsed(t, a[j]) >= window);
        } else {
            assert(q[j - p] == a[j]);
            assert(q.last() == a[a.len() - 1]);
            assert(a[j] <= a[a.len() - 1]);
        }
    }
}

proof fn lemma_tracks_later(q: Seq<u64>, a: Seq<u64>, t: u64, now: u64, window: u64)
    requires
        tracks(q, a, t, window),
        bounded_by(a, t),
        t <= now,
    ensures
        tracks(q, a, now, window),
{
    assert forall|j: int| 0 <= j < a.len() - q.len() implies elapsed(now, #[trigger] a[j])
        >= window by {
        assert(elapsed(t, a[j]) >= window);
    }
}

proof fn lemma_allow_unique(
    es: Seq<(Seq<char>, Seq<u64>)>,
    key: Seq<char>,
    now: u64,
    max: usize,
    window: u64,
)
    requires
        unique_keys(es),
    ensures
        unique_keys(allow_spec(es, key, now, max, window).1),
{
    lemma_retain_unique(es, now, window);
    let kept = retain_live(es, now, window);
    let q = prune_front(queue_in(kept, key), now, window);
    lemma_set_queue_unique(kept, key, if q.len() < max {
        q.push(now)
    } else {
        q
    });
}

/// One request for `key`: it is allowed exactly when fewer than `max` of the key's allowed
/// times are younger than the window, and the key's hits go on tracking its allowed times.
proof fn lemma_step_same(
    es: Seq<(Seq<char>, Seq<u64>)>,
    a: Seq<u64>,
    t: u64,
    key: Seq<char>,
    now: u64,
    max: usize,
    window: u64,
)
    requires
        unique_keys(es),
        ascending(a),
        bounded_by(a, t),
        t <= now,
        tracks(queue_in(es, key), a, t, window),
    ensures
        allow_spec(es, key, now, max, window).0 == (count_recent(a, now, window) < max),
        tracks(
            queue_in(allow_spec(es, key, now, max, window).1, key),
            if allow_spec(es, key, now, max, window).0 {
                a.push(now)
            } else {
                a
            },
            now,
            window,
        ),
{
    let q = queue_in(es, key);
    let kept = retain_live(es, now, window);
    lemma_queue_in_retain(es, key, now, window);
    let p = a.len() - q.len();
    let r = prune_front(queue_in(kept, key), now, window);
    if live(q, now, window) {
        assert(ascending(q)) by {
            assert forall|i: int, j: int| 0 <= i <= j < q.len() implies #[trigger] q[i] <= #[trigger] q[j] by {
                assert(q[i] == a[p + i] && q[j] == a[p + j]);
            }
        }
        assert(bounded_by(q, now)) by {
            assert forall|i: int| 0 <= i < q.len() implies #[trigger] q[i] <= now by {
                assert(q[i] == a[p + i]);
            }
        }
        lemma_prune_ascending(q, now, window);
        let c = q.len() - r.len();
        assert(r =~= a.skip(a.len() - r.len()));
        assert forall|j: int| 0 <= j < a.len() - r.len() implies elapsed(now, #[trigger] a[j])
            >= window by {
            if j < p {
                assert(elapsed(t, a[j]) >= window);
            } else {
                assert(q[j - p] == a[j]);
            }
        }
    } else {
        lemma_not_live_all_old(q, a, t, now, window);
        assert(r == Seq::<u64>::empty());
        assert(r =~= a.skip(a.len() as int));
    }
    lemma_count_recent(a, a.len() - r.len(), now, window);
    assert forall|j: int| a.len() - r.len() <= j < a.len() implies elapsed(now, #[trigger] a[j])
        < window by {
        assert(r[j - (a.len() - r.len())] == a[j]);
    }
    let ok = r.len() < max;
    let nq = if ok {
        r.push(now)
    } else {
        r
    };
    lemma_set_queue_lookup(kept, key, nq, key);
    if ok {
        assert(a.push(now).skip(a.len() - r.len()) =~= r.push(now));
        assert forall|j: int| 0 <= j < a.len() - r.len() implies elapsed(now, #[trigger] a.push(now)[j])
            >= window by {
            assert(a.push(now)[j] == a[j]);
        }
    }
}

/// A request for another key leaves a key's hits tracking its allowed times.
proof fn lemma_step_other(
    es: Seq<(Seq<char>, Seq<u64>)>,
    a: Seq<u64>,
    t: u64,
    key: Seq<char>,
    other: Seq<char>,
    now: u64,
    max: usize,
    window: u64,
)
    requires
        unique_keys(es),
        other != key,
        ascending(a),
        bounded_by(a, t),
        t <= now,
        tracks(queue_in(es, other), a, t, window),
    ensures
        tracks(queue_in(allow_spec(es, key, now, max, window).1, other), a, now, window),
{
    lemma_allow_other_keys(es, key, other, now, max, window);
    let q = queue_in(es, other);
    if live(q, now, window) {
        lemma_tracks_later(q, a, t, now, window);
    } else {
        lemma_not_live_all_old(q, a, t, now, window);
        assert(Seq::<u64>::empty() =~= a.skip(a.len() as int));
    }
}

proof fn lemma_queue_bounded(es: Seq<(Seq<char>, Seq<u64>)>, key: Seq<char>, max: usize)
    requires
        forall|i: int| 0 <= i < es.len() ==> #[trigger] es[i].1.len() <= max,
    ensures
        queue_in(es, key).len() <= max,
{
    lemma_key_index_bounds(es, key);
    if key_index(es, key) >= 0 {
        assert(es[key_index(es, key)].1.len() <= max);
    }
}

/// What holds after the first `n` requests: keys are unique, no key holds more than `max`
/// hits, and `key`'s hits are its allowed times less a front part that is a window old.
proof fn lemma_run_tracks(
    reqs: Seq<(Seq<char>, u64)>,
    n: int,
    key: Seq<char>,
    max: usize,
    window: u64,
)
    requires
        times_nondecreasing(reqs),
        0 <= n <= reqs.len(),
    ensures
        unique_keys(run(reqs.take(n), max, window)),
        forall|i: int|
            0 <= i < run(reqs.take(n), max, window).len() ==> #[trigger] run(
                reqs.take(n),
                max,
                window,
            )[i].1.len() <= max,
        ascending(allowed_times(reqs, n, key, max, window)),
        n > 0 ==> bounded_by(allowed_times(reqs, n, key, max, window), reqs[n - 1].1),
        n == 0 ==> allowed_times(reqs, n, key, max, window) == Seq::<u64>::empty(),
        n == 0 ==> queue_in(run(reqs.take(n), max, window), key) == Seq::<u64>::empty(),
        n > 0 ==> tracks(
            queue_in(run(reqs.take(n), max, window), key),
            allowed_times(reqs, n, key, max, window),
            reqs[n - 1].1,
            window,
        ),
    decreases n,
{
    if n == 0 {
        assert(reqs.take(0) =~= Seq::<(Seq<char>, u64)>::empty());
    } else {
        lemma_run_tracks(reqs, n - 1, key, max, window);
        let prev = reqs.take(n - 1);
        assert(reqs.take(n).drop_last() =~= prev);
        assert(reqs.take(n).last() == reqs[n - 1]);
        let es = run(prev, max, window);
        let k = reqs[n - 1].0;
        let now = reqs[n - 1].1;
        let t = if n > 1 {
            reqs[n - 2].1
        } else {
            now
        };
        let a = allowed_times(reqs, n - 1, key, max, window);
        if n > 1 {
            assert(t <= now);
        } else {
            assert(a.skip(0) =~= a);
        }
        lemma_allow_unique(es, k, now, max, window);
        lemma_allow_bounded(es, k, now, max, window);
        if k == key {
            lemma_step_same(es, a, t, key, now, max, window);
        } else {
            lemma_step_other(es, a, t, k, key, now, max, window);
        }
        let a2 = allowed_times(reqs, n, key, max, window);
        assert(bounded_by(a2, now)) by {
            assert forall|i: int| 0 <= i < a2.len() implies #[trigger] a2[i] <= now by {
                if i < a.len() {
                    assert(a2[i] == a[i]);
                }
            }
        }
        assert(ascending(a2)) by {
            assert forall|i: int, j: int| 0 <= i <= j < a2.len() implies #[trigger] a2[i] <= #[trigger] a2[j] by {
                if j < a.len() {
                    assert(a2[i] == a[i] && a2[j] == a[j]);
                } else if i < a.len() {
                    assert(a2[i] == a[i]);
                }
            }
        }
    }
}

/// The sliding-window law over a history of requests to a limiter made by
/// `new(max, window)`, whose times never go back: request `i` is allowed exactly when fewer
/// than `max` of the earlier allowed requests for the same key are younger than `window` at
/// its time, and an allowed request counts for the later ones. Requests for other keys and
/// refused requests therefore never change a key's answers. And at the time of any request,
/// at most `max` allowed requests for a key, up to and including that one, are younger than
/// `window`: no window holds more than `max` allowed requests for one key.
pub proof fn lemma_allow_history(reqs: Seq<(Seq<char>, u64)>, max: usize, window: u64)
    requires
        times_nondecreasing(reqs),
    ensures
        forall|i: int|
            0 <= i < reqs.len() ==> #[trigger] answer(reqs, i, max, window) == (count_recent(
                allowed_times(reqs, i, reqs[i].0, max, window),
                reqs[i].1,
                window,
            ) < max),
        forall|n: int, key: Seq<char>|
            0 < n <= reqs.len() ==> count_recent(
                #[trigger] allowed_times(reqs, n, key, max, window),
                reqs[n - 1].1,
                window,
            ) <= max,
{
    assert forall|i: int| 0 <= i < reqs.len() implies #[trigger] answer(reqs, i, max, window) == (
    count_recent(allowed_times(reqs, i, reqs[i].0, max, window), reqs[i].1, window) < max) by {
        let key = reqs[i].0;
        let now = reqs[i].1;
        lemma_run_tracks(reqs, i, key, max, window);
        let a = allowed_times(reqs, i, key, max, window);
        let t = if i > 0 {
            reqs[i - 1].1
        } else {
            now
        };
        if i > 0 {
            assert(t <= now);
        } else {
            assert(a.skip(0) =~= a);
        }
        lemma_step_same(run(reqs.take(i), max, window), a, t, key, now, max, window);
    }
    assert forall|n: int, key: Seq<char>| 0 < n <= reqs.len() implies count_recent(
        #[trigger] allowed_times(reqs, n, key, max, window),
        reqs[n - 1].1,
        window,
    ) <= max by {
        lemma_run_tracks(reqs, n, key, max, window);
        let es = run(reqs.take(n), max, window);
        let q = queue_in(es, key);
        let a = allowed_times(reqs, n, key, max, window);
        lemma_queue_bounded(es, key, max);
        lemma_count_recent(a, a.len() - q.len(), reqs[n - 1].1, window);
    }
}

} // verus!
