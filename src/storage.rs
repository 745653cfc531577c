use vstd::arithmetic::div_mod::{lemma_mod_add_multiples_vanish, lemma_small_mod};
use vstd::prelude::*;

verus! {

/// Retention window: one hour, in milliseconds.
pub const HOUR_DURATION: u64 = 3_600_000;

/// Number of slots of a buffer built by `default`.
pub const LIST_SIZE: u64 = 1000;

/// The opaque payload of an event.
pub type RawEvent = Vec<u8>;

/// One stored event: when it arrived and what it carries.
#[derive(Clone, Debug, PartialEq, PartialOrd, Default)]
pub struct OracleEvent {
    pub timestamp: u64,
    pub data: RawEvent,
}

/// A ring of `events.len()` slots. The valid window is the `size` slots
/// beginning at `start`, wrapping around the end of `events`.
pub struct OracleEventStorage {
    pub events: Vec<OracleEvent>,
    /// Slot of the oldest valid event.
    pub start: u64,
    /// Number of valid events.
    pub size: u64,
}

/// An event is stale at `now` when it is older than the retention window.
/// A timestamp after `now` counts as age zero.
pub open spec fn stale(e: OracleEvent, now: u64) -> bool {
    now as int - e.timestamp as int > HOUR_DURATION as int
}

/// Number of stale events at the front of `w`, counted from position `i`
/// up to the first fresh one.
pub open spec fn stale_run_from(w: Seq<OracleEvent>, i: int, now: u64) -> nat
    decreases w.len() - i,
{
    if 0 <= i < w.len() && stale(w[i], now) {
        1 + stale_run_from(w, i + 1, now)
    } else {
        0
    }
}

/// Number of stale events at the front of `w`: what `cleanup` evicts.
pub open spec fn stale_prefix_len(w: Seq<OracleEvent>, now: u64) -> nat {
    stale_run_from(w, 0, now)
}

/// The window after writing `e` into a ring of `cap` slots: appended at the
/// back, and when the ring is full the oldest event is displaced.
pub open spec fn pushed_window(w: Seq<OracleEvent>, e: OracleEvent, cap: nat) -> Seq<OracleEvent> {
    if w.len() < cap {
        w.push(e)
    } else {
        w.drop_first().push(e)
    }
}

/// Timestamps never decrease from the oldest event to the newest.
pub open spec fn timestamps_ordered(w: Seq<OracleEvent>) -> bool {
    forall|i: int, j: int|
        0 <= i <= j < w.len() ==> #[trigger] w[i].timestamp <= #[trigger] w[j].timestamp
}

/// Applies `pushed_window` to each event of `es` in turn.
pub open spec fn pushed_all(w: Seq<OracleEvent>, es: Seq<OracleEvent>, cap: nat) -> Seq<OracleEvent>
    decreases es.len(),
{
    if es.len() == 0 {
        w
    } else {
        pushed_window(pushed_all(w, es.drop_last(), cap), es.last(), cap)
    }
}

/// The run counted by `stale_run_from` is stale throughout, and ends at the
/// end of `w` or at a fresh event.
proof fn lemma_stale_run(w: Seq<OracleEvent>, i: int, now: u64)
    requires
        0 <= i <= w.len(),
    ensures
        i + stale_run_from(w, i, now) <= w.len(),
        forall|j: int| i <= j < i + stale_run_from(w, i, now) ==> stale(#[trigger] w[j], now),
        i + stale_run_from(w, i, now) < w.len() ==> !stale(w[i + stale_run_from(w, i, now)], now),
    decreases w.len() - i,
{
    if i < w.len() && stale(w[i], now) {
        lemma_stale_run(w, i + 1, now);
    }
}

/// Cleanup evicts exactly the longest stale prefix of the window: every
/// evicted event was older than the retention window, the first kept one (if
/// any) is not, and eviction goes oldest first. When the timestamps in the
/// window never decrease, no kept event is stale.
pub proof fn lemma_cleanup_evicts_stale_prefix(b: OracleEventStorage, now: u64)
    requires
        b.wf(),
    ensures
        stale_prefix_len(b@, now) <= b.size,
        forall|i: int| 0 <= i < stale_prefix_len(b@, now) ==> stale(#[trigger] b@[i], now),
        b.cleaned(now)@ == b@.skip(stale_prefix_len(b@, now) as int),
        b.cleaned(now).size > 0 ==> !stale(b.cleaned(now)@[0], now),
        timestamps_ordered(b@) ==> forall|i: int|
            0 <= i < b.cleaned(now).size ==> !stale(#[trigger] b.cleaned(now)@[i], now),
{
    let w = b@;
    let k = stale_prefix_len(w, now) as int;
    lemma_stale_run(w, 0, now);
    b.lemma_cleaned_view(now);
    if timestamps_ordered(w) {
        assert forall|i: int| 0 <= i < b.cleaned(now).size implies !stale(
            #[trigger] b.cleaned(now)@[i],
            now,
        ) by {
            assert(w[k].timestamp <= w[k + i].timestamp);
        }
    }
}

/// Cleaning twice at the same time leaves the buffer as cleaning once.
pub proof fn lemma_cleanup_idempotent(b: OracleEventStorage, now: u64)
    requires
        b.wf(),
    ensures
        b.cleaned(now).cleaned(now) == b.cleaned(now),
{
    let c = b.cleaned(now);
    lemma_stale_run(b@, 0, now);
    b.lemma_cleaned_view(now);
    if c.size > 0 {
        assert(c@[0] == b@[stale_prefix_len(b@, now) as int]);
    }
    assert(stale_prefix_len(c@, now) == 0);
    lemma_small_mod(c.start as nat, c.capacity());
}

/// Writing events one after another into a ring of `cap` slots keeps exactly
/// the last `cap` of all events seen, oldest first; nothing is lost while
/// they fit.
pub proof fn lemma_pushed_all_keeps_newest(w: Seq<OracleEvent>, es: Seq<OracleEvent>, cap: nat)
    requires
        0 < cap,
        w.len() <= cap,
    ensures
        pushed_all(w, es, cap) == (w + es).skip(
            if w.len() + es.len() <= cap { 0 } else { w.len() + es.len() - cap },
        ),
    decreases es.len(),
{
    if es.len() > 0 {
        let es0 = es.drop_last();
        lemma_pushed_all_keeps_newest(w, es0, cap);
        let d0: int = if w.len() + es0.len() <= cap { 0 } else { w.len() + es0.len() - cap };
        let d: int = if w.len() + es.len() <= cap { 0 } else { w.len() + es.len() - cap };
        assert((w + es0).push(es.last()) =~= w + es);
        if w.len() + es0.len() < cap {
            assert(pushed_all(w, es, cap) =~= (w + es).skip(d));
        } else {
            assert(d == d0 + 1);
            assert(pushed_all(w, es, cap) =~= (w + es).skip(d));
        }
    }
}

/// Reduction of an index that lies below twice the modulus.
proof fn lemma_mod_window(x: int, m: int)
    requires
        0 < m,
        0 <= x < 2 * m,
    ensures
        x % m == if x < m { x } else { x - m },
{
    if x < m {
        lemma_small_mod(x as nat, m as nat);
    } else {
        lemma_small_mod((x - m) as nat, m as nat);
        lemma_mod_add_multiples_vanish(x - m, m);
    }
}

impl OracleEventStorage {
    /// Number of slots.
    pub open spec fn capacity(&self) -> nat {
        self.events@.len()
    }

    pub open spec fn wf(&self) -> bool {
        &&& 0 < self.capacity() <= usize::MAX
        &&& self.start < self.capacity()
        &&& self.size <= self.capacity()
    }

    /// The valid events, oldest first.
    pub open spec fn view(&self) -> Seq<OracleEvent> {
        Seq::new(
            self.size as nat,
            |i: int| self.events@[(self.start as int + i) % (self.capacity() as int)],
        )
    }

    /// Slot that the next event is written to.
    pub open spec fn insert_index(&self) -> int {
        (self.start + self.size) % (self.capacity() as int)
    }

    /// The buffer after evicting the stale events at the front of the window.
    pub open spec fn cleaned(&self, now: u64) -> Self {
        let k = stale_prefix_len(self@, now);
        OracleEventStorage {
            events: self.events,
            start: ((self.start + k) % (self.capacity() as int)) as u64,
            size: (self.size - k) as u64,
        }
    }

    /// The buffer after cleanup is well formed, and its window is the old one
    /// without the stale prefix.
    pub proof fn lemma_cleaned_view(&self, now: u64)
        requires
            self.wf(),
        ensures
            self.cleaned(now).wf(),
            self.cleaned(now)@ == self@.skip(stale_prefix_len(self@, now) as int),
    {
        let w = self@;
        let c = self.cleaned(now);
        let m = self.capacity() as int;
        let s0 = self.start as int;
        let k = stale_prefix_len(w, now) as int;
        lemma_stale_run(w, 0, now);
        lemma_mod_window(s0 + k, m);
        assert forall|i: int| 0 <= i < c.size implies #[trigger] c@[i] == w.skip(k)[i] by {
            lemma_mod_window(s0 + k + i, m);
            lemma_mod_window(((s0 + k) % m) + i, m);
        }
        assert(c@ =~= w.skip(k));
    }

    /// A buffer of `size` default slots, with an empty window.
    pub fn init_sized(size: u64) -> (r: Self)
        requires
            0 < size,
            size <= usize::MAX,
        ensures
            r.wf(),
            r.capacity() == size,
            r.start == 0,
            r.size == 0,
            r@ == Seq::<OracleEvent>::empty(),
    {
        let mut v: Vec<OracleEvent> = Vec::new();
        let mut i: u64 = 0;
        while i < size
            invariant
                i <= size,
                v@.len() == i,
            decreases size - i,
        {
            v.push(OracleEvent { timestamp: 0, data: Vec::new() });
            i = i + 1;
        }
        let r = OracleEventStorage { events: v, start: 0, size: 0 };
        assert(r@ =~= Seq::<OracleEvent>::empty());
        r
    }

    /// Rebuilds a buffer from its stored parts; `None` when they do not form
    /// a well-formed ring (no slots, `start` past the last slot, or more valid
    /// events than slots).
    pub fn from_parts(events: Vec<OracleEvent>, start: u64, size: u64) -> (r: Option<Self>)
        ensures
            r is Some <==> 0 < events@.len() && start < events@.len() && size <= events@.len(),
            r matches Some(b) ==> b.wf() && b.events == events && b.start == start && b.size
                == size,
    {
        let cap = events.len();
        if cap == 0 || start >= cap as u64 || size > cap as u64 {
            None
        } else {
            Some(OracleEventStorage { events, start, size })
        }
    }

    /// Evicts, oldest first, every event older than the retention window at
    /// `now`, stopping at the first one that is not.
    pub fn cleanup(&mut self, now: u64)
        requires
            old(self).wf(),
        ensures
            final(self).wf(),
            *final(self) == old(self).cleaned(now),
            final(self)@ == old(self)@.skip(stale_prefix_len(old(self)@, now) as int),
    {
        let ghost w = self@;
        let ghost s0 = self.start as int;
        let cap = self.events.len();
        let mut start: usize = self.start as usize;
        let mut removed: u64 = 0;
        let mut fresh_found = false;
        proof {
            lemma_mod_window(s0, cap as int);
        }
        while removed < self.size && !fresh_found
            invariant
                self.wf(),
                self@ == w,
                self.start == s0,
                cap == self.capacity(),
                removed <= self.size,
                start == (s0 + removed) % (cap as int),
                stale_prefix_len(w, now) == removed + stale_run_from(w, removed as int, now),
                fresh_found ==> stale_run_from(w, removed as int, now) == 0,
            decreases self.size - removed + if fresh_found { 0int } else { 1int },
        {
            proof {
                lemma_mod_window(s0 + removed, cap as int);
            }
            let ts = self.events[start].timestamp;
            if now > ts && now - ts > HOUR_DURATION {
                proof {
                    lemma_mod_window(s0 + removed + 1, cap as int);
                }
                start = if start + 1 == cap { 0 } else { start + 1 };
                removed = removed + 1;
            } else {
                fresh_found = true;
            }
        }
        self.start = start as u64;
        self.size = self.size - removed;
        proof {
            assert(stale_run_from(w, removed as int, now) == 0);
            old(self).lemma_cleaned_view(now);
        }
    }

    /// Writes a new event stamped `now` at the back of the window. When the
    /// ring is full this overwrites the oldest event, and the window moves on
    /// by one slot.
    pub fn add_event(&mut self, event: Vec<u8>, now: u64)
        requires
            old(self).wf(),
        ensures
            final(self).wf(),
            final(self).capacity() == old(self).capacity(),
            final(self).events@ == old(self).events@.update(
                old(self).insert_index(),
                OracleEvent { timestamp: now, data: event },
            ),
            final(self).start == if old(self).size < old(self).capacity() {
                old(self).start as int
            } else {
                (old(self).start + 1) % (old(self).capacity() as int)
            },
            final(self).size == if old(self).size < old(self).capacity() {
                old(self).size + 1
            } else {
                old(self).size as int
            },
            final(self)@ == pushed_window(
                old(self)@,
                OracleEvent { timestamp: now, data: event },
                old(self).capacity(),
            ),
    {
        let ghost w = self@;
        let ghost s0 = self.start as int;
        let ghost n0 = self.size as int;
        let cap = self.events.len();
        let s = self.start as usize;
        let n = self.size as usize;
        let put_idx: usize = if n < cap - s { s + n } else { n - (cap - s) };
        proof {
            lemma_mod_window(s0 + n0, cap as int);
        }
        let e = OracleEvent { timestamp: now, data: event };
        self.events[put_idx] = e;
        if self.size < cap as u64 {
            self.size = self.size + 1;
        } else {
            self.start = if s + 1 == cap { 0 } else { (s + 1) as u64 };
        }
        proof {
            let m = cap as int;
            lemma_mod_window(s0 + 1, m);
            let v = pushed_window(w, e, m as nat);
            assert forall|i: int| 0 <= i < self.size implies #[trigger] self@[i] == v[i] by {
                lemma_mod_window(s0 + i, m);
                lemma_mod_window(s0 + i + 1, m);
                lemma_mod_window(((s0 + 1) % m) + i, m);
            }
            assert(self@ =~= v);
        }
    }

    /// Slot of the oldest valid event.
    pub fn get_start(&self) -> (r: usize)
        requires
            self.wf(),
        ensures
            r == self.start,
    {
        self.start as usize
    }

    /// Number of valid events.
    pub fn get_size(&self) -> (r: usize)
        requires
            self.wf(),
        ensures
            r == self.size,
    {
        self.size as usize
    }

    /// The `i`-th valid event, counting from the oldest.
    pub fn get_event(&self, i: usize) -> (r: &OracleEvent)
        requires
            self.wf(),
            i < self.size,
        ensures
            *r == self@[i as int],
    {
        let cap = self.events.len();
        let s = self.start as usize;
        let idx: usize = if i < cap - s { s + i } else { i - (cap - s) };
        proof {
            lemma_mod_window(self.start + i, cap as int);
        }
        &self.events[idx]
    }
}

impl Default for OracleEventStorage {
    /// A buffer of `LIST_SIZE` slots, with an empty window.
    fn default() -> (r: Self)
        ensures
            r.wf(),
            r.capacity() == LIST_SIZE,
            r.start == 0,
            r.size == 0,
            r@ == Seq::<OracleEvent>::empty(),
    {
        Self::init_sized(LIST_SIZE)
    }
}

} // verus!
