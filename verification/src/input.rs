//! Shared input state: the set of currently held keys and the mouse-delta
//! accumulator. The event thread mutates these, the render thread reads them
//! once per frame; each lives behind its own lock in the binary, so every
//! operation here is a short, self-contained critical section.

use vstd::prelude::*;

verus! {

/// A keyboard key as delivered by the window's event source. Only the keys
/// that drive the camera (and the escape key) are distinguished; every other
/// key is carried by its raw scan value so that set membership still works.
#[derive(PartialEq, Eq, Structural, Clone, Copy, Debug)]
pub enum Key {
    A,
    D,
    S,
    W,
    LShift,
    Space,
    Q,
    E,
    R,
    F,
    Escape,
    Other(u32),
}

/// The set of keys currently held down. Backed by a vector in insertion
/// order, with the invariant that no key occurs twice, so that pressing an
/// already-held key and releasing a never-pressed key are both no-ops.
pub struct PressedKeys {
    keys: Vec<Key>,
}

impl View for PressedKeys {
    type V = Seq<Key>;

    closed spec fn view(&self) -> Seq<Key> {
        self.keys@
    }
}

impl PressedKeys {
    /// The set invariant: each key is recorded at most once.
    pub open spec fn wf(&self) -> bool {
        self@.no_duplicates()
    }

    pub fn new() -> (r: Self)
        ensures
            r@ == Seq::<Key>::empty(),
            r.wf(),
    {
        PressedKeys { keys: Vec::new() }
    }

    pub fn len(&self) -> (n: usize)
        ensures
            n == self@.len(),
    {
        self.keys.len()
    }

    /// The key at position `i` of the insertion order.
    pub fn get(&self, i: usize) -> (k: Key)
        requires
            i < self@.len(),
        ensures
            k == self@[i as int],
    {
        self.keys[i]
    }

    /// Whether `k` is currently held.
    pub fn contains(&self, k: Key) -> (r: bool)
        ensures
            r == self@.contains(k),
    {
        let n = self.keys.len();
        let mut i: usize = 0;
        while i < n
            invariant
                n == self@.len(),
                i <= n,
                forall|j: int| 0 <= j < i ==> self@[j] != k,
            decreases n - i,
        {
            if self.keys[i] == k {
                return true;
            }
            i += 1;
        }
        false
    }

    /// Record a key press. Pressing a key that is already held leaves the
    /// state exactly as it was.
    pub fn press(&mut self, k: Key)
        requires
            old(self).wf(),
        ensures
            final(self).wf(),
            old(self)@.contains(k) ==> final(self)@ == old(self)@,
            !old(self)@.contains(k) ==> final(self)@ == old(self)@.push(k),
    {
        if !self.contains(k) {
            self.keys.push(k);
        }
    }

    /// Record a key release. Releasing a key that is not held leaves the
    /// state exactly as it was; otherwise the key's single entry is removed
    /// and the order of the remaining keys is kept.
    pub fn release(&mut self, k: Key)
        requires
            old(self).wf(),
        ensures
            final(self).wf(),
            final(self)@ == old(self)@.remove_value(k),
            !old(self)@.contains(k) ==> final(self)@ == old(self)@,
    {
        let n = self.keys.len();
        let mut i: usize = 0;
        while i < n
            invariant
                old(self).wf(),
                *self == *old(self),
                n == self@.len(),
                i <= n,
                forall|j: int| 0 <= j < i ==> self@[j] != k,
            decreases n - i,
        {
            if self.keys[i] == k {
                proof {
                    old(self)@.index_of_first_ensures(k);
                    let first = old(self)@.index_of_first(k).unwrap();
                    assert(first == i as int);
                }
                self.keys.remove(i);
                proof {
                    assert(self@.no_duplicates());
                }
                return;
            }
            i += 1;
        }
        proof {
            old(self)@.index_of_first_ensures(k);
        }
    }
}

/// One motion event added onto an accumulator value: the componentwise sum.
pub open spec fn accumulated(m: (int, int), d: (int, int)) -> (int, int) {
    (m.0 + d.0, m.1 + d.1)
}

/// The mouse-delta accumulator: a running sum of the per-event mouse motion
/// since the render thread last read it. The view is the pair of exact sums.
pub struct MouseDelta {
    dx: i64,
    dy: i64,
}

impl View for MouseDelta {
    type V = (int, int);

    closed spec fn view(&self) -> (int, int) {
        (self.dx as int, self.dy as int)
    }
}

impl MouseDelta {
    pub fn new() -> (r: Self)
        ensures
            r@ == (0int, 0int),
    {
        MouseDelta { dx: 0, dy: 0 }
    }

    /// Add one motion event to the running sum.
    pub fn accumulate(&mut self, dx: i64, dy: i64)
        requires
            i64::MIN <= old(self)@.0 + dx <= i64::MAX,
            i64::MIN <= old(self)@.1 + dy <= i64::MAX,
        ensures
            final(self)@ == accumulated(old(self)@, (dx as int, dy as int)),
    {
        self.dx = self.dx + dx;
        self.dy = self.dy + dy;
    }

    /// The accumulated motion so far, without resetting it.
    pub fn current(&self) -> (r: (i64, i64))
        ensures
            r.0 == self@.0,
            r.1 == self@.1,
    {
        (self.dx, self.dy)
    }

    /// The per-frame read by the render thread: hand out the accumulated
    /// motion and leave the accumulator at exactly zero.
    pub fn read_and_reset(&mut self) -> (r: (i64, i64))
        ensures
            r.0 == old(self)@.0,
            r.1 == old(self)@.1,
            final(self)@ == (0int, 0int),
    {
        let r = (self.dx, self.dy);
        self.dx = 0;
        self.dy = 0;
        r
    }
}

/// Accumulating two motion events in sequence yields exactly their
/// componentwise sum on top of whatever the accumulator held before.
pub proof fn lemma_mouse_delta_accumulates(m: (int, int), d1: (int, int), d2: (int, int))
    ensures
        accumulated(accumulated(m, d1), d2) == (m.0 + (d1.0 + d2.0), m.1 + (d1.1 + d2.1)),
{
}

} // verus!
