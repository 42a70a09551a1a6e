//! UI signal registry: boolean flags allocated once and raised, read and
//! cleared each frame, plus the layout constraint pair.

use vstd::prelude::*;

verus! {

/// Handle to one allocated signal slot.
#[derive(Clone, Copy, Debug)]
pub struct Signal(usize);

impl Signal {
    /// The slot this handle points at.
    pub closed spec fn idx(self) -> int {
        self.0 as int
    }
}

/// The registry of signal flags, all low until set.
#[derive(Clone, Debug)]
pub struct Signals(Vec<bool>);

impl View for Signals {
    type V = Seq<bool>;

    closed spec fn view(&self) -> Seq<bool> {
        self.0@
    }
}

impl Default for Signals {
    fn default() -> (r: Signals)
        ensures
            r@ == Seq::<bool>::empty(),
    {
        Signals(Vec::new())
    }
}

impl Signals {
    /// Allocate a fresh signal, initially low, and hand back its handle.
    pub fn signal(&mut self) -> (r: Signal)
        ensures
            final(self)@ == old(self)@.push(false),
            r.idx() == old(self)@.len(),
    {
        self.0.push(false);
        Signal(self.0.len() - 1)
    }

    /// Whether a signal is raised; a handle past the registry reads low.
    pub fn get(&self, signal: Signal) -> (r: bool)
        ensures
            r == (signal.idx() < self@.len() && self@[signal.idx()]),
    {
        if signal.0 < self.0.len() {
            self.0[signal.0]
        } else {
            false
        }
    }

    /// Raise a signal; a handle past the registry is ignored.
    pub fn set(&mut self, signal: Signal)
        ensures
            signal.idx() < old(self)@.len() ==> final(self)@ == old(self)@.update(
                signal.idx(),
                true,
            ),
            signal.idx() >= old(self)@.len() ==> final(self)@ == old(self)@,
    {
        if signal.0 < self.0.len() {
            self.0.set(signal.0, true);
        }
    }

    /// Lower every signal, keeping the allocation.
    pub fn clear(&mut self)
        ensures
            final(self)@.len() == old(self)@.len(),
            forall|i: int| 0 <= i < final(self)@.len() ==> !final(self)@[i],
    {
        let n = self.0.len();
        let mut i: usize = 0;
        while i < n
            invariant
                i <= n,
                n == self.0@.len(),
                forall|j: int| 0 <= j < i ==> !self.0@[j],
            decreases n - i,
        {
            self.0.set(i, false);
            i = i + 1;
        }
    }
}

/// Closed interval of layout sizes an element may take.
#[derive(Clone, Copy, Debug, PartialEq)]
pub struct Constraint<T> {
    pub min: T,
    pub max: T,
}

} // verus!
