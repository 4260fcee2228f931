//! The always-redraw set: cell coordinates that must be repainted on
//! every draw call to animate blinking text. Kept as an
//! insertion-ordered vector without duplicates.

use vstd::prelude::*;

verus! {

/// A set of (column, row) coordinates, in insertion order and free of
/// duplicates.
#[derive(Debug, Clone)]
pub struct RedrawSet {
    pub items: Vec<(u16, u16)>,
}

impl RedrawSet {
    /// No coordinate occurs twice.
    pub open spec fn wf(self) -> bool {
        forall|i: int, j: int|
            0 <= i < j < self.items.len() ==> #[trigger] self.items[i] != #[trigger] self.items[j]
    }

    /// Whether the set holds the coordinate `p`.
    pub open spec fn spec_contains(self, p: (u16, u16)) -> bool {
        exists|i: int| 0 <= i < self.items.len() && #[trigger] self.items[i] == p
    }

    /// Creates an empty set.
    pub fn new() -> (r: RedrawSet)
        ensures
            r.wf(),
            r.items@ =~= Seq::<(u16, u16)>::empty(),
    {
        RedrawSet { items: Vec::new() }
    }

    /// The number of coordinates held.
    pub fn len(&self) -> (r: usize)
        ensures
            r == self.items.len(),
    {
        self.items.len()
    }

    /// Reads the coordinate at position `i` in insertion order.
    pub fn get(&self, i: usize) -> (r: (u16, u16))
        requires
            i < self.items.len(),
        ensures
            r == self.items[i as int],
    {
        self.items[i]
    }

    /// Tells whether the set holds the coordinate `p`.
    pub fn contains(&self, p: (u16, u16)) -> (r: bool)
        ensures
            r == self.spec_contains(p),
    {
        let mut i: usize = 0;
        while i < self.items.len()
            invariant
                0 <= i <= self.items.len(),
                forall|q: int| 0 <= q < i ==> #[trigger] self.items[q] != p,
            decreases self.items.len() - i,
        {
            let it = self.items[i];
            if it.0 == p.0 && it.1 == p.1 {
                return true;
            }
            i = i + 1;
        }
        false
    }

    /// Adds `p` unless it is already held; insertion order is kept.
    pub fn insert(&mut self, p: (u16, u16))
        requires
            old(self).wf(),
        ensures
            final(self).wf(),
            final(self).items@ == if old(self).spec_contains(p) {
                old(self).items@
            } else {
                old(self).items@.push(p)
            },
            forall|q: (u16, u16)|
                final(self).spec_contains(q) <==> (old(self).spec_contains(q) || q == p),
    {
        if !self.contains(p) {
            self.items.push(p);
        }
        proof {
            assert forall|q: (u16, u16)| self.spec_contains(q) implies (old(self).spec_contains(q)
                || q == p) by {
                let i = choose|i: int|
                    0 <= i < self.items.len() && #[trigger] self.items[i] == q;
                if i < old(self).items.len() {
                    assert(old(self).items[i] == q);
                }
            }
            assert forall|q: (u16, u16)| (old(self).spec_contains(q) || q == p) implies self
                .spec_contains(q) by {
                if old(self).spec_contains(q) {
                    let i = choose|i: int|
                        0 <= i < old(self).items.len() && #[trigger] old(self).items[i] == q;
                    assert(self.items[i] == q);
                } else {
                    if self.items.len() > old(self).items.len() {
                        assert(self.items[self.items.len() - 1] == p);
                    } else {
                        assert(old(self).spec_contains(p));
                    }
                }
            }
        }
    }
}

} // verus!
