//! The reference-counted cell that the file table keeps its files in.
use vstd::prelude::*;

verus! {

/// A value with its count of strong references.
pub struct RcInner<T> {
    strong: usize,
    value: T,
}

impl<T> RcInner<T> {
    /// The number of strong references.
    pub closed spec fn count(&self) -> nat {
        self.strong as nat
    }

    /// The value held.
    pub closed spec fn value(&self) -> T {
        self.value
    }

    pub fn strong(this: &Self) -> (r: usize)
        ensures
            r == this.count(),
    {
        this.strong
    }

    pub fn inc_strong(this: &mut Self)
        requires
            old(this).count() < usize::MAX,
        ensures
            final(this).count() == old(this).count() + 1,
            final(this).value() == old(this).value(),
    {
        this.strong = this.strong + 1;
    }

    pub fn dec_strong(this: &mut Self)
        requires
            old(this).count() > 0,
        ensures
            final(this).count() == old(this).count() - 1,
            final(this).value() == old(this).value(),
    {
        this.strong = this.strong - 1;
    }

    /// An unreferenced cell holding `value`.
    pub fn new(value: T) -> (r: RcInner<T>)
        ensures
            r.count() == 0,
            r.value() == value,
    {
        RcInner { strong: 0, value }
    }

    /// The value held.
    pub fn deref(&self) -> (r: &T)
        ensures
            *r == self.value(),
    {
        &self.value
    }

    /// The value held, for changing it.
    pub fn deref_mut(&mut self) -> (r: &mut T)
        ensures
            *r == old(self).value(),
            final(self).value() == *final(r),
            final(self).count() == old(self).count(),
    {
        &mut self.value
    }
}

/// A cell is determined by its count and its value.
pub proof fn lemma_rc_ext<T>(a: RcInner<T>, b: RcInner<T>)
    requires
        a.count() == b.count(),
        a.value() == b.value(),
    ensures
        a == b,
{
}

/// The count after increments (true) and decrements (false), in order,
/// from count `c`: `c` plus the increments less the decrements.
pub open spec fn count_after(c: int, ops: Seq<bool>) -> int
    decreases ops.len(),
{
    if ops.len() == 0 {
        c
    } else {
        count_after(c, ops.drop_last()) + if ops.last() {
            1int
        } else {
            -1int
        }
    }
}

/// Any sequence of `inc_strong` (true) and `dec_strong` (false) calls on a
/// cell, `cells` being the cell before and after each call, leaves its
/// count at the start count plus the increments less the decrements, and
/// its value as it was. From `RcInner::new` the start count is 0.
pub proof fn lemma_rc_counts<T>(cells: Seq<RcInner<T>>, ops: Seq<bool>)
    requires
        cells.len() == ops.len() + 1,
        forall|k: int|
            0 <= k < ops.len() ==> (#[trigger] cells[k + 1]).value() == cells[k].value()
                && cells[k + 1].count() == cells[k].count() + if ops[k] {
                1int
            } else {
                -1int
            },
    ensures
        cells.last().count() == count_after(cells[0].count() as int, ops),
        cells.last().value() == cells[0].value(),
    decreases ops.len(),
{
    if ops.len() > 0 {
        let n = ops.len() - 1;
        lemma_rc_counts(cells.drop_last(), ops.drop_last());
        assert(cells.drop_last().last() == cells[n]);
        assert(cells[n + 1].count() == cells[n].count() + if ops[n] {
            1int
        } else {
            -1int
        });
    }
}

} // verus!
