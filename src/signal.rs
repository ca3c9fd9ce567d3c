//! A single wire with two-phase update: a current value that readers see,
//! and a pending value that writers propose and a commit makes current.
use crate::bits::{valid_width, BitVec, BitsError, MAX_WIDTH};
use crate::design::Direction;
use vstd::prelude::*;

verus! {

/// A wire of fixed width.
#[derive(Debug, Clone, Copy)]
pub struct Signal {
    current: BitVec,
    pending: BitVec,
    direction: Direction,
}

impl Signal {
    pub closed spec fn current_spec(&self) -> BitVec {
        self.current
    }

    pub closed spec fn pending_spec(&self) -> BitVec {
        self.pending
    }

    pub closed spec fn direction_spec(&self) -> Direction {
        self.direction
    }

    /// Both values are well formed and of one width.
    pub open spec fn wf(&self) -> bool {
        &&& self.current_spec().wf()
        &&& self.pending_spec().wf()
        &&& self.current_spec().width == self.pending_spec().width
    }

    /// A signal of the given width and direction, at zero in both phases.
    pub fn new(width: u32, direction: Direction) -> (r: Result<Signal, BitsError>)
        ensures
            !valid_width(width as nat) ==> r == Err::<Signal, BitsError>(BitsError::WidthError),
            valid_width(width as nat) ==> r is Ok && r->Ok_0.wf() && r->Ok_0.current_spec() == (BitVec {
                width,
                value: 0,
            }) && r->Ok_0.pending_spec() == (BitVec { width, value: 0 }) && r->Ok_0.direction_spec()
                == direction,
    {
        if width == 0 || width > MAX_WIDTH {
            return Err(BitsError::WidthError);
        }
        let z = BitVec::zero(width);
        Ok(Signal { current: z, pending: z, direction })
    }

    /// The signal's width.
    pub fn width(&self) -> (r: u32)
        ensures
            r == self.current_spec().width,
    {
        self.current.width
    }

    /// The signal's direction.
    pub fn direction(&self) -> (r: Direction)
        ensures
            r == self.direction_spec(),
    {
        self.direction
    }

    /// The current value.
    pub fn read(&self) -> (r: BitVec)
        ensures
            r == self.current_spec(),
    {
        self.current
    }

    /// Sets the pending value; a value of another width, or one that does
    /// not fit its width, is refused and nothing changes.
    pub fn propose(&mut self, value: BitVec) -> (r: Result<(), BitsError>)
        requires
            old(self).wf(),
        ensures
            final(self).wf(),
            final(self).current_spec() == old(self).current_spec(),
            final(self).direction_spec() == old(self).direction_spec(),
            !value.wf() || value.width != old(self).current_spec().width ==> r == Err::<(), BitsError>(
                BitsError::WidthMismatch,
            ) && final(self).pending_spec() == old(self).pending_spec(),
            value.wf() && value.width == old(self).current_spec().width ==> r == Ok::<(), BitsError>(())
                && final(self).pending_spec() == value,
    {
        if !value.wf_check() || value.width != self.current.width {
            return Err(BitsError::WidthMismatch);
        }
        self.pending = value;
        Ok(())
    }

    /// Makes the pending value current; tells whether the current value changed.
    pub fn commit(&mut self) -> (r: bool)
        requires
            old(self).wf(),
        ensures
            final(self).wf(),
            final(self).current_spec() == old(self).pending_spec(),
            final(self).pending_spec() == old(self).pending_spec(),
            final(self).direction_spec() == old(self).direction_spec(),
            r == (old(self).current_spec() != old(self).pending_spec()),
    {
        let changed = self.current != self.pending;
        self.current = self.pending;
        changed
    }
}

} // verus!
