//! The machine's memory: a forward-growing sequence of signed integer cells
//! with a movable cursor.
//!
//! The tape starts as a single zero cell with the cursor on it. Moving right
//! past the current end appends exactly one new zero cell; moving left is not
//! bounded, so the cursor may sit at a negative position. Reading or writing
//! at a negative position is an out-of-range condition: the read and write
//! operations require a non-negative cursor, and the execution engine faults
//! explicitly instead of calling them there.

use vstd::prelude::*;

verus! {

/// Mathematical model of a tape: the cell contents and the cursor position.
/// The position is an unbounded integer so that leftward excursions below
/// zero are representable.
#[verifier::ext_equal]
pub struct TapeModel {
    pub position: int,
    pub cells: Seq<i64>,
}

impl TapeModel {
    /// The tape a run starts from: one zero cell, cursor on it.
    pub open spec fn initial() -> TapeModel {
        TapeModel { position: 0, cells: seq![0i64] }
    }

    /// Well-formedness: at least one cell, the cursor never to the right of
    /// the last cell, and the cell count within the signed 64-bit range so
    /// that the cursor field below can mirror it.
    pub open spec fn inv(self) -> bool {
        &&& self.cells.len() >= 1
        &&& self.position < self.cells.len()
        &&& self.cells.len() <= i64::MAX
    }

    /// The cursor points at an existing cell.
    pub open spec fn cursor_readable(self) -> bool {
        0 <= self.position < self.cells.len()
    }

    /// The cell under the cursor.
    pub open spec fn current(self) -> i64 {
        self.cells[self.position]
    }

    /// Overwrite the cell under the cursor.
    pub open spec fn write(self, val: i64) -> TapeModel {
        TapeModel { position: self.position, cells: self.cells.update(self.position, val) }
    }

    /// Add one to the cell under the cursor, wrapping at the 64-bit boundary.
    pub open spec fn increment(self) -> TapeModel {
        self.write(wrapping_inc(self.current()))
    }

    /// Subtract one from the cell under the cursor, wrapping at the boundary.
    pub open spec fn decrement(self) -> TapeModel {
        self.write(wrapping_dec(self.current()))
    }

    /// Move the cursor one cell to the right, appending a single zero cell
    /// when the cursor would otherwise leave the tape.
    pub open spec fn move_right(self) -> TapeModel {
        TapeModel {
            position: self.position + 1,
            cells: if self.cells.len() <= self.position + 1 {
                self.cells.push(0i64)
            } else {
                self.cells
            },
        }
    }

    /// Move the cursor one cell to the left. The tape neither grows nor
    /// bounds-checks here; the position may become negative.
    pub open spec fn move_left(self) -> TapeModel {
        TapeModel { position: self.position - 1, cells: self.cells }
    }
}

/// One more, with the wraparound of 64-bit signed arithmetic.
pub open spec fn wrapping_inc(v: i64) -> i64 {
    if v == i64::MAX {
        i64::MIN
    } else {
        (v + 1) as i64
    }
}

/// One less, with the wraparound of 64-bit signed arithmetic.
pub open spec fn wrapping_dec(v: i64) -> i64 {
    if v == i64::MIN {
        i64::MAX
    } else {
        (v - 1) as i64
    }
}

/// The tape after `k` moves to the right.
pub open spec fn move_right_n(t: TapeModel, k: nat) -> TapeModel
    decreases k,
{
    if k == 0 {
        t
    } else {
        move_right_n(t, (k - 1) as nat).move_right()
    }
}

/// Tape growth is monotonic and minimal: `k` moves to the right from a fresh
/// tape, with no move to the left before them, leave exactly `k + 1` cells,
/// with the cursor on the last one.
pub proof fn lemma_tape_growth_minimal(k: nat)
    ensures
        move_right_n(TapeModel::initial(), k).cells.len() == k + 1,
        move_right_n(TapeModel::initial(), k).position == k,
    decreases k,
{
    if k > 0 {
        lemma_tape_growth_minimal((k - 1) as nat);
    }
}

/// Increment then decrement returns the current cell to its original value.
/// The round trip holds at the overflow boundary too, because both
/// operations wrap there.
pub proof fn lemma_increment_decrement_roundtrip(t: TapeModel)
    requires
        t.cursor_readable(),
    ensures
        t.increment().decrement() == t,
{
    assert(t.increment().decrement() =~= t);
}

/// The tape itself: cell storage and cursor position.
pub struct Tape {
    pub position: i64,
    pub thetape: Vec<i64>,
}

impl View for Tape {
    type V = TapeModel;

    open spec fn view(&self) -> TapeModel {
        TapeModel { position: self.position as int, cells: self.thetape@ }
    }
}

impl Tape {
    /// Well-formedness of the stored representation.
    pub open spec fn wf(self) -> bool {
        self@.inv()
    }

    /// A fresh tape: one zero cell, cursor at position zero.
    pub fn new() -> (t: Tape)
        ensures
            t@ == TapeModel::initial(),
            t.wf(),
    {
        let t = Tape { position: 0, thetape: vec![0i64] };
        proof {
            assert(t@.cells =~= seq![0i64]);
        }
        t
    }

    /// Read the cell under the cursor.
    pub fn get(&mut self) -> (r: i64)
        requires
            old(self).wf(),
            old(self)@.cursor_readable(),
        ensures
            *final(self) == *old(self),
            r == old(self)@.current(),
    {
        proof {
            assert(self.thetape.len() <= usize::MAX);
        }
        self.thetape[self.position as usize]
    }

    /// Overwrite the cell under the cursor.
    pub fn set(&mut self, val: i64)
        requires
            old(self).wf(),
            old(self)@.cursor_readable(),
        ensures
            final(self)@ == old(self)@.write(val),
            final(self).wf(),
    {
        proof {
            assert(self.thetape.len() <= usize::MAX);
        }
        let i: usize = self.position as usize;
        self.thetape.set(i, val);
    }

    /// Add one to the cell under the cursor, wrapping on overflow.
    pub fn inc(&mut self)
        requires
            old(self).wf(),
            old(self)@.cursor_readable(),
        ensures
            final(self)@ == old(self)@.increment(),
            final(self).wf(),
    {
        proof {
            assert(self.thetape.len() <= usize::MAX);
        }
        let i: usize = self.position as usize;
        let v: i64 = self.thetape[i];
        let w: i64 = if v == i64::MAX {
            i64::MIN
        } else {
            v + 1
        };
        self.thetape.set(i, w);
    }

    /// Subtract one from the cell under the cursor, wrapping on overflow.
    pub fn dec(&mut self)
        requires
            old(self).wf(),
            old(self)@.cursor_readable(),
        ensures
            final(self)@ == old(self)@.decrement(),
            final(self).wf(),
    {
        proof {
            assert(self.thetape.len() <= usize::MAX);
        }
        let i: usize = self.position as usize;
        let v: i64 = self.thetape[i];
        let w: i64 = if v == i64::MIN {
            i64::MAX
        } else {
            v - 1
        };
        self.thetape.set(i, w);
    }

    /// Move the cursor one cell to the right, growing the tape by exactly one
    /// zero cell when the cursor passes the current end. The bound on the
    /// cursor keeps the cell count within the range the cursor field spans.
    pub fn advance(&mut self)
        requires
            old(self).wf(),
            old(self)@.position + 2 <= i64::MAX,
        ensures
            final(self)@ == old(self)@.move_right(),
            final(self).wf(),
    {
        self.position = self.position + 1;
        let n: usize = self.thetape.len();
        if self.position >= 0 && (n as i64) <= self.position {
            self.thetape.push(0);
        }
    }

    /// Move the cursor one cell to the left. The position may go negative;
    /// the lower bound only keeps the cursor field from underflowing.
    pub fn devance(&mut self)
        requires
            old(self).wf(),
            old(self)@.position > i64::MIN,
        ensures
            final(self)@ == old(self)@.move_left(),
            final(self).wf(),
    {
        self.position = self.position - 1;
    }
}

} // verus!
