use vstd::prelude::*;

verus! {

/// Largest value a cell holds; cell arithmetic wraps modulo `CELL_SIZE_LIMIT + 1`.
pub const CELL_SIZE_LIMIT: u32 = 255;

/// Number of cells on the tape.
pub const ARRAY_SIZE_LIMIT: usize = 30000;

/// The mathematical picture of the tape: its cells and the pointer.
pub struct TapeView {
    pub cells: Seq<u32>,
    pub ptr: int,
}

/// A cell value plus one, wrapping from `CELL_SIZE_LIMIT` to zero.
pub open spec fn inc_cell(v: u32) -> u32 {
    if v >= CELL_SIZE_LIMIT {
        0
    } else {
        (v + 1) as u32
    }
}

/// A cell value minus one, wrapping from zero to `CELL_SIZE_LIMIT`.
pub open spec fn dec_cell(v: u32) -> u32 {
    if v == 0 {
        CELL_SIZE_LIMIT
    } else {
        (v - 1) as u32
    }
}

impl TapeView {
    /// Pointer in range, tape of the configured length, every cell within the cell range.
    pub open spec fn wf(self) -> bool {
        &&& self.cells.len() == ARRAY_SIZE_LIMIT
        &&& 0 <= self.ptr < ARRAY_SIZE_LIMIT
        &&& forall|i: int| 0 <= i < self.cells.len() ==> #[trigger] self.cells[i] <= CELL_SIZE_LIMIT
    }

    pub open spec fn read(self) -> u32 {
        self.cells[self.ptr]
    }

    pub open spec fn move_left(self) -> TapeView {
        TapeView {
            ptr: if self.ptr == 0 { ARRAY_SIZE_LIMIT - 1 } else { self.ptr - 1 },
            ..self
        }
    }

    pub open spec fn move_right(self) -> TapeView {
        TapeView {
            ptr: if self.ptr + 1 >= ARRAY_SIZE_LIMIT { 0 } else { self.ptr + 1 },
            ..self
        }
    }

    pub open spec fn increment(self) -> TapeView {
        TapeView { cells: self.cells.update(self.ptr, inc_cell(self.read())), ..self }
    }

    pub open spec fn decrement(self) -> TapeView {
        TapeView { cells: self.cells.update(self.ptr, dec_cell(self.read())), ..self }
    }

    pub open spec fn write(self, b: u8) -> TapeView {
        TapeView { cells: self.cells.update(self.ptr, b as u32), ..self }
    }
}

/// Applies a sequence of pointer moves in order; `true` moves right, `false` moves left.
pub open spec fn apply_moves(t: TapeView, moves: Seq<bool>) -> TapeView
    decreases moves.len(),
{
    if moves.len() == 0 {
        t
    } else {
        let before = apply_moves(t, moves.drop_last());
        if moves.last() {
            before.move_right()
        } else {
            before.move_left()
        }
    }
}

/// Net displacement of a sequence of moves: moves right minus moves left.
pub open spec fn net_displacement(moves: Seq<bool>) -> int
    decreases moves.len(),
{
    if moves.len() == 0 {
        0
    } else {
        net_displacement(moves.drop_last()) + if moves.last() { 1int } else { -1int }
    }
}

/// Any run of pointer moves leaves the cells alone, keeps the tape well formed, and puts the
/// pointer at the start position plus the net displacement, modulo the tape length.
pub proof fn lemma_moves_wrap(t: TapeView, moves: Seq<bool>)
    requires
        t.wf(),
    ensures
        apply_moves(t, moves).wf(),
        apply_moves(t, moves).cells == t.cells,
        apply_moves(t, moves).ptr == (t.ptr + net_displacement(moves)) % (ARRAY_SIZE_LIMIT as int),
    decreases moves.len(),
{
    let n = ARRAY_SIZE_LIMIT as int;
    if moves.len() == 0 {
        vstd::arithmetic::div_mod::lemma_small_mod(t.ptr as nat, n as nat);
    } else {
        lemma_moves_wrap(t, moves.drop_last());
        let before = apply_moves(t, moves.drop_last());
        let d = net_displacement(moves.drop_last());
        let step: int = if moves.last() { 1 } else { -1 };
        vstd::arithmetic::div_mod::lemma_add_mod_noop(t.ptr + d, step, n);
        vstd::arithmetic::div_mod::lemma_mod_bound(step, n);
        vstd::arithmetic::div_mod::lemma_mod_bound(before.ptr + step, n);
        if moves.last() {
            vstd::arithmetic::div_mod::lemma_small_mod(1, n as nat);
            if before.ptr + 1 < n {
                vstd::arithmetic::div_mod::lemma_small_mod((before.ptr + 1) as nat, n as nat);
            } else {
                vstd::arithmetic::div_mod::lemma_mod_self_0(n);
            }
        } else {
            vstd::arithmetic::div_mod::lemma_mod_neg_neg(1, n);
            if before.ptr != 0 {
                vstd::arithmetic::div_mod::lemma_small_mod((before.ptr - 1) as nat, n as nat);
            }
        }
    }
}

/// Incrementing and then decrementing the current cell gives back the tape it started from,
/// for every cell value, the boundaries zero and `CELL_SIZE_LIMIT` included; and the other way round.
pub proof fn lemma_increment_decrement(t: TapeView)
    requires
        t.wf(),
    ensures
        t.increment().decrement() == t,
        t.decrement().increment() == t,
        t.increment().wf(),
        t.decrement().wf(),
{
    assert(t.increment().decrement().cells =~= t.cells);
    assert(t.decrement().increment().cells =~= t.cells);
}

/// A fixed-length circular tape of cells with a pointer into it.
pub struct Memory {
    bytearray: Vec<u32>,
    idx: usize,
}

impl View for Memory {
    type V = TapeView;

    closed spec fn view(&self) -> TapeView {
        TapeView { cells: self.bytearray@, ptr: self.idx as int }
    }
}

impl Memory {
    /// An all-zero tape with the pointer on the first cell.
    pub fn new() -> (r: Memory)
        ensures
            r@.wf(),
            r@.ptr == 0,
            r@.cells == Seq::new(ARRAY_SIZE_LIMIT as nat, |i: int| 0u32),
    {
        let mut bytearray: Vec<u32> = Vec::new();
        let mut i: usize = 0;
        while i < ARRAY_SIZE_LIMIT
            invariant
                i <= ARRAY_SIZE_LIMIT,
                bytearray@ == Seq::new(i as nat, |k: int| 0u32),
            decreases ARRAY_SIZE_LIMIT - i,
        {
            bytearray.push(0);
            i += 1;
            assert(bytearray@ =~= Seq::new(i as nat, |k: int| 0u32));
        }
        Memory { bytearray, idx: 0 }
    }

    /// Brings a pointer that ran one past the end back to the first cell.
    fn keep_range(&mut self)
        ensures
            final(self).bytearray == old(self).bytearray,
            final(self).idx == if old(self).idx >= ARRAY_SIZE_LIMIT { 0 } else { old(self).idx },
    {
        if self.idx >= ARRAY_SIZE_LIMIT {
            self.idx = 0;
        }
    }

    /// Moves the pointer one cell left, wrapping from the first cell to the last.
    pub fn move_left(&mut self)
        requires
            old(self)@.wf(),
        ensures
            final(self)@ == old(self)@.move_left(),
            final(self)@.wf(),
    {
        if self.idx == 0 {
            self.idx = ARRAY_SIZE_LIMIT - 1;
        } else {
            self.idx -= 1;
        }
        self.keep_range()
    }

    /// Moves the pointer one cell right, wrapping from the last cell to the first.
    pub fn move_right(&mut self)
        requires
            old(self)@.wf(),
        ensures
            final(self)@ == old(self)@.move_right(),
            final(self)@.wf(),
    {
        self.idx += 1;
        self.keep_range()
    }

    /// Stores an input byte in the current cell.
    pub fn accept_in(&mut self, chr: u8)
        requires
            old(self)@.wf(),
        ensures
            final(self)@ == old(self)@.write(chr),
            final(self)@.wf(),
    {
        self.bytearray.set(self.idx, chr as u32);
    }

    /// The current cell's value, as handed to the output.
    pub fn give_out(&self) -> (r: u32)
        requires
            self@.wf(),
        ensures
            r == self@.read(),
            r <= CELL_SIZE_LIMIT,
    {
        self.bytearray[self.idx]
    }

    /// Adds one to the current cell, wrapping from `CELL_SIZE_LIMIT` to zero.
    pub fn increment(&mut self)
        requires
            old(self)@.wf(),
        ensures
            final(self)@ == old(self)@.increment(),
            final(self)@.wf(),
    {
        if self.bytearray[self.idx] >= CELL_SIZE_LIMIT {
            self.bytearray.set(self.idx, 0);
        } else {
            let v = self.bytearray[self.idx] + 1;
            self.bytearray.set(self.idx, v);
        }
    }

    /// Subtracts one from the current cell, wrapping from zero to `CELL_SIZE_LIMIT`.
    pub fn decrement(&mut self)
        requires
            old(self)@.wf(),
        ensures
            final(self)@ == old(self)@.decrement(),
            final(self)@.wf(),
    {
        if self.bytearray[self.idx] == 0 {
            self.bytearray.set(self.idx, CELL_SIZE_LIMIT);
        } else {
            let v = self.bytearray[self.idx] - 1;
            self.bytearray.set(self.idx, v);
        }
    }

    /// The current cell's value, as tested by the loop instructions.
    pub fn get_value(&self) -> (r: u32)
        requires
            self@.wf(),
        ensures
            r == self@.read(),
            r <= CELL_SIZE_LIMIT,
    {
        self.bytearray[self.idx]
    }

    /// The pointer's position.
    pub fn pointer(&self) -> (r: usize)
        ensures
            r == self@.ptr,
    {
        self.idx
    }

    /// The value of cell `i`.
    pub fn cell(&self, i: usize) -> (r: u32)
        requires
            i < self@.cells.len(),
        ensures
            r == self@.cells[i as int],
    {
        self.bytearray[i]
    }
}

} // verus!
