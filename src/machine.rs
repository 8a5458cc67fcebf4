use vstd::prelude::*;
use vstd::string::StrSliceExecFns;

use crate::memory::{apply_moves, lemma_moves_wrap, net_displacement, Memory, TapeView, ARRAY_SIZE_LIMIT};
use crate::program::{parse, parsed, Operations};
use crate::InterpError;

verus! {

/// How a forward scan's nesting counter changes at an instruction.
pub open spec fn open_delta(op: Operations) -> int {
    match op {
        Operations::BracketLeft => 1,
        Operations::BracketRight => -1,
        _ => 0,
    }
}

/// Opening minus closing brackets in `ops[lo..hi]`.
pub open spec fn open_minus_close(ops: Seq<Operations>, lo: int, hi: int) -> int
    decreases hi - lo,
{
    if hi <= lo {
        0
    } else {
        open_minus_close(ops, lo, hi - 1) + open_delta(ops[hi - 1])
    }
}

/// Closing minus opening brackets in `ops[lo..hi]`, counted from the high end.
pub open spec fn close_minus_open(ops: Seq<Operations>, lo: int, hi: int) -> int
    decreases hi - lo,
{
    if hi <= lo {
        0
    } else {
        close_minus_open(ops, lo + 1, hi) - open_delta(ops[lo])
    }
}

/// `j` is the `]` that closes the bracket at `i`: the first `]` after `i` at which the
/// brackets strictly between balance.
pub open spec fn is_fwd_match(ops: Seq<Operations>, i: int, j: int) -> bool {
    &&& i < j < ops.len()
    &&& ops[j] == Operations::BracketRight
    &&& open_minus_close(ops, i + 1, j) == 0
    &&& forall|m: int|
        i < m < j ==> !(ops[m] == Operations::BracketRight && #[trigger] open_minus_close(ops, i + 1, m) == 0)
}

/// `j` is the `[` that opens the bracket at `i`: the first `[` before `i`, scanning backward,
/// at which the brackets strictly between balance.
pub open spec fn is_bwd_match(ops: Seq<Operations>, i: int, j: int) -> bool {
    &&& 0 <= j < i
    &&& ops[j] == Operations::BracketLeft
    &&& close_minus_open(ops, j + 1, i) == 0
    &&& forall|m: int|
        j < m < i ==> !(ops[m] == Operations::BracketLeft && #[trigger] close_minus_open(ops, m + 1, i) == 0)
}

/// A bracket has at most one forward match.
pub proof fn lemma_fwd_match_unique(ops: Seq<Operations>, i: int, j1: int, j2: int)
    requires
        is_fwd_match(ops, i, j1),
        is_fwd_match(ops, i, j2),
    ensures
        j1 == j2,
{
    if j1 < j2 {
        assert(open_minus_close(ops, i + 1, j1) == 0);
    } else if j2 < j1 {
        assert(open_minus_close(ops, i + 1, j2) == 0);
    }
}

/// A bracket has at most one backward match.
pub proof fn lemma_bwd_match_unique(ops: Seq<Operations>, i: int, j1: int, j2: int)
    requires
        is_bwd_match(ops, i, j1),
        is_bwd_match(ops, i, j2),
    ensures
        j1 == j2,
{
    if j1 < j2 {
        assert(close_minus_open(ops, j2 + 1, i) == 0);
    } else if j2 < j1 {
        assert(close_minus_open(ops, j1 + 1, i) == 0);
    }
}

/// The mathematical picture of a running machine.
pub struct MachineView {
    pub ops: Seq<Operations>,
    pub ip: int,
    pub tape: TapeView,
    pub input: Seq<u8>,
    pub cursor: int,
}

impl MachineView {
    /// A well-formed tape and the instruction pointer at most one past the program.
    pub open spec fn wf(self) -> bool {
        &&& self.tape.wf()
        &&& 0 <= self.ip <= self.ops.len()
        &&& 0 <= self.cursor
    }

    /// The same machine with the instruction pointer at `ip`.
    pub open spec fn with_ip(self, ip: int) -> MachineView {
        MachineView { ip, ..self }
    }

    /// The run is over once the instruction pointer is past the last instruction.
    pub open spec fn halted(self) -> bool {
        self.ip >= self.ops.len()
    }

    /// One fetch-execute step from a running state: the next state and the byte written out,
    /// if any; or the failure to find a matching bracket.
    pub open spec fn step(self) -> Result<(MachineView, Option<u8>), InterpError> {
        let next = self.with_ip(self.ip + 1);
        match self.ops[self.ip] {
            Operations::Add => Ok((MachineView { tape: self.tape.increment(), ..next }, None)),
            Operations::Subtract => Ok((MachineView { tape: self.tape.decrement(), ..next }, None)),
            Operations::MoveLeft => Ok((MachineView { tape: self.tape.move_left(), ..next }, None)),
            Operations::MoveRight => Ok((MachineView { tape: self.tape.move_right(), ..next }, None)),
            Operations::Input => if self.cursor < self.input.len() {
                Ok((MachineView { tape: self.tape.write(self.input[self.cursor]), cursor: self.cursor + 1, ..next }, None))
            } else {
                // input used up: a zero byte, and the cursor still moves on
                Ok((MachineView { tape: self.tape.write(0), cursor: self.cursor + 1, ..next }, None))
            },
            Operations::Output => Ok((next, Some(self.tape.read() as u8))),
            Operations::BracketLeft => if self.tape.read() != 0 {
                Ok((next, None))
            } else if exists|j: int| is_fwd_match(self.ops, self.ip, j) {
                let j = choose|j: int| is_fwd_match(self.ops, self.ip, j);
                Ok((self.with_ip(j + 1), None))
            } else {
                Err(InterpError::UnbalancedBracket)
            },
            Operations::BracketRight => if self.tape.read() == 0 {
                Ok((next, None))
            } else if exists|j: int| is_bwd_match(self.ops, self.ip, j) {
                let j = choose|j: int| is_bwd_match(self.ops, self.ip, j);
                Ok((self.with_ip(j + 1), None))
            } else {
                Err(InterpError::UnbalancedBracket)
            },
            Operations::Comment(_) => Ok((next, None)),
        }
    }
}

/// At a `[` whose current cell is zero the loop body runs zero times: one step takes the
/// instruction pointer to just past the matching `]`, and leaves tape, input and output alone.
pub proof fn lemma_zero_cell_skips_loop(s: MachineView, j: int)
    requires
        s.wf(),
        !s.halted(),
        s.ops[s.ip] == Operations::BracketLeft,
        s.tape.read() == 0,
        is_fwd_match(s.ops, s.ip, j),
    ensures
        s.step() == Ok::<(MachineView, Option<u8>), InterpError>((s.with_ip(j + 1), None)),
        s.with_ip(j + 1).wf(),
{
    let c = choose|c: int| is_fwd_match(s.ops, s.ip, c);
    lemma_fwd_match_unique(s.ops, s.ip, j, c);
}

proof fn lemma_open_minus_close_front(ops: Seq<Operations>, lo: int, hi: int)
    requires
        lo < hi,
    ensures
        open_minus_close(ops, lo, hi) == open_delta(ops[lo]) + open_minus_close(ops, lo + 1, hi),
    decreases hi - lo,
{
    if lo + 1 < hi {
        lemma_open_minus_close_front(ops, lo, hi - 1);
    } else {
        assert(open_minus_close(ops, lo, hi - 1) == 0);
        assert(open_minus_close(ops, lo + 1, hi) == 0);
    }
}

proof fn lemma_close_minus_open_negates(ops: Seq<Operations>, lo: int, hi: int)
    ensures
        close_minus_open(ops, lo, hi) == -open_minus_close(ops, lo, hi),
    decreases hi - lo,
{
    if lo < hi {
        lemma_close_minus_open_negates(ops, lo + 1, hi);
        lemma_open_minus_close_front(ops, lo, hi);
    }
}

proof fn lemma_open_minus_close_split(ops: Seq<Operations>, a: int, b: int, c: int)
    requires
        a <= b <= c,
    ensures
        open_minus_close(ops, a, c) == open_minus_close(ops, a, b) + open_minus_close(ops, b, c),
    decreases c - b,
{
    if b < c {
        lemma_open_minus_close_split(ops, a, b, c - 1);
    }
}

/// Up to its match, no prefix of a bracket's body closes more brackets than it opens.
proof fn lemma_fwd_prefix_nonneg(ops: Seq<Operations>, i: int, j: int, m: int)
    requires
        is_fwd_match(ops, i, j),
        i + 1 <= m <= j,
    ensures
        open_minus_close(ops, i + 1, m) >= 0,
    decreases m - i,
{
    if m > i + 1 {
        lemma_fwd_prefix_nonneg(ops, i, j, m - 1);
        assert(!(ops[m - 1] == Operations::BracketRight && open_minus_close(ops, i + 1, m - 1) == 0));
    }
}

/// The `]` that closes a `[` opens, scanning backward, at that same `[`.
pub proof fn lemma_fwd_match_is_bwd_match(ops: Seq<Operations>, i: int, j: int)
    requires
        0 <= i,
        ops[i] == Operations::BracketLeft,
        is_fwd_match(ops, i, j),
    ensures
        is_bwd_match(ops, j, i),
{
    lemma_close_minus_open_negates(ops, i + 1, j);
    assert forall|m: int| i < m < j implies !(ops[m] == Operations::BracketLeft && #[trigger] close_minus_open(ops, m + 1, j) == 0) by {
        lemma_close_minus_open_negates(ops, m + 1, j);
        lemma_open_minus_close_split(ops, i + 1, m + 1, j);
        lemma_open_minus_close_split(ops, i + 1, m, m + 1);
        lemma_fwd_prefix_nonneg(ops, i, j, m);
    }
}

/// At the `]` of a loop whose current cell is nonzero, one step goes back to the first
/// instruction of the loop body, just past the matching `[`; so a body that leaves the cell
/// nonzero runs again.
pub proof fn lemma_nonzero_cell_repeats_loop(s: MachineView, i: int)
    requires
        s.wf(),
        0 <= i,
        s.ops[i] == Operations::BracketLeft,
        is_fwd_match(s.ops, i, s.ip),
        s.tape.read() != 0,
    ensures
        s.step() == Ok::<(MachineView, Option<u8>), InterpError>((s.with_ip(i + 1), None)),
        s.with_ip(i + 1).wf(),
{
    lemma_fwd_match_is_bwd_match(s.ops, i, s.ip);
    let c = choose|c: int| is_bwd_match(s.ops, s.ip, c);
    lemma_bwd_match_unique(s.ops, s.ip, i, c);
}

/// The state after `n` steps; a failed step leaves the state as it was.
pub open spec fn steps(s: MachineView, n: nat) -> MachineView
    decreases n,
{
    if n == 0 {
        s
    } else {
        let before = steps(s, (n - 1) as nat);
        match before.step() {
            Ok((after, _)) => after,
            Err(_) => before,
        }
    }
}

/// The pointer moves of a program, `true` for a move right.
pub open spec fn moves_of(ops: Seq<Operations>) -> Seq<bool> {
    ops.map_values(|op: Operations| op == Operations::MoveRight)
}

pub open spec fn only_moves(ops: Seq<Operations>) -> bool {
    forall|k: int|
        0 <= k < ops.len() ==> #[trigger] ops[k] == Operations::MoveLeft || ops[k] == Operations::MoveRight
}

proof fn lemma_move_program_prefix(s: MachineView, n: nat)
    requires
        s.wf(),
        s.ip == 0,
        only_moves(s.ops),
        n <= s.ops.len(),
    ensures
        steps(s, n).wf(),
        steps(s, n).ip == n,
        steps(s, n).ops == s.ops,
        steps(s, n).input == s.input,
        steps(s, n).cursor == s.cursor,
        steps(s, n).tape == apply_moves(s.tape, moves_of(s.ops).take(n as int)),
    decreases n,
{
    if n > 0 {
        let k = (n - 1) as nat;
        lemma_move_program_prefix(s, k);
        lemma_moves_wrap(s.tape, moves_of(s.ops).take(k as int));
        assert(moves_of(s.ops).take(n as int).drop_last() =~= moves_of(s.ops).take(k as int));
        assert(s.ops[k as int] == Operations::MoveLeft || s.ops[k as int] == Operations::MoveRight);
    }
}

/// A program made only of pointer moves, run from its first instruction, halts after one step
/// per instruction with the cells untouched and the pointer at its start position plus the net
/// displacement (moves right minus moves left), modulo the tape length.
pub proof fn lemma_move_program(s: MachineView)
    requires
        s.wf(),
        s.ip == 0,
        only_moves(s.ops),
    ensures
        steps(s, s.ops.len()).halted(),
        steps(s, s.ops.len()).wf(),
        steps(s, s.ops.len()).tape.cells == s.tape.cells,
        steps(s, s.ops.len()).tape.ptr == (s.tape.ptr + net_displacement(moves_of(s.ops))) % (
        ARRAY_SIZE_LIMIT as int),
{
    lemma_move_program_prefix(s, s.ops.len());
    assert(moves_of(s.ops).take(s.ops.len() as int) =~= moves_of(s.ops));
    lemma_moves_wrap(s.tape, moves_of(s.ops));
}

/// A program being run: its instructions, the instruction pointer, the tape, and the input
/// with its read cursor.
pub struct InnerState {
    operations: Vec<Operations>,
    idx: usize,
    memory: Memory,
    input_str: Vec<u8>,
    input_idx: usize,
}

impl View for InnerState {
    type V = MachineView;

    closed spec fn view(&self) -> MachineView {
        MachineView {
            ops: self.operations@,
            ip: self.idx as int,
            tape: self.memory@,
            input: self.input_str@,
            cursor: self.input_idx as int,
        }
    }
}

impl InnerState {
    /// Index of the `]` that closes the `[` at the instruction pointer.
    pub fn get_next_rbrack(&self) -> (r: Result<usize, InterpError>)
        requires
            self@.wf(),
            !self@.halted(),
        ensures
            match r {
                Ok(j) => is_fwd_match(self@.ops, self@.ip, j as int),
                Err(e) => e == InterpError::UnbalancedBracket
                    && forall|j: int| !is_fwd_match(self@.ops, self@.ip, j),
            },
    {
        let ghost ops = self@.ops;
        let ghost i = self@.ip;
        let n = self.operations.len();
        let mut idx2: usize = self.idx + 1;
        let mut othercount: usize = 0;
        while idx2 < n
            invariant
                ops == self.operations@,
                n == ops.len(),
                i == self.idx,
                0 <= i < ops.len(),
                i + 1 <= idx2 <= ops.len(),
                othercount as int == open_minus_close(ops, i + 1, idx2 as int),
                othercount <= idx2 - (i + 1),
                forall|m: int|
                    i < m < idx2 ==> !(ops[m] == Operations::BracketRight && #[trigger] open_minus_close(ops, i + 1, m) == 0),
            decreases ops.len() - idx2,
        {
            match self.operations[idx2] {
                Operations::BracketRight => {
                    if othercount == 0 {
                        return Ok(idx2);
                    } else {
                        othercount -= 1;
                    }
                },
                Operations::BracketLeft => {
                    othercount += 1;
                },
                _ => {},
            }
            idx2 += 1;
        }
        Err(InterpError::UnbalancedBracket)
    }

    /// Index of the `[` that opens the `]` at the instruction pointer.
    pub fn get_prev_lbrack(&self) -> (r: Result<usize, InterpError>)
        requires
            self@.wf(),
            !self@.halted(),
        ensures
            match r {
                Ok(j) => is_bwd_match(self@.ops, self@.ip, j as int),
                Err(e) => e == InterpError::UnbalancedBracket
                    && forall|j: int| !is_bwd_match(self@.ops, self@.ip, j),
            },
    {
        let ghost ops = self@.ops;
        let ghost i = self@.ip;
        let mut k: usize = self.idx;
        let mut othercount: usize = 0;
        while k > 0
            invariant
                ops == self.operations@,
                i == self.idx,
                0 <= i < ops.len(),
                k <= i,
                othercount as int == close_minus_open(ops, k as int, i),
                othercount <= i - k,
                forall|m: int|
                    k <= m < i ==> !(ops[m] == Operations::BracketLeft && #[trigger] close_minus_open(ops, m + 1, i) == 0),
            decreases k,
        {
            let idx2 = k - 1;
            match self.operations[idx2] {
                Operations::BracketLeft => {
                    if othercount == 0 {
                        return Ok(idx2);
                    } else {
                        othercount -= 1;
                    }
                },
                Operations::BracketRight => {
                    othercount += 1;
                },
                _ => {},
            }
            k = idx2;
        }
        Err(InterpError::UnbalancedBracket)
    }

    /// A machine at the start of `ops` with an all-zero tape, reading the UTF-8 bytes of
    /// `input_str`.
    pub fn new(ops: Vec<char>, input_str: String) -> (r: InnerState)
        ensures
            r@.wf(),
            r@.ops == parsed(ops@),
            r@.ip == 0,
            r@.tape.ptr == 0,
            r@.tape.cells == Seq::new(ARRAY_SIZE_LIMIT as nat, |i: int| 0u32),
            r@.input == vstd::utf8::encode_utf8(input_str@),
            r@.cursor == 0,
    {
        let operations = parse(&ops);
        InnerState {
            operations,
            idx: 0,
            memory: Memory::new(),
            input_str: input_str.as_str().as_bytes_vec(),
            input_idx: 0,
        }
    }

    /// Whether the instruction pointer has run past the end of the program.
    pub fn is_halted(&self) -> (r: bool)
        ensures
            r == self@.halted(),
    {
        self.idx >= self.operations.len()
    }

    /// The tape.
    pub fn memory(&self) -> (r: &Memory)
        ensures
            r@ == self@.tape,
    {
        &self.memory
    }

    /// How many input reads have run so far.
    pub fn input_cursor(&self) -> (r: usize)
        ensures
            r == self@.cursor,
    {
        self.input_idx
    }

    /// The instruction pointer.
    pub fn instruction_pointer(&self) -> (r: usize)
        ensures
            r == self@.ip,
    {
        self.idx
    }

    /// Runs the instruction at the instruction pointer; returns the byte it writes out, if any.
    /// On an unbalanced bracket the state is left as it was.
    pub fn execute(&mut self) -> (r: Result<Option<u8>, InterpError>)
        requires
            old(self)@.wf(),
            !old(self)@.halted(),
            old(self)@.cursor < usize::MAX,
        ensures
            final(self)@.wf(),
            match r {
                Ok(out) => old(self)@.step() == Ok::<(MachineView, Option<u8>), InterpError>((final(self)@, out)),
                Err(e) => old(self)@.step() == Err::<(MachineView, Option<u8>), InterpError>(e)
                    && final(self)@ == old(self)@,
            },
    {
        let n = self.operations.len();
        let idx2 = self.idx;
        let oper = self.operations[idx2];
        let mut out: Option<u8> = None;
        match oper {
            Operations::Add => self.memory.increment(),
            Operations::Subtract => self.memory.decrement(),
            Operations::MoveLeft => self.memory.move_left(),
            Operations::MoveRight => self.memory.move_right(),
            Operations::Input => {
                if self.input_idx < self.input_str.len() {
                    self.memory.accept_in(self.input_str[self.input_idx]);
                } else {
                    self.memory.accept_in(0);
                }
                self.input_idx += 1;
            },
            Operations::Output => {
                out = Some(self.memory.give_out() as u8);
            },
            Operations::BracketLeft => {
                if self.memory.get_value() == 0 {
                    match self.get_next_rbrack() {
                        Ok(j) => {
                            proof {
                                let ghost c = choose|c: int| is_fwd_match(old(self)@.ops, old(self)@.ip, c);
                                lemma_fwd_match_unique(old(self)@.ops, old(self)@.ip, j as int, c);
                            }
                            self.idx = j;
                        },
                        Err(e) => return Err(e),
                    }
                }
            },
            Operations::BracketRight => {
                if self.memory.get_value() != 0 {
                    match self.get_prev_lbrack() {
                        Ok(j) => {
                            proof {
                                let ghost c = choose|c: int| is_bwd_match(old(self)@.ops, old(self)@.ip, c);
                                lemma_bwd_match_unique(old(self)@.ops, old(self)@.ip, j as int, c);
                            }
                            self.idx = j;
                        },
                        Err(e) => return Err(e),
                    }
                }
            },
            Operations::Comment(_) => {},
        }
        self.idx += 1;
        Ok(out)
    }
}

} // verus!
