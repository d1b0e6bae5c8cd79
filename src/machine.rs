//! The mathematical model of the machine: its state, the effect of one
//! instruction, and bracket matching at equal nesting depth.
use vstd::prelude::*;

verus! {

/// Whether `c` is one of the eight instruction symbols.
pub open spec fn is_instruction(c: char) -> bool {
    c == '>' || c == '<' || c == '+' || c == '-' || c == '.' || c == ',' || c == '['
        || c == ']'
}

/// The program kept from source text: its instruction symbols, in order.
pub open spec fn sanitize(text: Seq<char>) -> Seq<char> {
    text.filter(|c: char| is_instruction(c))
}

/// How a symbol changes the bracket nesting depth.
pub open spec fn depth_change(c: char) -> int {
    if c == '[' {
        1
    } else if c == ']' {
        -1
    } else {
        0
    }
}


/// The net nesting depth of `p[lo..hi]`: opening brackets minus closing ones.
pub open spec fn nesting(p: Seq<char>, lo: int, hi: int) -> int
    decreases hi - lo,
{
    if hi <= lo {
        0
    } else {
        nesting(p, lo, hi - 1) + depth_change(p[hi - 1])
    }
}

/// `p[j]` is the `]` that matches the `[` at `p[i]`: the depth counted from
/// `i` stays positive strictly before `j` and comes back to zero at `j`.
pub open spec fn closes_at(p: Seq<char>, i: int, j: int) -> bool {
    &&& 0 <= i < j < p.len()
    &&& nesting(p, i, j + 1) == 0
    &&& forall|k: int| i < k <= j ==> #[trigger] nesting(p, i, k) > 0
}

/// `p[j]` is the `[` that matches the `]` at `p[i]`: the depth counted
/// backward from `i` stays negative strictly after `j` and is zero at `j`.
pub open spec fn opens_at(p: Seq<char>, j: int, i: int) -> bool {
    &&& 0 <= j < i < p.len()
    &&& nesting(p, j, i + 1) == 0
    &&& forall|k: int| j < k <= i ==> #[trigger] nesting(p, k, i + 1) < 0
}

/// The `[` at `i` has a matching `]`.
pub open spec fn has_close(p: Seq<char>, i: int) -> bool {
    exists|j: int| closes_at(p, i, j)
}

/// The `]` at `i` has a matching `[`.
pub open spec fn has_open(p: Seq<char>, i: int) -> bool {
    exists|j: int| opens_at(p, j, i)
}

/// The position of the `]` matching the `[` at `i`.
pub open spec fn close_of(p: Seq<char>, i: int) -> int {
    choose|j: int| closes_at(p, i, j)
}

/// The position of the `[` matching the `]` at `i`.
pub open spec fn open_of(p: Seq<char>, i: int) -> int {
    choose|j: int| opens_at(p, j, i)
}

/// The whole state of a run: program, tape, both pointers, the input not
/// yet read and the output written so far.
pub struct Machine {
    pub prog: Seq<char>,
    pub tape: Seq<u8>,
    pub dp: int,
    pub ip: int,
    pub input: Seq<u8>,
    pub output: Seq<u8>,
}

impl Machine {
    /// Both pointers in range: `dp` on a cell, `ip` on an instruction or at the end.
    pub open spec fn valid(self) -> bool {
        &&& 0 <= self.dp < self.tape.len()
        &&& 0 <= self.ip <= self.prog.len()
    }

    /// The instruction pointer is past the last instruction.
    pub open spec fn halted(self) -> bool {
        self.ip >= self.prog.len()
    }

    /// The instruction at `ip`.
    pub open spec fn current(self) -> char {
        self.prog[self.ip]
    }

    /// The cell under `dp`.
    pub open spec fn cell(self) -> u8 {
        self.tape[self.dp]
    }

    /// The next step keeps `dp` on the tape and finds every bracket it jumps to.
    pub open spec fn can_step(self) -> bool {
        !self.halted() ==> {
            &&& self.current() == '>' ==> self.dp + 1 < self.tape.len()
            &&& self.current() == '<' ==> self.dp > 0
            &&& (self.current() == '[' && self.cell() == 0) ==> has_close(self.prog, self.ip)
            &&& (self.current() == ']' && self.cell() != 0) ==> has_open(self.prog, self.ip)
        }
    }

    /// The same state with the instruction pointer at `ip`.
    pub open spec fn with_ip(self, ip: int) -> Machine {
        Machine { ip, ..self }
    }

    /// The same state with the current cell set to `v`.
    pub open spec fn with_tape_cell(self, v: u8) -> Machine {
        Machine { tape: self.tape.update(self.dp, v), ..self }
    }

    /// The same state with the current cell set to `v` and `ip` advanced by one.
    pub open spec fn store(self, v: u8) -> Machine {
        Machine { tape: self.tape.update(self.dp, v), ip: self.ip + 1, ..self }
    }

    /// One instruction; a halted machine stays as it is. `eof` is the byte
    /// stored by `,` when no input is left.
    pub open spec fn next(self, eof: u8) -> Machine {
        if self.halted() {
            self
        } else {
            let c = self.current();
            let v = self.cell();
            if c == '>' {
                Machine { dp: self.dp + 1, ip: self.ip + 1, ..self }
            } else if c == '<' {
                Machine { dp: self.dp - 1, ip: self.ip + 1, ..self }
            } else if c == '+' {
                self.store(((v + 1) % 256) as u8)
            } else if c == '-' {
                self.store(((v + 255) % 256) as u8)
            } else if c == '.' {
                Machine { output: self.output.push(v), ip: self.ip + 1, ..self }
            } else if c == ',' {
                if self.input.len() > 0 {
                    Machine { input: self.input.drop_first(), ..self.store(self.input[0]) }
                } else {
                    self.store(eof)
                }
            } else if c == '[' && v == 0 {
                self.with_ip(close_of(self.prog, self.ip) + 1)
            } else if c == ']' && v != 0 {
                self.with_ip(open_of(self.prog, self.ip) + 1)
            } else {
                self.with_ip(self.ip + 1)
            }
        }
    }

    /// The state after `n` steps.
    pub open spec fn run(self, n: nat, eof: u8) -> Machine
        decreases n,
    {
        if n == 0 {
            self
        } else {
            self.next(eof).run((n - 1) as nat, eof)
        }
    }
}


/// Depth can be counted from the front as well as from the back.
pub proof fn lemma_nesting_front(p: Seq<char>, lo: int, hi: int)
    requires
        lo < hi,
    ensures
        nesting(p, lo, hi) == depth_change(p[lo]) + nesting(p, lo + 1, hi),
    decreases hi - lo,
{
    if lo + 1 < hi {
        lemma_nesting_front(p, lo, hi - 1);
    } else {
        assert(nesting(p, lo, lo) == 0);
        assert(nesting(p, lo + 1, hi) == 0);
    }
}

/// A `[` has at most one matching `]`.
pub proof fn lemma_close_unique(p: Seq<char>, i: int, j1: int, j2: int)
    requires
        closes_at(p, i, j1),
        closes_at(p, i, j2),
    ensures
        j1 == j2,
{
    if j1 < j2 {
        assert(nesting(p, i, j1 + 1) > 0);
    } else if j2 < j1 {
        assert(nesting(p, i, j2 + 1) > 0);
    }
}

/// A `]` has at most one matching `[`.
pub proof fn lemma_open_unique(p: Seq<char>, j1: int, j2: int, i: int)
    requires
        opens_at(p, j1, i),
        opens_at(p, j2, i),
    ensures
        j1 == j2,
{
    if j1 < j2 {
        assert(nesting(p, j2, i + 1) < 0);
    } else if j2 < j1 {
        assert(nesting(p, j1, i + 1) < 0);
    }
}


/// Sanitizing text with one more character appended.
pub proof fn lemma_sanitize_push(text: Seq<char>, c: char)
    ensures
        sanitize(text.push(c)) == if is_instruction(c) {
            sanitize(text).push(c)
        } else {
            sanitize(text)
        },
{
    reveal(Seq::filter);
    assert(text.push(c).drop_last() =~= text);
}

} // verus!
