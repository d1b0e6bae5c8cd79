//! The execution engine: a sanitized program, a tape of `MS` cells, and a
//! step function proved to act as `Machine::next`. Input and output are
//! byte buffers that the host fills and drains between steps.
use vstd::prelude::*;

use crate::machine::{
    close_of, closes_at, has_close, has_open, lemma_close_unique, lemma_nesting_front,
    lemma_open_unique, lemma_sanitize_push, nesting, open_of, opens_at, sanitize, Machine,
};

verus! {

broadcast use vstd::std_specs::vec::group_vec_axioms;

/// Finds the `]` that matches the `[` at `i`, counting nesting depth.
pub fn find_close(prog: &Vec<char>, i: usize) -> (r: Option<usize>)
    requires
        i < prog.len(),
        prog@[i as int] == '[',
    ensures
        match r {
            Some(j) => closes_at(prog@, i as int, j as int),
            None => !has_close(prog@, i as int),
        },
{
    let mut depth: usize = 1;
    let mut k: usize = i + 1;
    assert(nesting(prog@, i as int, i + 1) == 1) by {
        assert(nesting(prog@, i as int, i as int) == 0);
    }
    while k < prog.len()
        invariant
            i < k <= prog.len(),
            prog@[i as int] == '[',
            1 <= depth <= k - i,
            depth as int == nesting(prog@, i as int, k as int),
            forall|m: int| i < m <= k ==> #[trigger] nesting(prog@, i as int, m) > 0,
        decreases prog.len() - k,
    {
        let c = prog[k];
        if c == '[' {
            depth = depth + 1;
        } else if c == ']' {
            depth = depth - 1;
            if depth == 0 {
                assert(nesting(prog@, i as int, k + 1) == 0);
                return Some(k);
            }
        }
        assert(nesting(prog@, i as int, k + 1) == depth);
        k = k + 1;
    }
    assert forall|j: int| !closes_at(prog@, i as int, j) by {
        if closes_at(prog@, i as int, j) {
            assert(nesting(prog@, i as int, j + 1) > 0);
        }
    }
    None
}

/// Finds the `[` that matches the `]` at `i`, counting nesting depth backward.
pub fn find_open(prog: &Vec<char>, i: usize) -> (r: Option<usize>)
    requires
        i < prog.len(),
        prog@[i as int] == ']',
    ensures
        match r {
            Some(j) => opens_at(prog@, j as int, i as int),
            None => !has_open(prog@, i as int),
        },
{
    let mut depth: usize = 1;
    let mut k: usize = i;
    assert(nesting(prog@, i as int, i + 1) == -1) by {
        assert(nesting(prog@, i as int, i as int) == 0);
    }
    while k > 0
        invariant
            k <= i < prog.len(),
            prog@[i as int] == ']',
            1 <= depth <= i + 1 - k,
            -(depth as int) == nesting(prog@, k as int, i + 1),
            forall|m: int| k <= m <= i ==> #[trigger] nesting(prog@, m, i + 1) < 0,
        decreases k,
    {
        k = k - 1;
        proof {
            lemma_nesting_front(prog@, k as int, i + 1);
        }
        let c = prog[k];
        if c == ']' {
            depth = depth + 1;
        } else if c == '[' {
            depth = depth - 1;
            if depth == 0 {
                return Some(k);
            }
        }
    }
    assert forall|j: int| !opens_at(prog@, j, i as int) by {
        if opens_at(prog@, j, i as int) {
            assert(j < 0);
        }
    }
    None
}

/// The engine: it owns the program, the tape of `MS` cells and both
/// pointers, with the bytes handed in for `,` and those produced by `.`.
pub struct Interpreter<const MS: usize> {
    prog: Vec<char>,
    mem: [u8; MS],
    dp: usize,
    ip: usize,
    input: Vec<u8>,
    input_pos: usize,
    output: Vec<u8>,
}

impl<const MS: usize> View for Interpreter<MS> {
    type V = Machine;

    closed spec fn view(&self) -> Machine {
        Machine {
            prog: self.prog@,
            tape: self.mem@,
            dp: self.dp as int,
            ip: self.ip as int,
            input: self.input@.skip(self.input_pos as int),
            output: self.output@,
        }
    }
}

impl<const MS: usize> Interpreter<MS> {
    /// The engine's state is in range and its input position is within the
    /// bytes handed in.
    pub closed spec fn wf(&self) -> bool {
        &&& self@.valid()
        &&& self.input_pos <= self.input.len()
    }

    /// An engine at the start of the program text `prog`: only its instruction symbols are
    /// kept, every cell is zero, and no input or output is held.
    pub fn new(prog: String) -> (r: Self)
        requires
            MS > 0,
        ensures
            r.wf(),
            r@ == (Machine {
                prog: sanitize(prog@),
                tape: Seq::new(MS as nat, |k: int| 0u8),
                dp: 0,
                ip: 0,
                input: Seq::empty(),
                output: Seq::empty(),
            }),
    {
        let mut kept: Vec<char> = Vec::new();
        let text = prog.as_str();
        proof {
            broadcast use vstd::string::axiom_spec_iter;
        }
        for ch in it: text.chars()
            invariant
                text@ == prog@,
                it.seq() == text@,
                kept@ == sanitize(text@.take(it.index() as int)),
        {
            proof {
                lemma_sanitize_push(text@.take(it.index() as int), ch);
                assert(text@.take(it.index() + 1) =~= text@.take(it.index() as int).push(ch));
            }
            match ch {
                '>' | '<' | '+' | '-' | '.' | ',' | '[' | ']' => kept.push(ch),
                _ => {},
            }
        }
        assert(text@.take(text@.len() as int) =~= text@);
        let r = Interpreter {
            prog: kept,
            mem: [0u8; MS],
            dp: 0,
            ip: 0,
            input: Vec::new(),
            input_pos: 0,
            output: Vec::new(),
        };
        assert(r@.tape =~= Seq::new(MS as nat, |k: int| 0u8));
        assert(r@.input =~= Seq::empty());
        r
    }

    /// Runs the instruction at `ip`, or reports completion once `ip` is past
    /// the last instruction. `EOF` is the byte that `,` stores when no input
    /// is left.
    pub fn cycle<const EOF: u8>(&mut self) -> (done: bool)
        requires
            old(self).wf(),
            old(self)@.can_step(),
        ensures
            final(self).wf(),
            final(self)@ == old(self)@.next(EOF),
            done == old(self)@.halted(),
    {
        if self.ip == self.prog.len() {
            return true;
        }
        let ghost before = self@;
        let ins = self.prog[self.ip];
        let v = self.mem[self.dp];
        match ins {
            '>' => {
                self.dp = self.dp + 1;
            },
            '<' => {
                self.dp = self.dp - 1;
            },
            '+' => {
                self.mem[self.dp] = v.wrapping_add(1);
            },
            '-' => {
                self.mem[self.dp] = v.wrapping_sub(1);
            },
            '.' => {
                self.output.push(v);
            },
            ',' => {
                if self.input_pos < self.input.len() {
                    self.mem[self.dp] = self.input[self.input_pos];
                    self.input_pos = self.input_pos + 1;
                } else {
                    self.mem[self.dp] = EOF;
                }
            },
            '[' => {
                if v == 0 {
                    let found = find_close(&self.prog, self.ip);
                    let j = found.unwrap();
                    proof {
                        let k = close_of(self.prog@, self.ip as int);
                        lemma_close_unique(self.prog@, self.ip as int, j as int, k);
                    }
                    self.ip = j;
                }
            },
            ']' => {
                if v != 0 {
                    let found = find_open(&self.prog, self.ip);
                    let j = found.unwrap();
                    proof {
                        let k = open_of(self.prog@, self.ip as int);
                        lemma_open_unique(self.prog@, j as int, k, self.ip as int);
                    }
                    self.ip = j;
                }
            },
            _ => {},
        }
        self.ip = self.ip + 1;
        proof {
            assert(self@.input =~= before.next(EOF).input);
            assert(self@.tape =~= before.next(EOF).tape);
            assert(self@.output =~= before.next(EOF).output);
        }
        false
    }

    /// Whether the next `cycle` keeps the data pointer on the tape and finds
    /// the bracket it has to jump to; a host checks this before each step.
    pub fn can_cycle(&self) -> (r: bool)
        requires
            self.wf(),
        ensures
            r == self@.can_step(),
    {
        if self.ip == self.prog.len() {
            return true;
        }
        let ins = self.prog[self.ip];
        let v = self.mem[self.dp];
        match ins {
            '>' => self.dp + 1 < MS,
            '<' => self.dp > 0,
            '[' => v != 0 || find_close(&self.prog, self.ip).is_some(),
            ']' => v == 0 || find_open(&self.prog, self.ip).is_some(),
            _ => true,
        }
    }

    /// Whether the next instruction is `,` and no input byte is waiting, so
    /// that a host with more input should hand in a byte first.
    pub fn wants_input(&self) -> (r: bool)
        requires
            self.wf(),
        ensures
            r == (!self@.halted() && self@.current() == ',' && self@.input.len() == 0),
    {
        self.ip < self.prog.len() && self.prog[self.ip] == ',' && self.input_pos
            == self.input.len()
    }

    /// Hands in one byte for a later `,`, after those already waiting.
    pub fn push_input(&mut self, byte: u8)
        requires
            old(self).wf(),
        ensures
            final(self).wf(),
            final(self)@ == (Machine { input: old(self)@.input.push(byte), ..old(self)@ }),
    {
        self.input.push(byte);
        assert(self@.input =~= old(self)@.input.push(byte));
    }

    /// Hands out the bytes written by `.` since the last call, in order.
    pub fn take_output(&mut self) -> (r: Vec<u8>)
        requires
            old(self).wf(),
        ensures
            final(self).wf(),
            r@ == old(self)@.output,
            final(self)@ == (Machine { output: Seq::empty(), ..old(self)@ }),
    {
        let mut r: Vec<u8> = Vec::new();
        core::mem::swap(&mut r, &mut self.output);
        assert(self@.output =~= Seq::<u8>::empty());
        r
    }

    /// The sanitized program.
    pub fn program(&self) -> (r: &Vec<char>)
        ensures
            r@ == self@.prog,
    {
        &self.prog
    }
}

} // verus!
