//! Properties of the step function over whole runs and pairs of steps.
use vstd::prelude::*;

use crate::machine::{
    close_of, closes_at, lemma_close_unique, lemma_open_unique, nesting, open_of, opens_at, Machine,
};

verus! {

/// `+` adds one to the current cell modulo 256, so a cell holding 255
/// becomes 0; nothing else changes but `ip`.
pub proof fn lemma_increment_wraps(m: Machine, eof: u8)
    requires
        m.valid(),
        !m.halted(),
        m.current() == '+',
    ensures
        m.next(eof) == (Machine {
            tape: m.tape.update(m.dp, ((m.cell() + 1) % 256) as u8),
            ip: m.ip + 1,
            ..m
        }),
        m.cell() == 255 ==> m.next(eof).cell() == 0,
{
}

/// `-` subtracts one from the current cell modulo 256, so a cell holding 0
/// becomes 255; nothing else changes but `ip`.
pub proof fn lemma_decrement_wraps(m: Machine, eof: u8)
    requires
        m.valid(),
        !m.halted(),
        m.current() == '-',
    ensures
        m.next(eof) == (Machine {
            tape: m.tape.update(m.dp, ((m.cell() + 255) % 256) as u8),
            ip: m.ip + 1,
            ..m
        }),
        m.cell() == 0 ==> m.next(eof).cell() == 255,
{
}

/// `>` followed by `<` brings `dp` back where it was and leaves the tape as
/// it was, whenever the `>` stays on the tape.
pub proof fn lemma_right_then_left(m: Machine, eof: u8)
    requires
        m.valid(),
        m.ip + 1 < m.prog.len(),
        m.prog[m.ip] == '>',
        m.prog[m.ip + 1] == '<',
        m.dp + 1 < m.tape.len(),
    ensures
        m.run(2, eof) == m.with_ip(m.ip + 2),
{
    assert(m.run(2, eof) == m.next(eof).run(1, eof));
    assert(m.next(eof).run(1, eof) == m.next(eof).next(eof).run(0, eof));
}

/// A `[` whose cell is zero runs no part of its body: execution goes on just
/// past the matching `]`, with nothing else changed.
pub proof fn lemma_skip_loop(m: Machine, j: int, eof: u8)
    requires
        m.valid(),
        !m.halted(),
        m.current() == '[',
        m.cell() == 0,
        closes_at(m.prog, m.ip, j),
    ensures
        m.next(eof) == m.with_ip(j + 1),
{
    let k = close_of(m.prog, m.ip);
    lemma_close_unique(m.prog, m.ip, j, k);
}

/// The loop `[-]` ends after `2 * v + 1` steps, whatever value `v` its cell
/// starts with: the cell is 0, `ip` is just past the `]`, and nothing else
/// has changed.
pub proof fn lemma_clear_loop(m: Machine, eof: u8)
    requires
        m.valid(),
        m.ip + 2 < m.prog.len(),
        m.prog[m.ip] == '[',
        m.prog[m.ip + 1] == '-',
        m.prog[m.ip + 2] == ']',
    ensures
        m.run((2 * m.cell() + 1) as nat, eof) == (Machine {
            tape: m.tape.update(m.dp, 0),
            ip: m.ip + 3,
            ..m
        }),
{
    let p = m.prog;
    let i = m.ip;
    assert(nesting(p, i, i) == 0);
    assert(nesting(p, i, i + 1) == 1);
    assert(nesting(p, i, i + 2) == 1);
    assert(nesting(p, i, i + 3) == 0);
    assert(closes_at(p, i, i + 2));
    if m.cell() == 0 {
        lemma_skip_loop(m, i + 2, eof);
        assert(m.tape.update(m.dp, 0) =~= m.tape);
        assert(m.run(1, eof) == m.next(eof).run(0, eof));
    } else {
        assert(nesting(p, i + 2, i + 2) == 0);
        assert(nesting(p, i + 2, i + 3) == -1);
        assert(nesting(p, i + 1, i + 1) == 0);
        assert(nesting(p, i + 1, i + 2) == 0);
        assert(nesting(p, i + 1, i + 3) == -1);
        assert(opens_at(p, i, i + 2));
        lemma_clear_loop_body(m, m.cell(), eof);
        assert(m.next(eof) == m.with_ip(i + 1));
        assert(m.tape.update(m.dp, m.cell()) =~= m.tape);
    }
}

/// Inside `[-]` with the cell at `c > 0`, `2 * c` steps clear the cell and
/// leave the loop.
proof fn lemma_clear_loop_body(m: Machine, c: u8, eof: u8)
    requires
        m.valid(),
        m.ip + 2 < m.prog.len(),
        m.prog[m.ip] == '[',
        m.prog[m.ip + 1] == '-',
        m.prog[m.ip + 2] == ']',
        opens_at(m.prog, m.ip, m.ip + 2),
        c > 0,
    ensures
        m.with_ip(m.ip + 1).with_tape_cell(c).run((2 * c) as nat, eof) == (Machine {
            tape: m.tape.update(m.dp, 0),
            ip: m.ip + 3,
            ..m
        }),
    decreases c,
{
    let s = m.with_ip(m.ip + 1).with_tape_cell(c);
    let s1 = s.next(eof);
    let s2 = s1.next(eof);
    assert(s1 == m.with_ip(m.ip + 2).with_tape_cell((c - 1) as u8)) by {
        assert(s1.tape =~= m.tape.update(m.dp, (c - 1) as u8));
    }
    assert(s.run((2 * c) as nat, eof) == s1.run((2 * c - 1) as nat, eof));
    assert(s1.run((2 * c - 1) as nat, eof) == s2.run((2 * c - 2) as nat, eof));
    if c == 1 {
        assert(s2.tape =~= m.tape.update(m.dp, 0));
    } else {
        let k = open_of(m.prog, m.ip + 2);
        lemma_open_unique(m.prog, m.ip, k, m.ip + 2);
        assert(s2 == m.with_ip(m.ip + 1).with_tape_cell((c - 1) as u8));
        lemma_clear_loop_body(m, (c - 1) as u8, eof);
    }
}

/// `,` with no input left stores `eof` in the current cell and goes on.
pub proof fn lemma_read_at_end(m: Machine, eof: u8)
    requires
        m.valid(),
        !m.halted(),
        m.current() == ',',
        m.input.len() == 0,
    ensures
        m.next(eof) == m.store(eof),
        m.next(eof).cell() == eof,
{
}

/// Once the program has ended, further steps change nothing.
pub proof fn lemma_halted_stays(m: Machine, n: nat, eof: u8)
    requires
        m.halted(),
    ensures
        m.next(eof) == m,
        m.run(n, eof) == m,
    decreases n,
{
    if n > 0 {
        lemma_halted_stays(m, (n - 1) as nat, eof);
    }
}

} // verus!
