//! The mathematical semantics of program execution: one configuration per
//! machine state, a single-step transition function, and bounded runs.

use vstd::prelude::*;
use crate::cell::wrap_dec;
use crate::cell::wrap_inc;
use crate::errors::VMError;
use crate::program::Instruction;
use crate::program::balanced;
use crate::program::delta;
use crate::program::is_close;
use crate::program::is_open;
use crate::program::net_depth;

verus! {

/// The state of a running machine: the tape, the head, the instruction
/// pointer, the input bytes not yet consumed, and the output produced so far.
#[verifier::ext_equal]
pub struct Config {
    /// The byte cells of the tape.
    pub tape: Seq<u8>,
    /// The index of the cell under the head.
    pub head: int,
    /// The index of the next instruction to execute.
    pub ip: int,
    /// The input bytes still to be read.
    pub input: Seq<u8>,
    /// The output bytes written so far.
    pub output: Seq<u8>,
}

/// A configuration that makes sense for the given program: the instruction
/// pointer is within the program (or just past it), the head is on the tape.
pub open spec fn cfg_wf(prog: Seq<Instruction>, c: Config) -> bool {
    &&& 0 <= c.ip <= prog.len()
    &&& 0 <= c.head < c.tape.len()
}

/// Scans forward from `j` with `depth` loops already open and returns the
/// index of the closing bracket that brings the depth to zero; the program
/// length when there is none.
pub open spec fn fwd_scan(prog: Seq<Instruction>, j: int, depth: int) -> int
    decreases prog.len() - j,
{
    if j < 0 || j >= prog.len() {
        prog.len() as int
    } else if is_close(prog[j]) {
        if depth == 1 {
            j
        } else {
            fwd_scan(prog, j + 1, depth - 1)
        }
    } else if is_open(prog[j]) {
        fwd_scan(prog, j + 1, depth + 1)
    } else {
        fwd_scan(prog, j + 1, depth)
    }
}

/// Scans backward from `j` with `depth` loops already closed and returns the
/// index of the opening bracket that brings the depth to zero; -1 when there
/// is none.
pub open spec fn bwd_scan(prog: Seq<Instruction>, j: int, depth: int) -> int
    decreases j + 1,
{
    if j < 0 || j >= prog.len() {
        -1
    } else if is_open(prog[j]) {
        if depth == 1 {
            j
        } else {
            bwd_scan(prog, j - 1, depth - 1)
        }
    } else if is_close(prog[j]) {
        bwd_scan(prog, j - 1, depth + 1)
    } else {
        bwd_scan(prog, j - 1, depth)
    }
}

/// Taking one more element adds that element's depth contribution.
pub proof fn lemma_net_depth_take_succ(prog: Seq<Instruction>, j: int)
    requires
        0 <= j < prog.len(),
    ensures
        net_depth(prog.take(j + 1)) == net_depth(prog.take(j)) + delta(prog[j]),
{
    assert(prog.take(j + 1).drop_last() =~= prog.take(j));
    assert(prog.take(j + 1).last() == prog[j]);
}

/// The forward scan never looks back: its result lies between `j` and the
/// end of the program.
pub proof fn lemma_fwd_scan_bounds(prog: Seq<Instruction>, j: int, depth: int)
    requires
        j <= prog.len(),
    ensures
        j <= fwd_scan(prog, j, depth) <= prog.len(),
    decreases prog.len() - j,
{
    if 0 <= j < prog.len() {
        if is_close(prog[j]) {
            if depth != 1 {
                lemma_fwd_scan_bounds(prog, j + 1, depth - 1);
            }
        } else if is_open(prog[j]) {
            lemma_fwd_scan_bounds(prog, j + 1, depth + 1);
        } else {
            lemma_fwd_scan_bounds(prog, j + 1, depth);
        }
    }
}

/// The backward scan never looks ahead: its result lies between -1 and `j`.
pub proof fn lemma_bwd_scan_bounds(prog: Seq<Instruction>, j: int, depth: int)
    requires
        -1 <= j,
    ensures
        -1 <= bwd_scan(prog, j, depth) <= j,
    decreases j + 1,
{
    if 0 <= j < prog.len() {
        if is_open(prog[j]) {
            if depth != 1 {
                lemma_bwd_scan_bounds(prog, j - 1, depth - 1);
            }
        } else if is_close(prog[j]) {
            lemma_bwd_scan_bounds(prog, j - 1, depth + 1);
        } else {
            lemma_bwd_scan_bounds(prog, j - 1, depth);
        }
    }
}

/// In a program whose brackets cancel out overall, a forward scan started
/// inside `depth` open loops finds a closing bracket, and the prefix up to
/// and past it accounts for exactly those `depth` brackets.
pub proof fn lemma_fwd_scan_finds(prog: Seq<Instruction>, j: int, d: int)
    requires
        0 <= j <= prog.len(),
        1 <= d,
        net_depth(prog.take(j)) >= d,
        net_depth(prog) == 0,
    ensures
        ({
            let m = fwd_scan(prog, j, d);
            &&& j <= m < prog.len()
            &&& is_close(prog[m])
            &&& net_depth(prog.take(m + 1)) == net_depth(prog.take(j)) - d
        }),
    decreases prog.len() - j,
{
    if j == prog.len() {
        assert(prog.take(j) =~= prog);
        assert(false);
    } else {
        lemma_net_depth_take_succ(prog, j);
        if is_close(prog[j]) {
            if d != 1 {
                lemma_fwd_scan_finds(prog, j + 1, d - 1);
            }
        } else if is_open(prog[j]) {
            lemma_fwd_scan_finds(prog, j + 1, d + 1);
        } else {
            lemma_fwd_scan_finds(prog, j + 1, d);
        }
    }
}

/// A backward scan started just before a point with `d` more closing than
/// opening brackets pending finds an opening bracket.
pub proof fn lemma_bwd_scan_finds(prog: Seq<Instruction>, j: int, d: int)
    requires
        -1 <= j < prog.len(),
        1 <= d,
        net_depth(prog.take(j + 1)) >= d,
    ensures
        ({
            let m = bwd_scan(prog, j, d);
            &&& 0 <= m <= j
            &&& is_open(prog[m])
            &&& net_depth(prog.take(m)) == net_depth(prog.take(j + 1)) - d
        }),
    decreases j + 1,
{
    if j < 0 {
        assert(prog.take(0) =~= Seq::<Instruction>::empty());
        assert(false);
    } else {
        lemma_net_depth_take_succ(prog, j);
        if is_open(prog[j]) {
            if d != 1 {
                lemma_bwd_scan_finds(prog, j - 1, d - 1);
            }
        } else if is_close(prog[j]) {
            lemma_bwd_scan_finds(prog, j - 1, d + 1);
        } else {
            lemma_bwd_scan_finds(prog, j - 1, d);
        }
    }
}

/// What one instruction does to a configuration, or the error that halts
/// execution at it.  Meaningful when `cfg_wf` holds and `c.ip` is within the
/// program.
pub open spec fn step_spec(prog: Seq<Instruction>, growable: bool, c: Config) -> Result<
    Config,
    VMError,
> {
    match prog[c.ip] {
        Instruction::IncrementDP(_, _) => {
            if c.head + 1 < c.tape.len() {
                Ok(Config { head: c.head + 1, ip: c.ip + 1, ..c })
            } else if growable {
                Ok(Config { tape: c.tape.push(0), head: c.head + 1, ip: c.ip + 1, ..c })
            } else {
                Err(VMError::TapeBounds { at_start: false })
            }
        },
        Instruction::DecrementDP(_, _) => {
            if c.head == 0 {
                Err(VMError::TapeBounds { at_start: true })
            } else {
                Ok(Config { head: c.head - 1, ip: c.ip + 1, ..c })
            }
        },
        Instruction::IncrementByte(_, _) => Ok(
            Config { tape: c.tape.update(c.head, wrap_inc(c.tape[c.head])), ip: c.ip + 1, ..c },
        ),
        Instruction::DecrementByte(_, _) => Ok(
            Config { tape: c.tape.update(c.head, wrap_dec(c.tape[c.head])), ip: c.ip + 1, ..c },
        ),
        Instruction::Output(_, _) => Ok(
            Config { output: c.output.push(c.tape[c.head]), ip: c.ip + 1, ..c },
        ),
        Instruction::Input(_, _) => {
            if c.input.len() == 0 {
                Err(VMError::ReadError)
            } else {
                Ok(
                    Config {
                        tape: c.tape.update(c.head, c.input[0]),
                        input: c.input.skip(1),
                        ip: c.ip + 1,
                        ..c
                    },
                )
            }
        },
        Instruction::JumpForward(_, _) => {
            if c.tape[c.head] == 0 {
                Ok(Config { ip: fwd_scan(prog, c.ip + 1, 1) + 1, ..c })
            } else {
                Ok(Config { ip: c.ip + 1, ..c })
            }
        },
        Instruction::JumpBack(_, _) => {
            if c.tape[c.head] != 0 {
                Ok(Config { ip: bwd_scan(prog, c.ip - 1, 1) + 1, ..c })
            } else {
                Ok(Config { ip: c.ip + 1, ..c })
            }
        },
        Instruction::Comment(_, _, _) => Ok(Config { ip: c.ip + 1, ..c }),
    }
}

/// How a bounded run ends: still going after the budget, done because the
/// instruction pointer left the program, or halted by an error at the given
/// configuration.
#[verifier::ext_equal]
pub enum Outcome {
    /// The budget ran out with the machine still running.
    Running(Config),
    /// The instruction pointer reached the end of the program.
    Done(Config),
    /// Execution halted at this configuration with this error.
    Failed(VMError, Config),
}

/// Runs up to `n` steps from `c` and reports how the run ends.  An error or
/// completion within the budget is reported whatever remains of it.
pub open spec fn run_n(prog: Seq<Instruction>, growable: bool, c: Config, n: nat) -> Outcome
    decreases n,
{
    if c.ip >= prog.len() {
        Outcome::Done(c)
    } else if n == 0 {
        Outcome::Running(c)
    } else {
        match step_spec(prog, growable, c) {
            Ok(c2) => run_n(prog, growable, c2, (n - 1) as nat),
            Err(e) => Outcome::Failed(e, c),
        }
    }
}

/// A run still going after `n` steps continues from where it stands: one
/// more budgeted step runs the step function once.
pub proof fn lemma_run_extend(prog: Seq<Instruction>, growable: bool, c0: Config, c: Config, n: nat)
    requires
        run_n(prog, growable, c0, n) == Outcome::Running(c),
    ensures
        c.ip < prog.len(),
        run_n(prog, growable, c0, n + 1) == run_n(prog, growable, c, 1),
    decreases n,
{
    if n == 0 {
    } else {
        if c0.ip >= prog.len() {
            assert(false);
        } else {
            match step_spec(prog, growable, c0) {
                Ok(c1) => {
                    lemma_run_extend(prog, growable, c1, c, (n - 1) as nat);
                },
                Err(_) => {
                    assert(false);
                },
            }
        }
    }
}

/// A run that has already finished, well or badly, stays finished under a
/// larger budget.
pub proof fn lemma_run_absorb(prog: Seq<Instruction>, growable: bool, c0: Config, n: nat, m: nat)
    requires
        n <= m,
        !(run_n(prog, growable, c0, n) is Running),
    ensures
        run_n(prog, growable, c0, m) == run_n(prog, growable, c0, n),
    decreases n,
{
    if c0.ip >= prog.len() {
    } else if n == 0 {
        assert(false);
    } else {
        match step_spec(prog, growable, c0) {
            Ok(c1) => {
                lemma_run_absorb(prog, growable, c1, (n - 1) as nat, (m - 1) as nat);
            },
            Err(_) => {},
        }
    }
}

/// Executing a loop-start whose cell is zero only moves the instruction
/// pointer: it jumps to just past the matching loop-end, and the tape, the
/// head and both streams are left untouched — so on a tape whose cell is
/// already zero, taking the skip again from another loop-start changes
/// nothing but the pointer either.
pub proof fn lemma_loop_start_skips(prog: Seq<Instruction>, growable: bool, c: Config)
    requires
        balanced(prog),
        cfg_wf(prog, c),
        c.ip < prog.len(),
        is_open(prog[c.ip]),
        c.tape[c.head] == 0,
    ensures
        ({
            let m = fwd_scan(prog, c.ip + 1, 1);
            &&& c.ip < m < prog.len()
            &&& is_close(prog[m])
            &&& step_spec(prog, growable, c) == Ok::<Config, VMError>(
                Config { tape: c.tape, head: c.head, ip: m + 1, input: c.input, output: c.output },
            )
        }),
{
    assert(net_depth(prog.take(c.ip)) >= 0);
    lemma_net_depth_take_succ(prog, c.ip);
    lemma_fwd_scan_finds(prog, c.ip + 1, 1);
    let m = fwd_scan(prog, c.ip + 1, 1);
    assert(step_spec(prog, growable, c) == Ok::<Config, VMError>(
        Config { tape: c.tape, head: c.head, ip: m + 1, input: c.input, output: c.output },
    ));
}

/// The source `"++."`, run on a fresh zero tape with an empty output sink,
/// completes and writes exactly one byte with value 2 — whatever bytes the
/// input source holds, and under any sufficient step budget.
pub proof fn lemma_two_increments_output(tape: Seq<u8>, input: Seq<u8>, n: nat)
    requires
        tape.len() >= 1,
        tape[0] == 0,
        n >= 3,
    ensures
        ({
            let prog = crate::program::parse_rec("++."@, 1, 1);
            let c0 = Config { tape, head: 0, ip: 0, input, output: Seq::empty() };
            run_n(prog, false, c0, n) == Outcome::Done(
                Config { tape: tape.update(0, 2u8), head: 0, ip: 3, input, output: seq![2u8] },
            )
        }),
{
    reveal_strlit("++.");
    reveal_with_fuel(crate::program::parse_rec, 5);
    let s = "++."@;
    assert(s.len() == 3 && s[0] == '+' && s[1] == '+' && s[2] == '.');
    assert(seq!['.'].skip(1) =~= Seq::<char>::empty());
    assert(seq!['+', '.'].skip(1) =~= seq!['.']);
    assert(s.skip(1) =~= seq!['+', '.']);
    assert(crate::program::parse_rec(seq!['.'], 1, 3) =~= seq![Instruction::Output(1, 3)]);
    assert(crate::program::parse_rec(seq!['+', '.'], 1, 2) =~= seq![
        Instruction::IncrementByte(1, 2),
        Instruction::Output(1, 3),
    ]);
    let prog = crate::program::parse_rec(s, 1, 1);
    assert(prog =~= seq![
        Instruction::IncrementByte(1, 1),
        Instruction::IncrementByte(1, 2),
        Instruction::Output(1, 3),
    ]);
    let c0 = Config { tape, head: 0, ip: 0, input, output: Seq::empty() };
    let c1 = Config { tape: tape.update(0, 1u8), head: 0, ip: 1, input, output: Seq::empty() };
    let c2 = Config { tape: tape.update(0, 2u8), head: 0, ip: 2, input, output: Seq::empty() };
    let c3 = Config { tape: tape.update(0, 2u8), head: 0, ip: 3, input, output: seq![2u8] };
    assert(step_spec(prog, false, c0) == Ok::<Config, VMError>(c1)) by {
        assert(step_spec(prog, false, c0)->Ok_0 =~= c1);
    }
    assert(tape.update(0, 1u8).update(0, 2u8) =~= tape.update(0, 2u8));
    assert(step_spec(prog, false, c1) == Ok::<Config, VMError>(c2)) by {
        assert(step_spec(prog, false, c1)->Ok_0 =~= c2);
    }
    assert(step_spec(prog, false, c2) == Ok::<Config, VMError>(c3)) by {
        assert(step_spec(prog, false, c2)->Ok_0 =~= c3);
    }
    reveal_with_fuel(run_n, 5);
    assert(run_n(prog, false, c0, 3) == Outcome::Done(c3));
    lemma_run_absorb(prog, false, c0, 3, n);
}

/// The source `"+[-]"` terminates rather than looping forever: on a fresh
/// zero tape the run is done within four steps, the cell under the head is
/// back at zero, and nothing was written.
pub proof fn lemma_loop_clears_cell(tape: Seq<u8>, input: Seq<u8>, n: nat)
    requires
        tape.len() >= 1,
        tape[0] == 0,
        n >= 4,
    ensures
        ({
            let prog = crate::program::parse_rec("+[-]"@, 1, 1);
            let c0 = Config { tape, head: 0, ip: 0, input, output: Seq::empty() };
            run_n(prog, false, c0, n) == Outcome::Done(
                Config { tape, head: 0, ip: 4, input, output: Seq::empty() },
            )
        }),
{
    reveal_strlit("+[-]");
    reveal_with_fuel(crate::program::parse_rec, 6);
    let s = "+[-]"@;
    assert(s.len() == 4 && s[0] == '+' && s[1] == '[' && s[2] == '-' && s[3] == ']');
    assert(seq![']'].skip(1) =~= Seq::<char>::empty());
    assert(seq!['-', ']'].skip(1) =~= seq![']']);
    assert(seq!['[', '-', ']'].skip(1) =~= seq!['-', ']']);
    assert(s.skip(1) =~= seq!['[', '-', ']']);
    assert(crate::program::parse_rec(seq![']'], 1, 4) =~= seq![Instruction::JumpBack(1, 4)]);
    assert(crate::program::parse_rec(seq!['-', ']'], 1, 3) =~= seq![
        Instruction::DecrementByte(1, 3),
        Instruction::JumpBack(1, 4),
    ]);
    assert(crate::program::parse_rec(seq!['[', '-', ']'], 1, 2) =~= seq![
        Instruction::JumpForward(1, 2),
        Instruction::DecrementByte(1, 3),
        Instruction::JumpBack(1, 4),
    ]);
    let prog = crate::program::parse_rec(s, 1, 1);
    assert(prog =~= seq![
        Instruction::IncrementByte(1, 1),
        Instruction::JumpForward(1, 2),
        Instruction::DecrementByte(1, 3),
        Instruction::JumpBack(1, 4),
    ]);
    let c0 = Config { tape, head: 0, ip: 0, input, output: Seq::empty() };
    let c1 = Config { tape: tape.update(0, 1u8), head: 0, ip: 1, input, output: Seq::empty() };
    let c2 = Config { tape: tape.update(0, 1u8), head: 0, ip: 2, input, output: Seq::empty() };
    let c3 = Config { tape, head: 0, ip: 3, input, output: Seq::empty() };
    let c4 = Config { tape, head: 0, ip: 4, input, output: Seq::empty() };
    assert(step_spec(prog, false, c0) == Ok::<Config, VMError>(c1)) by {
        assert(step_spec(prog, false, c0)->Ok_0 =~= c1);
    }
    assert(step_spec(prog, false, c1) == Ok::<Config, VMError>(c2)) by {
        assert(step_spec(prog, false, c1)->Ok_0 =~= c2);
    }
    assert(tape.update(0, 1u8).update(0, 0u8) =~= tape);
    assert(step_spec(prog, false, c2) == Ok::<Config, VMError>(c3)) by {
        assert(step_spec(prog, false, c2)->Ok_0 =~= c3);
    }
    assert(step_spec(prog, false, c3) == Ok::<Config, VMError>(c4)) by {
        assert(step_spec(prog, false, c3)->Ok_0 =~= c4);
    }
    reveal_with_fuel(run_n, 6);
    assert(run_n(prog, false, c0, 4) == Outcome::Done(c4));
    lemma_run_absorb(prog, false, c0, 4, n);
}

/// The source `",."` echoes: on a fresh zero tape it reads the first input
/// byte and writes exactly that byte to the output.
pub proof fn lemma_echo_byte(tape: Seq<u8>, input: Seq<u8>, n: nat)
    requires
        tape.len() >= 1,
        input.len() >= 1,
        n >= 2,
    ensures
        ({
            let prog = crate::program::parse_rec(",."@, 1, 1);
            let c0 = Config { tape, head: 0, ip: 0, input, output: Seq::empty() };
            run_n(prog, false, c0, n) == Outcome::Done(
                Config {
                    tape: tape.update(0, input[0]),
                    head: 0,
                    ip: 2,
                    input: input.skip(1),
                    output: seq![input[0]],
                },
            )
        }),
{
    reveal_strlit(",.");
    reveal_with_fuel(crate::program::parse_rec, 4);
    let s = ",."@;
    assert(s.len() == 2 && s[0] == ',' && s[1] == '.');
    assert(seq!['.'].skip(1) =~= Seq::<char>::empty());
    assert(s.skip(1) =~= seq!['.']);
    assert(crate::program::parse_rec(seq!['.'], 1, 2) =~= seq![Instruction::Output(1, 2)]);
    let prog = crate::program::parse_rec(s, 1, 1);
    assert(prog =~= seq![Instruction::Input(1, 1), Instruction::Output(1, 2)]);
    let c0 = Config { tape, head: 0, ip: 0, input, output: Seq::empty() };
    let c1 = Config {
        tape: tape.update(0, input[0]),
        head: 0,
        ip: 1,
        input: input.skip(1),
        output: Seq::empty(),
    };
    let c2 = Config {
        tape: tape.update(0, input[0]),
        head: 0,
        ip: 2,
        input: input.skip(1),
        output: seq![input[0]],
    };
    assert(step_spec(prog, false, c0) == Ok::<Config, VMError>(c1)) by {
        assert(step_spec(prog, false, c0)->Ok_0 =~= c1);
    }
    assert(step_spec(prog, false, c1) == Ok::<Config, VMError>(c2)) by {
        assert(step_spec(prog, false, c1)->Ok_0 =~= c2);
    }
    reveal_with_fuel(run_n, 4);
    assert(run_n(prog, false, c0, 2) == Outcome::Done(c2));
    lemma_run_absorb(prog, false, c0, 2, n);
}

} // verus!
