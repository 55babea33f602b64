//! The virtual machine: a byte tape with a movable head, an instruction
//! pointer into a program, and the fetch-decode-execute loop.

use vstd::prelude::*;
use vstd::pervasive::VecAdditionalExecFns;
use crate::cell::CellKind;
use crate::errors::VMError;
use crate::program::Instruction;
use crate::program::Program;
use crate::program::balanced;
use crate::program::is_close;
use crate::program::is_open;
use crate::program::net_depth;
use crate::semantics::Config;
use crate::semantics::Outcome;
use crate::semantics::bwd_scan;
use crate::semantics::fwd_scan;
use crate::semantics::lemma_bwd_scan_bounds;
use crate::semantics::lemma_bwd_scan_finds;
use crate::semantics::lemma_fwd_scan_bounds;
use crate::semantics::lemma_fwd_scan_finds;
use crate::semantics::lemma_net_depth_take_succ;
use crate::semantics::lemma_run_absorb;
use crate::semantics::lemma_run_extend;
use crate::semantics::run_n;
use crate::semantics::step_spec;
use crate::streams::InputStream;
use crate::streams::OutputStream;

verus! {

/// How far the machine has come with its one allowed execution.
#[derive(Clone, Copy, Debug, PartialEq, Eq, Structural)]
pub enum RunState {
    /// The machine has not executed anything yet.
    NotStarted,
    /// Execution began but has not finished; it may be resumed.
    Running,
    /// Execution finished, well or badly; the machine will not run again.
    Halted,
}

/// A machine bound to one program: a zero-initialized byte tape, a head
/// index, an instruction pointer, and a one-shot execution state.
#[derive(Debug)]
pub struct VirtualMachine {
    /// The current number of cells on the tape.
    pub size: usize,
    /// Whether the tape may grow by one cell when the head would pass its
    /// right end.
    pub growable: bool,
    /// The tape itself.
    pub cells: Vec<u8>,
    /// The instruction pointer into the program.
    pub ip: usize,
    /// The index of the cell under the head.
    pub head: usize,
    /// The one-shot execution state.
    pub state: RunState,
    /// The program this machine is bound to.
    pub program: Program,
}

impl VirtualMachine {
    /// The machine's internal invariant: the recorded size matches the tape,
    /// the tape is never empty, and the head is on it.
    pub open spec fn inv(&self) -> bool {
        &&& self.size == self.cells@.len()
        &&& self.size >= 1
        &&& self.head < self.cells@.len()
    }

    /// The mathematical configuration this machine is in, together with the
    /// streams bound to it.
    pub open spec fn cfg(&self, input: InputStream, output: OutputStream) -> Config {
        Config {
            tape: self.cells@,
            head: self.head as int,
            ip: self.ip as int,
            input: input.remaining(),
            output: output.bytes@,
        }
    }

    /// Creates a machine bound to the given program.  A requested size of 0
    /// means the default capacity of 30000 cells; any positive value is used
    /// as-is.  All cells start at zero, the head and the instruction pointer
    /// at 0.
    pub fn new(size: usize, growable: bool, program: Program) -> (vm: VirtualMachine)
        ensures
            vm.inv(),
            vm.size == (if size == 0 {
                30000usize
            } else {
                size
            }),
            vm.growable == growable,
            vm.cells@.len() == vm.size,
            forall|i: int| 0 <= i < vm.size ==> vm.cells@[i] == 0u8,
            vm.ip == 0,
            vm.head == 0,
            vm.state == RunState::NotStarted,
            vm.program == program,
    {
        let size: usize = if size == 0 {
            30000
        } else {
            size
        };
        let mut cells: Vec<u8> = Vec::new();
        let mut i: usize = 0;
        while i < size
            invariant
                i <= size,
                cells@.len() == i,
                forall|k: int| 0 <= k < i ==> cells@[k] == 0u8,
            decreases size - i,
        {
            cells.push(0);
            i = i + 1;
        }
        VirtualMachine {
            size,
            growable,
            cells,
            ip: 0,
            head: 0,
            state: RunState::NotStarted,
            program,
        }
    }

    /// Tells whether the tape can grow.
    pub fn can_grow(self) -> (r: bool)
        ensures
            r == self.growable,
    {
        self.growable
    }

    /// Borrows the tape cells.
    pub fn get_cells(&self) -> (r: &[u8])
        ensures
            r@ == self.cells@,
    {
        self.cells.as_slice()
    }

    /// Moves the head one cell to the left.  The tape never grows leftward:
    /// at index 0 this always fails, and nothing moves.  On success the
    /// instruction pointer advances and its new value is handed back.
    pub fn move_head_left(&mut self) -> (r: Result<usize, VMError>)
        requires
            old(self).inv(),
            old(self).ip < usize::MAX,
        ensures
            final(self).inv(),
            final(self).size == old(self).size,
            final(self).growable == old(self).growable,
            final(self).cells@ == old(self).cells@,
            final(self).state == old(self).state,
            final(self).program == old(self).program,
            old(self).head == 0 ==> r == Err::<usize, VMError>(VMError::TapeBounds {
                at_start: true,
            }) && *final(self) == *old(self),
            old(self).head > 0 ==> r == Ok::<usize, VMError>((old(self).ip + 1) as usize) && final(self).head == old(self).head - 1 && final(self).ip == old(self).ip + 1,
    {
        if self.head == 0 {
            return Err(VMError::TapeBounds { at_start: true });
        }
        self.head = self.head - 1;
        self.ip = self.ip + 1;
        Ok(self.ip)
    }

    /// Moves the head one cell to the right.  With the head at the last
    /// index, a growable tape gains one zero cell and the move succeeds; a
    /// fixed tape makes the move fail with nothing changed.  On success the
    /// instruction pointer advances and its new value is handed back.
    pub fn move_head_right(&mut self) -> (r: Result<usize, VMError>)
        requires
            old(self).inv(),
            old(self).ip < usize::MAX,
        ensures
            final(self).inv(),
            final(self).growable == old(self).growable,
            final(self).state == old(self).state,
            final(self).program == old(self).program,
            old(self).head + 1 < old(self).cells@.len() ==> r == Ok::<usize, VMError>(
                (old(self).ip + 1) as usize,
            ) && final(self).head == old(self).head + 1 && final(self).ip == old(self).ip + 1
                && final(self).cells@ == old(self).cells@ && final(self).size == old(self).size,
            old(self).head + 1 == old(self).cells@.len() && old(self).growable ==> r == Ok::<
                usize,
                VMError,
            >((old(self).ip + 1) as usize) && final(self).head == old(self).head + 1 && final(self).ip == old(self).ip + 1 && final(self).cells@ == old(self).cells@.push(0u8) && final(self).size == old(self).size + 1,
            old(self).head + 1 == old(self).cells@.len() && !old(self).growable ==> r == Err::<
                usize,
                VMError,
            >(VMError::TapeBounds { at_start: false }) && *final(self) == *old(self),
    {
        if self.head + 1 < self.cells.len() {
            self.head = self.head + 1;
            self.ip = self.ip + 1;
            Ok(self.ip)
        } else if self.growable {
            self.cells.push(0);
            self.size = self.cells.len();
            self.head = self.head + 1;
            self.ip = self.ip + 1;
            Ok(self.ip)
        } else {
            Err(VMError::TapeBounds { at_start: false })
        }
    }

    /// Reads exactly one byte from the input source into the cell under the
    /// head.  An exhausted source is a failure, and nothing changes.  On
    /// success the instruction pointer advances and its new value is handed
    /// back.
    pub fn input(&mut self, r: &mut InputStream) -> (res: Result<usize, VMError>)
        requires
            old(self).inv(),
            old(r).inv(),
            old(self).ip < usize::MAX,
        ensures
            final(self).inv(),
            final(r).inv(),
            final(r).bytes@ == old(r).bytes@,
            final(self).size == old(self).size,
            final(self).growable == old(self).growable,
            final(self).head == old(self).head,
            final(self).state == old(self).state,
            final(self).program == old(self).program,
            old(r).remaining().len() == 0 ==> res == Err::<usize, VMError>(VMError::ReadError)
                && *final(self) == *old(self) && *final(r) == *old(r),
            old(r).remaining().len() > 0 ==> res == Ok::<usize, VMError>(
                (old(self).ip + 1) as usize,
            ) && final(self).cells@ == old(self).cells@.update(
                old(self).head as int,
                old(r).remaining()[0],
            ) && final(r).remaining() == old(r).remaining().skip(1) && final(self).ip == old(self).ip + 1,
    {
        match r.next_byte() {
            None => Err(VMError::ReadError),
            Some(b) => {
                self.cells.set(self.head, b);
                self.ip = self.ip + 1;
                Ok(self.ip)
            },
        }
    }

    /// Writes one byte, the cell under the head, to the output sink.  The
    /// in-memory sink always accepts it; the instruction pointer advances
    /// and its new value is handed back.
    pub fn output(&mut self, w: &mut OutputStream) -> (res: Result<usize, VMError>)
        requires
            old(self).inv(),
            old(self).ip < usize::MAX,
        ensures
            final(self).inv(),
            res == Ok::<usize, VMError>((old(self).ip + 1) as usize),
            final(w).bytes@ == old(w).bytes@.push(old(self).cells@[old(self).head as int]),
            final(self).ip == old(self).ip + 1,
            final(self).size == old(self).size,
            final(self).growable == old(self).growable,
            final(self).cells@ == old(self).cells@,
            final(self).head == old(self).head,
            final(self).state == old(self).state,
            final(self).program == old(self).program,
    {
        let b = self.cells[self.head];
        w.push_byte(b);
        self.ip = self.ip + 1;
        Ok(self.ip)
    }

    /// Finds the index of the closing bracket matching the opening bracket
    /// under the instruction pointer, by a forward scan with a depth
    /// counter.  Validation guarantees the scan finds it inside the program.
    fn find_forward(&self) -> (m: usize)
        requires
            self.inv(),
            balanced(self.program.ins@),
            self.ip < self.program.ins@.len(),
            is_open(self.program.ins@[self.ip as int]),
        ensures
            m == fwd_scan(self.program.ins@, self.ip + 1, 1),
            self.ip < m < self.program.ins@.len(),
            is_close(self.program.ins@[m as int]),
    {
        let ghost prog = self.program.ins@;
        proof {
            assert(net_depth(prog.take(self.ip as int)) >= 0);
            lemma_net_depth_take_succ(prog, self.ip as int);
            lemma_fwd_scan_finds(prog, self.ip + 1, 1);
        }
        let ghost m_spec = fwd_scan(prog, self.ip + 1, 1);
        let n = self.program.ins.len();
        let mut j: usize = self.ip + 1;
        let mut depth: usize = 1;
        while depth > 0
            invariant
                prog == self.program.ins@,
                n == prog.len(),
                self.ip < n,
                self.ip < j <= n,
                depth <= j - self.ip,
                self.ip + 1 <= m_spec < n,
                is_close(prog[m_spec as int]),
                depth > 0 ==> j <= m_spec && fwd_scan(prog, j as int, depth as int) == m_spec,
                depth == 0 ==> j == m_spec,
            decreases m_spec - j, depth,
        {
            match self.program.ins[j] {
                Instruction::JumpBack(_, _) => {
                    if depth == 1 {
                        depth = 0;
                    } else {
                        depth = depth - 1;
                        j = j + 1;
                        proof {
                            lemma_fwd_scan_bounds(prog, j as int, depth as int);
                        }
                    }
                },
                Instruction::JumpForward(_, _) => {
                    depth = depth + 1;
                    j = j + 1;
                    proof {
                        lemma_fwd_scan_bounds(prog, j as int, depth as int);
                    }
                },
                _ => {
                    j = j + 1;
                    proof {
                        lemma_fwd_scan_bounds(prog, j as int, depth as int);
                    }
                },
            }
        }
        j
    }

    /// Finds the index of the opening bracket matching the closing bracket
    /// under the instruction pointer, by a backward scan with a depth
    /// counter.  Validation guarantees the scan finds it at or after index 0.
    fn find_backward(&self) -> (m: usize)
        requires
            self.inv(),
            balanced(self.program.ins@),
            self.ip < self.program.ins@.len(),
            is_close(self.program.ins@[self.ip as int]),
        ensures
            m == bwd_scan(self.program.ins@, self.ip - 1, 1),
            m < self.ip,
            is_open(self.program.ins@[m as int]),
    {
        let ghost prog = self.program.ins@;
        proof {
            assert(net_depth(prog.take(self.ip + 1)) >= 0);
            lemma_net_depth_take_succ(prog, self.ip as int);
            assert(net_depth(prog.take(self.ip as int)) >= 1);
            lemma_bwd_scan_finds(prog, self.ip - 1, 1);
        }
        let ghost m_spec = bwd_scan(prog, self.ip - 1, 1);
        let mut j: usize = self.ip - 1;
        let mut depth: usize = 1;
        while depth > 0
            invariant
                prog == self.program.ins@,
                self.ip < prog.len(),
                j < self.ip,
                depth <= self.ip - j,
                0 <= m_spec <= self.ip - 1,
                is_open(prog[m_spec as int]),
                depth > 0 ==> m_spec <= j && bwd_scan(prog, j as int, depth as int) == m_spec,
                depth == 0 ==> j == m_spec,
            decreases j - m_spec, depth,
        {
            match self.program.ins[j] {
                Instruction::JumpForward(_, _) => {
                    if depth == 1 {
                        depth = 0;
                    } else {
                        depth = depth - 1;
                        proof {
                            lemma_bwd_scan_bounds(prog, j - 1, depth as int);
                        }
                        j = j - 1;
                    }
                },
                Instruction::JumpBack(_, _) => {
                    depth = depth + 1;
                    proof {
                        lemma_bwd_scan_bounds(prog, j - 1, depth as int);
                    }
                    j = j - 1;
                },
                _ => {
                    proof {
                        lemma_bwd_scan_bounds(prog, j - 1, depth as int);
                    }
                    j = j - 1;
                },
            }
        }
        j
    }

    /// Fetches, decodes and executes the one instruction under the
    /// instruction pointer, against the step relation of the semantics.  A
    /// failing instruction changes nothing.
    fn step_once(&mut self, input: &mut InputStream, output: &mut OutputStream) -> (r: Result<
        (),
        VMError,
    >)
        requires
            old(self).inv(),
            old(input).inv(),
            balanced(old(self).program.ins@),
            old(self).ip < old(self).program.ins@.len(),
        ensures
            final(self).inv(),
            final(input).inv(),
            final(self).growable == old(self).growable,
            final(self).program == old(self).program,
            final(self).state == old(self).state,
            final(input).bytes@ == old(input).bytes@,
            match r {
                Ok(_) => step_spec(
                    old(self).program.ins@,
                    old(self).growable,
                    old(self).cfg(*old(input), *old(output)),
                ) == Ok::<Config, VMError>(final(self).cfg(*final(input), *final(output))),
                Err(e) => step_spec(
                    old(self).program.ins@,
                    old(self).growable,
                    old(self).cfg(*old(input), *old(output)),
                ) == Err::<Config, VMError>(e) && *final(self) == *old(self) && *final(input)
                    == *old(input) && *final(output) == *old(output),
            },
    {
        let ghost prog = self.program.ins@;
        let ghost grow = self.growable;
        let ghost c0 = self.cfg(*input, *output);
        let n = self.program.ins.len();
        match self.program.ins[self.ip] {
            Instruction::IncrementDP(_, _) => {
                match self.move_head_right() {
                    Ok(_) => {
                        proof {
                            assert(step_spec(prog, grow, c0) == Ok::<Config, VMError>(
                                self.cfg(*input, *output),
                            )) by {
                                assert(step_spec(prog, grow, c0)->Ok_0 =~= self.cfg(
                                    *input,
                                    *output,
                                ));
                            }
                        }
                        Ok(())
                    },
                    Err(e) => Err(e),
                }
            },
            Instruction::DecrementDP(_, _) => {
                match self.move_head_left() {
                    Ok(_) => {
                        proof {
                            assert(step_spec(prog, grow, c0)->Ok_0 =~= self.cfg(*input, *output));
                        }
                        Ok(())
                    },
                    Err(e) => Err(e),
                }
            },
            Instruction::IncrementByte(_, _) => {
                let mut b = self.cells[self.head];
                b.wrapping_increment();
                self.cells.set(self.head, b);
                self.ip = self.ip + 1;
                proof {
                    assert(step_spec(prog, grow, c0)->Ok_0 =~= self.cfg(*input, *output));
                }
                Ok(())
            },
            Instruction::DecrementByte(_, _) => {
                let mut b = self.cells[self.head];
                b.wrapping_decrement();
                self.cells.set(self.head, b);
                self.ip = self.ip + 1;
                proof {
                    assert(step_spec(prog, grow, c0)->Ok_0 =~= self.cfg(*input, *output));
                }
                Ok(())
            },
            Instruction::Output(_, _) => {
                match self.output(output) {
                    Ok(_) => {
                        proof {
                            assert(step_spec(prog, grow, c0)->Ok_0 =~= self.cfg(*input, *output));
                        }
                        Ok(())
                    },
                    Err(e) => Err(e),
                }
            },
            Instruction::Input(_, _) => {
                match self.input(input) {
                    Ok(_) => {
                        proof {
                            assert(step_spec(prog, grow, c0)->Ok_0 =~= self.cfg(*input, *output));
                        }
                        Ok(())
                    },
                    Err(e) => Err(e),
                }
            },
            Instruction::JumpForward(_, _) => {
                if self.cells[self.head] == 0 {
                    let m = self.find_forward();
                    self.ip = m + 1;
                } else {
                    self.ip = self.ip + 1;
                }
                proof {
                    assert(step_spec(prog, grow, c0)->Ok_0 =~= self.cfg(*input, *output));
                }
                Ok(())
            },
            Instruction::JumpBack(_, _) => {
                if self.cells[self.head] != 0 {
                    let m = self.find_backward();
                    self.ip = m + 1;
                } else {
                    self.ip = self.ip + 1;
                }
                proof {
                    assert(step_spec(prog, grow, c0)->Ok_0 =~= self.cfg(*input, *output));
                }
                Ok(())
            },
            Instruction::Comment(_, _, _) => {
                self.ip = self.ip + 1;
                proof {
                    assert(step_spec(prog, grow, c0)->Ok_0 =~= self.cfg(*input, *output));
                }
                Ok(())
            },
        }
    }

    /// Runs the program this machine is bound to, reading from `input` and
    /// writing to `output`, for at most `max_steps` instructions.
    ///
    /// The machine executes its program at most once: asking a halted
    /// machine to run again fails with `AlreadyExecuted` and changes
    /// nothing.  Otherwise the run follows the step semantics exactly:
    /// `Ok(true)` means the instruction pointer reached the end of the
    /// program, `Ok(false)` that the budget ran out first (a later call
    /// resumes), and an error halts the machine at the failing instruction
    /// with tape and pointer left as they were at that moment.
    pub fn interpret(&mut self, input: &mut InputStream, output: &mut OutputStream, max_steps: u64) -> (r:
        Result<bool, VMError>)
        requires
            old(self).inv(),
            old(input).inv(),
            balanced(old(self).program.ins@),
        ensures
            final(self).inv(),
            final(input).inv(),
            final(self).growable == old(self).growable,
            final(self).program == old(self).program,
            final(input).bytes@ == old(input).bytes@,
            old(self).state is Halted ==> r == Err::<bool, VMError>(VMError::AlreadyExecuted)
                && *final(self) == *old(self) && *final(input) == *old(input) && *final(output)
                == *old(output),
            !(old(self).state is Halted) ==> (match r {
                Ok(done) => {
                    if done {
                        run_n(
                            old(self).program.ins@,
                            old(self).growable,
                            old(self).cfg(*old(input), *old(output)),
                            max_steps as nat,
                        ) == Outcome::Done(final(self).cfg(*final(input), *final(output))) && final(self).state is Halted
                    } else {
                        run_n(
                            old(self).program.ins@,
                            old(self).growable,
                            old(self).cfg(*old(input), *old(output)),
                            max_steps as nat,
                        ) == Outcome::Running(final(self).cfg(*final(input), *final(output)))
                            && final(self).state is Running
                    }
                },
                Err(e) => run_n(
                    old(self).program.ins@,
                    old(self).growable,
                    old(self).cfg(*old(input), *old(output)),
                    max_steps as nat,
                ) == Outcome::Failed(e, final(self).cfg(*final(input), *final(output))) && final(self).state is Halted,
            }),
    {
        match self.state {
            RunState::Halted => {
                return Err(VMError::AlreadyExecuted);
            },
            _ => {},
        }
        self.state = RunState::Running;
        let ghost prog = self.program.ins@;
        let ghost grow = self.growable;
        let ghost c0 = self.cfg(*input, *output);
        proof {
            assert(c0 =~= old(self).cfg(*old(input), *old(output)));
        }
        let n = self.program.ins.len();
        let mut steps: u64 = 0;
        while steps < max_steps && self.ip < n
            invariant
                self.inv(),
                input.inv(),
                prog == self.program.ins@,
                n == prog.len(),
                grow == self.growable,
                balanced(prog),
                self.state == RunState::Running,
                !(old(self).state is Halted),
                c0 == old(self).cfg(*old(input), *old(output)),
                self.program == old(self).program,
                self.growable == old(self).growable,
                input.bytes@ == old(input).bytes@,
                steps <= max_steps,
                run_n(prog, grow, c0, steps as nat) == (if self.ip < n {
                    Outcome::Running(self.cfg(*input, *output))
                } else {
                    Outcome::Done(self.cfg(*input, *output))
                }),
            decreases max_steps - steps,
        {
            let ghost c_pre = self.cfg(*input, *output);
            match self.step_once(input, output) {
                Ok(_) => {
                    proof {
                        let c_post = self.cfg(*input, *output);
                        lemma_run_extend(prog, grow, c0, c_pre, steps as nat);
                        assert(run_n(prog, grow, c0, (steps + 1) as nat) == run_n(
                            prog,
                            grow,
                            c_pre,
                            1,
                        ));
                        reveal_with_fuel(run_n, 2);
                        assert(run_n(prog, grow, c_pre, 1) == (if c_post.ip >= prog.len() {
                            Outcome::Done(c_post)
                        } else {
                            Outcome::Running(c_post)
                        }));
                    }
                    steps = steps + 1;
                },
                Err(e) => {
                    proof {
                        lemma_run_extend(prog, grow, c0, c_pre, steps as nat);
                        reveal_with_fuel(run_n, 2);
                        assert(run_n(prog, grow, c_pre, 1) == Outcome::Failed(e, c_pre));
                        lemma_run_absorb(prog, grow, c0, (steps + 1) as nat, max_steps as nat);
                    }
                    self.state = RunState::Halted;
                    return Err(e);
                },
            }
        }
        if self.ip >= n {
            proof {
                lemma_run_absorb(prog, grow, c0, steps as nat, max_steps as nat);
            }
            self.state = RunState::Halted;
            Ok(true)
        } else {
            Ok(false)
        }
    }
}

} // verus!
