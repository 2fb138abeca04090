//! Bounded deterministic scripting VM: a stack machine over `i64` with a
//! fixed stack capacity and a per-run instruction budget.
use vstd::prelude::*;

use crate::subsystems::physics::{
    clamp_i64, saturating_add_i64, saturating_mul_i64, saturating_sub_i64,
};

verus! {

#[derive(Clone, Copy, Debug, PartialEq, Eq)]
pub enum Instruction {
    Push(i64),
    Add,
    Sub,
    Mul,
    Halt,
}

#[derive(Clone, Copy, Debug, PartialEq, Eq, Structural)]
pub enum ScriptError {
    StackOverflow,
    StackUnderflow,
    InstructionBudgetExceeded,
    AllocationFailed,
}

/// The machine state that execution reads and writes.
pub struct VmState {
    pub stack: Seq<i64>,
    pub pc: nat,
    pub halted: bool,
    pub last_error: Option<ScriptError>,
}

pub open spec fn spec_binary(op: Instruction, lhs: i64, rhs: i64) -> i64 {
    match op {
        Instruction::Add => clamp_i64(lhs + rhs),
        Instruction::Sub => clamp_i64(lhs - rhs),
        _ => clamp_i64(lhs * rhs),
    }
}

/// Executes the instruction at `pc` (which has already been counted against
/// the budget). `Push` on a full stack overflows; an arithmetic instruction
/// pops its right operand, then its left, and underflows at the first missing
/// one, keeping the pops already made.
pub open spec fn spec_step(program: Seq<Instruction>, s: VmState, stack_capacity: nat) -> VmState {
    let instruction = program[s.pc as int];
    let s1 = VmState { pc: s.pc + 1, ..s };
    match instruction {
        Instruction::Push(value) => if s.stack.len() == stack_capacity {
            VmState { last_error: Some(ScriptError::StackOverflow), ..s1 }
        } else {
            VmState { stack: s.stack.push(value), ..s1 }
        },
        Instruction::Halt => VmState { halted: true, ..s1 },
        _ => if s.stack.len() == 0 {
            VmState { last_error: Some(ScriptError::StackUnderflow), ..s1 }
        } else if s.stack.len() == 1 {
            VmState { stack: Seq::empty(), last_error: Some(ScriptError::StackUnderflow), ..s1 }
        } else {
            let n = s.stack.len();
            VmState {
                stack: s.stack.take(n - 2).push(
                    spec_binary(instruction, s.stack[n - 2], s.stack[n - 1]),
                ),
                ..s1
            }
        },
    }
}

/// Whether the instruction at `pc` stops the run with an error.
pub open spec fn spec_step_fails(program: Seq<Instruction>, s: VmState, stack_capacity: nat) -> bool {
    match program[s.pc as int] {
        Instruction::Push(_) => s.stack.len() == stack_capacity,
        Instruction::Halt => false,
        _ => s.stack.len() < 2,
    }
}

/// Runs until the machine halts, runs off the end of the program, reports an
/// error, or has executed `budget` instructions with more left to run (which
/// records `InstructionBudgetExceeded`).
pub open spec fn spec_run(
    program: Seq<Instruction>,
    s: VmState,
    budget: nat,
    stack_capacity: nat,
) -> VmState
    decreases budget,
{
    if s.halted || s.pc >= program.len() {
        s
    } else if budget == 0 {
        VmState { last_error: Some(ScriptError::InstructionBudgetExceeded), ..s }
    } else if spec_step_fails(program, s, stack_capacity) {
        spec_step(program, s, stack_capacity)
    } else {
        spec_run(program, spec_step(program, s, stack_capacity), (budget - 1) as nat, stack_capacity)
    }
}

/// `Sub` subtracts the top of the stack from the value below it: on a
/// stack ending `[.., a, b]` it leaves `[.., a - b]`, saturated to the `i64`
/// range, and keeps everything beneath.
pub proof fn law_sub_subtracts_top_from_below(program: Seq<Instruction>, s: VmState, stack_capacity: nat)
    requires
        s.pc < program.len(),
        program[s.pc as int] == Instruction::Sub,
        s.stack.len() >= 2,
    ensures
        ({
            let n = s.stack.len() as int;
            let a = s.stack[n - 2];
            let b = s.stack[n - 1];
            let after = spec_step(program, s, stack_capacity);
            &&& !spec_step_fails(program, s, stack_capacity)
            &&& after.stack.len() == n - 1
            &&& forall|i: int| 0 <= i < n - 2 ==> #[trigger] after.stack[i] == s.stack[i]
            &&& i64::MIN <= a - b <= i64::MAX ==> after.stack[n - 2] == a - b
            &&& a - b > i64::MAX ==> after.stack[n - 2] == i64::MAX
            &&& a - b < i64::MIN ==> after.stack[n - 2] == i64::MIN
            &&& after.pc == s.pc + 1 && after.halted == s.halted && after.last_error == s.last_error
        }),
{
    let n = s.stack.len() as int;
    let after = spec_step(program, s, stack_capacity);
    assert(after.stack == s.stack.take(n - 2).push(spec_binary(Instruction::Sub, s.stack[n - 2], s.stack[n - 1])));
}

/// Running `Push(a), Push(b), Sub, Halt` on an empty stack leaves exactly
/// `a - b` (saturated), whatever `a` and `b` are.
pub proof fn law_push_push_sub_leaves_difference(a: i64, b: i64, budget: nat, stack_capacity: nat)
    requires
        budget >= 4,
        stack_capacity >= 2,
    ensures
        ({
            let program = seq![Instruction::Push(a), Instruction::Push(b), Instruction::Sub, Instruction::Halt];
            let start = VmState { stack: Seq::empty(), pc: 0, halted: false, last_error: None };
            let end = spec_run(program, start, budget, stack_capacity);
            let expected: int = if a - b > i64::MAX {
                i64::MAX as int
            } else if a - b < i64::MIN {
                i64::MIN as int
            } else {
                a - b
            };
            &&& end.stack.len() == 1
            &&& end.stack[0] == expected
            &&& end.halted
            &&& end.last_error is None
        }),
{
    let program = seq![Instruction::Push(a), Instruction::Push(b), Instruction::Sub, Instruction::Halt];
    let s0 = VmState { stack: Seq::empty(), pc: 0, halted: false, last_error: None };
    let s1 = spec_step(program, s0, stack_capacity);
    assert(s1.stack =~= seq![a]);
    let s2 = spec_step(program, s1, stack_capacity);
    assert(s2.stack =~= seq![a, b]);
    let s3 = spec_step(program, s2, stack_capacity);
    assert(s3.stack =~= seq![spec_binary(Instruction::Sub, a, b)]);
    let s4 = spec_step(program, s3, stack_capacity);
    assert(s4.halted);
    assert(spec_run(program, s4, (budget - 4) as nat, stack_capacity) == s4);
    assert(spec_run(program, s3, (budget - 3) as nat, stack_capacity) == s4);
    assert(spec_run(program, s2, (budget - 2) as nat, stack_capacity) == s4);
    assert(spec_run(program, s1, (budget - 1) as nat, stack_capacity) == s4);
    assert(spec_run(program, s0, budget, stack_capacity) == s4);
}

pub struct ScriptingSubsystem {
    program: Vec<Instruction>,
    program_capacity: usize,
    stack: Vec<i64>,
    stack_capacity: usize,
    instruction_budget: usize,
    pc: usize,
    halted: bool,
    last_error: Option<ScriptError>,
}

impl ScriptingSubsystem {
    pub closed spec fn wf(&self) -> bool {
        &&& self.stack@.len() <= self.stack_capacity
        &&& self.program@.len() <= self.program_capacity
    }

    pub closed spec fn state(&self) -> VmState {
        VmState {
            stack: self.stack@,
            pc: self.pc as nat,
            halted: self.halted,
            last_error: self.last_error,
        }
    }

    pub closed spec fn spec_program(&self) -> Seq<Instruction> {
        self.program@
    }

    pub closed spec fn spec_program_capacity(&self) -> nat {
        self.program_capacity as nat
    }

    pub closed spec fn spec_stack_capacity(&self) -> nat {
        self.stack_capacity as nat
    }

    pub closed spec fn spec_instruction_budget(&self) -> nat {
        self.instruction_budget as nat
    }

    pub open spec fn fresh(&self, program_capacity: usize, stack_capacity: usize, instruction_budget: usize) -> bool {
        &&& self.wf()
        &&& self.spec_program() == Seq::<Instruction>::empty()
        &&& self.state() == (VmState { stack: Seq::empty(), pc: 0, halted: false, last_error: None })
        &&& self.spec_program_capacity() == program_capacity
        &&& self.spec_stack_capacity() == stack_capacity
        &&& self.spec_instruction_budget() == instruction_budget
    }

    pub fn with_capacity(program_capacity: usize, stack_capacity: usize, instruction_budget: usize) -> (r: Self)
        ensures
            r.fresh(program_capacity, stack_capacity, instruction_budget),
    {
        Self {
            program: Vec::with_capacity(program_capacity),
            program_capacity,
            stack: Vec::with_capacity(stack_capacity),
            stack_capacity,
            instruction_budget,
            pc: 0,
            halted: false,
            last_error: None,
        }
    }

    pub fn try_with_capacity(program_capacity: usize, stack_capacity: usize, instruction_budget: usize) -> (r: Result<Self, ScriptError>)
        ensures
            r matches Ok(vm) ==> vm.fresh(program_capacity, stack_capacity, instruction_budget),
            r matches Err(e) ==> e == ScriptError::AllocationFailed,
    {
        let mut program: Vec<Instruction> = Vec::new();
        if program.try_reserve(program_capacity).is_err() {
            return Err(ScriptError::AllocationFailed);
        }
        let mut stack: Vec<i64> = Vec::new();
        if stack.try_reserve(stack_capacity).is_err() {
            return Err(ScriptError::AllocationFailed);
        }
        Ok(Self {
            program,
            program_capacity,
            stack,
            stack_capacity,
            instruction_budget,
            pc: 0,
            halted: false,
            last_error: None,
        })
    }

    /// Replaces the program and resets the machine; refuses (changing
    /// nothing) a program longer than the program capacity.
    pub fn load(&mut self, program: &[Instruction]) -> (r: bool)
        requires
            old(self).wf(),
        ensures
            final(self).wf(),
            r == (program@.len() <= old(self).spec_program_capacity()),
            final(self).spec_program_capacity() == old(self).spec_program_capacity(),
            final(self).spec_stack_capacity() == old(self).spec_stack_capacity(),
            final(self).spec_instruction_budget() == old(self).spec_instruction_budget(),
            r ==> final(self).spec_program() == program@ && final(self).state() == (VmState {
                stack: Seq::empty(),
                pc: 0,
                halted: false,
                last_error: None,
            }),
            !r ==> final(self).spec_program() == old(self).spec_program() && final(self).state()
                == old(self).state(),
    {
        if program.len() > self.program_capacity {
            return false;
        }
        self.program.clear();
        let mut i: usize = 0;
        while i < program.len()
            invariant
                i <= program@.len(),
                program@.len() <= self.program_capacity,
                self.program@ == program@.take(i as int),
                self.program_capacity == old(self).program_capacity,
                self.stack_capacity == old(self).stack_capacity,
                self.instruction_budget == old(self).instruction_budget,
                self.stack@ == old(self).stack@,
                self.stack@.len() <= self.stack_capacity,
            decreases program.len() - i,
        {
            self.program.push(program[i]);
            i = i + 1;
            proof {
                assert(self.program@ =~= program@.take(i as int));
            }
        }
        proof {
            assert(self.program@ =~= program@);
        }
        self.stack.clear();
        self.pc = 0;
        self.halted = false;
        self.last_error = None;
        true
    }

    pub fn stack(&self) -> (r: &[i64])
        ensures
            r@ == self.state().stack,
    {
        self.stack.as_slice()
    }

    pub fn last_error(&self) -> (r: Option<ScriptError>)
        ensures
            r == self.state().last_error,
    {
        self.last_error
    }

    /// Runs the loaded program from the current position under the
    /// instruction budget.
    pub fn execute(&mut self)
        requires
            old(self).wf(),
        ensures
            final(self).wf(),
            final(self).spec_program() == old(self).spec_program(),
            final(self).spec_program_capacity() == old(self).spec_program_capacity(),
            final(self).spec_stack_capacity() == old(self).spec_stack_capacity(),
            final(self).spec_instruction_budget() == old(self).spec_instruction_budget(),
            final(self).state() == spec_run(
                old(self).spec_program(),
                old(self).state(),
                old(self).spec_instruction_budget(),
                old(self).spec_stack_capacity(),
            ),
    {
        let mut executed: usize = 0;
        while !self.halted && self.pc < self.program.len()
            invariant
                self.wf(),
                executed <= self.instruction_budget,
                self.program@ == old(self).program@,
                self.program_capacity == old(self).program_capacity,
                self.stack_capacity == old(self).stack_capacity,
                self.instruction_budget == old(self).instruction_budget,
                spec_run(self.program@, self.state(), (self.instruction_budget - executed) as nat, self.stack_capacity as nat)
                    == spec_run(old(self).program@, old(self).state(), old(self).instruction_budget as nat, old(self).stack_capacity as nat),
            decreases self.instruction_budget - executed,
        {
            if executed == self.instruction_budget {
                self.last_error = Some(ScriptError::InstructionBudgetExceeded);
                return;
            }
            let ghost before = self.state();
            let instruction = self.program[self.pc];
            self.pc = self.pc + 1;
            executed = executed + 1;
            match instruction {
                Instruction::Push(value) => {
                    if self.stack.len() == self.stack_capacity {
                        self.last_error = Some(ScriptError::StackOverflow);
                        return;
                    }
                    self.stack.push(value);
                },
                Instruction::Halt => {
                    self.halted = true;
                },
                _ => {
                    let rhs = match self.stack.pop() {
                        Some(v) => v,
                        None => {
                            self.last_error = Some(ScriptError::StackUnderflow);
                            proof {
                                assert(self.stack@ =~= Seq::<i64>::empty());
                            }
                            return;
                        },
                    };
                    let lhs = match self.stack.pop() {
                        Some(v) => v,
                        None => {
                            self.last_error = Some(ScriptError::StackUnderflow);
                            proof {
                                assert(self.stack@ =~= Seq::<i64>::empty());
                            }
                            return;
                        },
                    };
                    let value = match instruction {
                        Instruction::Add => saturating_add_i64(lhs, rhs),
                        Instruction::Sub => saturating_sub_i64(lhs, rhs),
                        _ => saturating_mul_i64(lhs, rhs),
                    };
                    self.stack.push(value);
                    proof {
                        let n = before.stack.len();
                        assert(self.stack@ =~= before.stack.take(n - 2).push(spec_binary(instruction, before.stack[n - 2], before.stack[n - 1])));
                    }
                },
            }
        }
    }

    /// One fixed step: a machine that has neither halted nor failed runs.
    pub fn tick(&mut self)
        requires
            old(self).wf(),
        ensures
            final(self).wf(),
            final(self).spec_program() == old(self).spec_program(),
            final(self).state() == (if !old(self).state().halted && old(self).state().last_error is None {
                spec_run(
                    old(self).spec_program(),
                    old(self).state(),
                    old(self).spec_instruction_budget(),
                    old(self).spec_stack_capacity(),
                )
            } else {
                old(self).state()
            }),
    {
        if !self.halted && self.last_error.is_none() {
            self.execute();
        }
    }
}

impl Default for ScriptingSubsystem {
    fn default() -> (r: Self)
        ensures
            r.fresh(256, 64, 1024),
    {
        Self::with_capacity(256, 64, 1024)
    }
}

} // verus!
