//! The instruction set and the machine that runs it.

pub use crate::compiler::{compile, run_instructions};
use crate::error::{ErrorView, VMError};
use crate::semantics::{
    array_step, binary_step, fresh_state, is_binary, lookup, pushed, run, step, Frame,
    InstructionView, MachineState,
};
use crate::text::decimal_text;
use crate::types::{
    lemma_views, lemma_views_drop_last, lemma_views_push, lemma_views_update, views, VMArray,
    VMBinaryOp, VMCompare, Value, ValueView,
};
use vstd::hash_map::StringHashMap;
use vstd::prelude::*;
use vstd::string::*;

verus! {

/// What an array instruction does.
#[derive(Debug, Clone, Copy)]
pub enum ArrayOperation {
    Push,
    Pop,
    Get,
    Put,
}

/// One operation of the machine. Jump targets are indices into the whole
/// program.
#[derive(Debug)]
pub enum Instruction {
    Push(Value),
    Pop,
    Add,
    Sub,
    Mul,
    Div,
    Greater,
    Less,
    Equal,
    NotEqual,
    Jmp(usize),
    Jz(usize),
    Label(String),
    Store(String),
    Load(String),
    BeginScope,
    EndScope,
    CreateArray,
    ArrayOp(ArrayOperation),
}

impl View for Instruction {
    type V = InstructionView;

    open spec fn view(&self) -> InstructionView {
        match *self {
            Instruction::Push(value) => InstructionView::Push(value@),
            Instruction::Pop => InstructionView::Pop,
            Instruction::Add => InstructionView::Add,
            Instruction::Sub => InstructionView::Sub,
            Instruction::Mul => InstructionView::Mul,
            Instruction::Div => InstructionView::Div,
            Instruction::Greater => InstructionView::Greater,
            Instruction::Less => InstructionView::Less,
            Instruction::Equal => InstructionView::Equal,
            Instruction::NotEqual => InstructionView::NotEqual,
            Instruction::Jmp(target) => InstructionView::Jmp(target as nat),
            Instruction::Jz(target) => InstructionView::Jz(target as nat),
            Instruction::Label(name) => InstructionView::Label(name@),
            Instruction::Store(name) => InstructionView::Store(name@),
            Instruction::Load(name) => InstructionView::Load(name@),
            Instruction::BeginScope => InstructionView::BeginScope,
            Instruction::EndScope => InstructionView::EndScope,
            Instruction::CreateArray => InstructionView::CreateArray,
            Instruction::ArrayOp(ArrayOperation::Push) => InstructionView::ArrayPush,
            Instruction::ArrayOp(ArrayOperation::Pop) => InstructionView::ArrayPop,
            Instruction::ArrayOp(ArrayOperation::Get) => InstructionView::ArrayGet,
            Instruction::ArrayOp(ArrayOperation::Put) => InstructionView::ArrayPut,
        }
    }
}

impl Clone for Instruction {
    /// A copy with the same content.
    fn clone(&self) -> (copy: Self)
        ensures
            copy@ == self@,
    {
        match self {
            Instruction::Push(value) => Instruction::Push(value.clone()),
            Instruction::Pop => Instruction::Pop,
            Instruction::Add => Instruction::Add,
            Instruction::Sub => Instruction::Sub,
            Instruction::Mul => Instruction::Mul,
            Instruction::Div => Instruction::Div,
            Instruction::Greater => Instruction::Greater,
            Instruction::Less => Instruction::Less,
            Instruction::Equal => Instruction::Equal,
            Instruction::NotEqual => Instruction::NotEqual,
            Instruction::Jmp(target) => Instruction::Jmp(*target),
            Instruction::Jz(target) => Instruction::Jz(*target),
            Instruction::Label(name) => Instruction::Label(name.clone()),
            Instruction::Store(name) => Instruction::Store(name.clone()),
            Instruction::Load(name) => Instruction::Load(name.clone()),
            Instruction::BeginScope => Instruction::BeginScope,
            Instruction::EndScope => Instruction::EndScope,
            Instruction::CreateArray => Instruction::CreateArray,
            Instruction::ArrayOp(op) => Instruction::ArrayOp(*op),
        }
    }
}

/// The views of a sequence of instructions, one by one.
pub open spec fn code_view(code: Seq<Instruction>) -> Seq<InstructionView> {
    code.map_values(|instruction: Instruction| instruction@)
}

/// The mathematical content of one scope's variables.
pub open spec fn frame_view(frame: StringHashMap<Value>) -> Frame {
    frame@.map_values(|value: Value| value@)
}

/// The mathematical content of the scopes, one by one.
pub open spec fn frames_view(frames: Seq<StringHashMap<Value>>) -> Seq<Frame> {
    frames.map_values(|frame: StringHashMap<Value>| frame_view(frame))
}

/// The machine: an operand stack, an instruction pointer and the scopes'
/// variables, with a bound on the stack's depth and one on the steps of a run.
pub struct VM {
    /// The operand stack, top last.
    pub stack: Vec<Value>,
    /// The index of the instruction to run next.
    pub ip: usize,
    /// The scopes, innermost last; the first is the global one.
    pub env_stack: Vec<StringHashMap<Value>>,
    /// The depth that the operand stack may not exceed.
    pub max_stack_size: usize,
    /// The number of instructions that one run may execute.
    pub max_steps: u64,
}

impl View for VM {
    type V = MachineState;

    /// The machine between runs: no scope counts as opened by a run.
    open spec fn view(&self) -> MachineState {
        self.state(0)
    }
}

impl VM {
    /// The machine's state in a run that has `open_scopes` scopes open.
    pub open spec fn state(&self, open_scopes: nat) -> MachineState {
        MachineState {
            stack: views(self.stack@),
            ip: self.ip as nat,
            frames: frames_view(self.env_stack@),
            open_scopes,
        }
    }

    /// How a run of `code` on this machine ends: in which state, or with
    /// which error.
    pub open spec fn outcome(&self, code: Seq<Instruction>) -> Result<MachineState, ErrorView> {
        run(self@, code_view(code), self.max_stack_size as nat, self.max_steps as nat)
    }

    /// A machine is well formed when it has its global scope.
    pub open spec fn wf(&self) -> bool {
        self.env_stack.len() > 0
    }

    /// Whether `self` has the limits of `other`.
    pub open spec fn same_limits(&self, other: &VM) -> bool {
        &&& self.max_stack_size == other.max_stack_size
        &&& self.max_steps == other.max_steps
    }

    /// A machine that has run nothing: an empty stack, the global scope
    /// alone and empty, room for 4000 operands, and no bound on a run's
    /// length short of the largest count.
    pub fn new() -> (vm: Self)
        ensures
            vm.wf(),
            vm@ == fresh_state(),
            vm.max_stack_size == 4000,
            vm.max_steps == u64::MAX,
    {
        let mut env_stack: Vec<StringHashMap<Value>> = Vec::new();
        env_stack.push(StringHashMap::new());
        let vm = VM {
            stack: Vec::new(),
            ip: 0,
            env_stack,
            max_stack_size: 4000,
            max_steps: u64::MAX,
        };
        proof {
            assert(frame_view(vm.env_stack[0]) =~= Map::<Seq<char>, ValueView>::empty());
            assert(vm@.frames =~= seq![Map::<Seq<char>, ValueView>::empty()]);
            assert(vm@.stack =~= Seq::<ValueView>::empty());
        }
        vm
    }

    /// The value of the variable `name`: that of the innermost scope that
    /// declares it.
    fn get_var(&self, name: &str) -> (found: Option<Value>)
        ensures
            match lookup(self@.frames, name@) {
                Some(value) => found is Some && found->0@ == value,
                None => found is None,
            },
    {
        let ghost frames = frames_view(self.env_stack@);
        let mut i: usize = self.env_stack.len();
        assert(frames.take(i as int) =~= frames);
        while i > 0
            invariant
                frames == frames_view(self.env_stack@),
                i <= self.env_stack.len(),
                lookup(frames, name@) == lookup(frames.take(i as int), name@),
            decreases i,
        {
            i -= 1;
            proof {
                assert(frames.take(i + 1).drop_last() =~= frames.take(i as int));
                assert(frames.take(i + 1).last() == frame_view(self.env_stack[i as int]));
            }
            match self.env_stack[i].get(name) {
                Some(value) => {
                    return Some(value.clone());
                },
                None => {},
            }
        }
        None
    }

    /// Puts `value` on the operand stack, unless the stack is full.
    fn push(&mut self, value: Value) -> (r: Result<(), VMError>)
        ensures
            final(self).ip == old(self).ip,
            final(self).env_stack == old(self).env_stack,
            final(self).same_limits(old(self)),
            match pushed(old(self)@.stack, value@, old(self).max_stack_size as nat) {
                Ok(stack) => r is Ok && views(final(self).stack@) == stack,
                Err(e) => r is Err && r->Err_0@ == e,
            },
    {
        proof {
            lemma_views(self.stack@);
            lemma_views_push(self.stack@, value);
        }
        if self.stack.len() >= self.max_stack_size {
            return Err(VMError::StackOverflow);
        }
        self.stack.push(value);
        Ok(())
    }

    /// Takes the top value off the operand stack.
    fn pop_operand(&mut self) -> (r: Result<Value, VMError>)
        ensures
            final(self).ip == old(self).ip,
            final(self).env_stack == old(self).env_stack,
            final(self).same_limits(old(self)),
            match r {
                Ok(value) => {
                    &&& old(self)@.stack.len() > 0
                    &&& value@ == old(self)@.stack.last()
                    &&& views(final(self).stack@) == old(self)@.stack.drop_last()
                },
                Err(e) => old(self)@.stack.len() == 0 && e@ == ErrorView::StackUnderflow,
            },
    {
        proof {
            lemma_views(self.stack@);
            if self.stack.len() > 0 {
                lemma_views_drop_last(self.stack@);
            }
        }
        match self.stack.pop() {
            Some(value) => Ok(value),
            None => Err(VMError::StackUnderflow),
        }
    }

    /// Runs a binary instruction: takes the right operand, then the left one,
    /// and puts the result in their place.
    fn binary(&mut self, instruction: &Instruction) -> (r: Result<(), VMError>)
        requires
            is_binary(instruction@),
            old(self).ip < usize::MAX,
        ensures
            final(self).env_stack == old(self).env_stack,
            final(self).same_limits(old(self)),
            match binary_step(old(self).state(0), instruction@, old(self).max_stack_size as nat) {
                Ok(next) => r is Ok && final(self).state(0) == next,
                Err(e) => r is Err && r->Err_0@ == e,
            },
    {
        let ghost before = self.state(0).stack;
        let b = self.pop_operand()?;
        let a = self.pop_operand()?;
        assert(before.drop_last().drop_last() =~= before.take(before.len() - 2));
        let value = match instruction {
            Instruction::Add => a.add(&b)?,
            Instruction::Sub => a.sub(&b)?,
            Instruction::Mul => a.mul(&b)?,
            Instruction::Div => a.div(&b)?,
            Instruction::Greater => Value::Boolean(a.gt(&b)?),
            Instruction::Less => Value::Boolean(a.lt(&b)?),
            Instruction::Equal => Value::Boolean(a.eq(&b)),
            _ => Value::Boolean(!a.eq(&b)),
        };
        self.push(value)?;
        self.ip = self.ip + 1;
        Ok(())
    }

    /// Runs an array instruction on the operands on top of the stack.
    fn array_op(&mut self, op: ArrayOperation) -> (r: Result<(), VMError>)
        requires
            old(self).ip < usize::MAX,
        ensures
            final(self).env_stack == old(self).env_stack,
            final(self).same_limits(old(self)),
            match array_step(
                old(self).state(0),
                Instruction::ArrayOp(op)@,
                old(self).max_stack_size as nat,
            ) {
                Ok(next) => r is Ok && final(self).state(0) == next,
                Err(e) => r is Err && r->Err_0@ == e,
            },
    {
        let ghost before = self.state(0).stack;
        match op {
            ArrayOperation::Push => {
                let value = self.pop_operand()?;
                let mut array = self.pop_operand()?;
                assert(before.drop_last().drop_last() =~= before.take(before.len() - 2));
                array.push(value)?;
                self.push(array)?;
            },
            ArrayOperation::Pop => {
                let mut array = self.pop_operand()?;
                assert(before.drop_last() =~= before.take(before.len() - 1));
                let item = array.pop()?;
                self.push(array)?;
                self.push(item)?;
            },
            ArrayOperation::Get => {
                let index = self.pop_operand()?;
                let array = self.pop_operand()?;
                assert(before.drop_last().drop_last() =~= before.take(before.len() - 2));
                match array {
                    Value::Array(items) => match index {
                        Value::Number(idx) => {
                            proof {
                                lemma_views(items@);
                            }
                            let i = self.check_array_bounds(idx, items.len())?;
                            self.push(items[i].clone())?;
                        },
                        _ => {
                            return Err(
                                VMError::TypeError {
                                    message: String::from_str("Invalid array access"),
                                },
                            );
                        },
                    },
                    _ => {
                        return Err(VMError::NotAnArray);
                    },
                }
            },
            ArrayOperation::Put => {
                let value = self.pop_operand()?;
                let index = self.pop_operand()?;
                let array = self.pop_operand()?;
                assert(before.drop_last().drop_last().drop_last() =~= before.take(
                    before.len() - 3,
                ));
                match array {
                    Value::Array(mut items) => match index {
                        Value::Number(idx) => {
                            proof {
                                lemma_views(items@);
                                if 0 <= idx < items.len() {
                                    lemma_views_update(items@, idx as int, value);
                                }
                            }
                            let i = self.check_array_bounds(idx, items.len())?;
                            items[i] = value;
                            self.push(Value::Array(items))?;
                        },
                        _ => {
                            return Err(
                                VMError::TypeError {
                                    message: String::from_str("Invalid array assignment"),
                                },
                            );
                        },
                    },
                    _ => {
                        return Err(VMError::NotAnArray);
                    },
                }
            },
        }
        self.ip = self.ip + 1;
        Ok(())
    }

    /// The innermost scope.
    fn current_env(&mut self) -> (frame: &mut StringHashMap<Value>)
        requires
            old(self).wf(),
        ensures
            *frame == old(self).env_stack@.last(),
            final(self).env_stack@ == old(self).env_stack@.update(
                old(self).env_stack.len() - 1,
                *final(frame),
            ),
            final(self).stack == old(self).stack,
            final(self).ip == old(self).ip,
            final(self).same_limits(old(self)),
    {
        let last = self.env_stack.len() - 1;
        &mut self.env_stack[last]
    }

    /// Runs the instruction at the instruction pointer, in a run that has
    /// `open_scopes` scopes open, and says how many are open after it.
    fn step(&mut self, instructions: &[Instruction], open_scopes: u64) -> (r: Result<
        u64,
        VMError,
    >)
        requires
            old(self).ip < instructions.len(),
            old(self).env_stack.len() > open_scopes,
            open_scopes < u64::MAX,
        ensures
            final(self).wf(),
            final(self).same_limits(old(self)),
            match step(
                old(self).state(open_scopes as nat),
                code_view(instructions@),
                old(self).max_stack_size as nat,
            ) {
                Ok(next) => {
                    &&& r is Ok
                    &&& final(self).state(r->Ok_0 as nat) == next
                    &&& final(self).env_stack.len() > r->Ok_0
                    &&& r->Ok_0 <= open_scopes + 1
                },
                Err(e) => r is Err && r->Err_0@ == e,
            },
    {
        reveal(step);
        let ghost code = code_view(instructions@);
        assert(code[self.ip as int] == instructions[self.ip as int]@);
        match &instructions[self.ip] {
            Instruction::Push(value) => {
                self.push(value.clone())?;
                self.ip = self.ip + 1;
                Ok(open_scopes)
            },
            Instruction::Pop => {
                self.pop_operand()?;
                self.ip = self.ip + 1;
                Ok(open_scopes)
            },
            Instruction::Jmp(target) => {
                if *target >= instructions.len() {
                    let mut message = String::from_str("Jump target ");
                    message.append(decimal_text(*target as u64).as_str());
                    message.append(" out of bounds");
                    return Err(VMError::ExecutionError { message, line: 0, position: 0 });
                }
                self.ip = *target;
                Ok(open_scopes)
            },
            Instruction::Jz(target) => {
                if *target >= instructions.len() {
                    return Err(
                        VMError::InvalidJump { target: *target, max: instructions.len() },
                    );
                }
                let condition = self.pop_operand()?;
                if !condition.is_truthy() {
                    self.ip = *target;
                } else {
                    self.ip = self.ip + 1;
                }
                Ok(open_scopes)
            },
            Instruction::Label(_) => {
                self.ip = self.ip + 1;
                Ok(open_scopes)
            },
            Instruction::Store(name) => {
                let value = self.pop_operand()?;
                let ghost frames = self.env_stack@;
                let frame = self.current_env();
                frame.insert(name.clone(), value);
                proof {
                    let last = frames.len() - 1;
                    assert(frame_view(self.env_stack[last]) =~= frame_view(frames[last]).insert(
                        name@,
                        value@,
                    ));
                    assert(frames_view(self.env_stack@) =~= frames_view(frames).update(
                        last,
                        frame_view(frames[last]).insert(name@, value@),
                    ));
                }
                self.ip = self.ip + 1;
                Ok(open_scopes)
            },
            Instruction::Load(name) => {
                match self.get_var(name.as_str()) {
                    Some(value) => {
                        self.push(value)?;
                    },
                    None => {
                        return Err(VMError::UndefinedVariable { name: name.clone() });
                    },
                }
                self.ip = self.ip + 1;
                Ok(open_scopes)
            },
            Instruction::BeginScope => {
                let ghost frames = self.env_stack@;
                self.env_stack.push(StringHashMap::new());
                proof {
                    assert(frame_view(self.env_stack@.last()) =~= Map::<
                        Seq<char>,
                        ValueView,
                    >::empty());
                    assert(frames_view(self.env_stack@) =~= frames_view(frames).push(
                        Map::empty(),
                    ));
                }
                self.ip = self.ip + 1;
                Ok(open_scopes + 1)
            },
            Instruction::EndScope => {
                if open_scopes == 0 {
                    return Err(VMError::NoScopeToEnd);
                }
                let ghost frames = self.env_stack@;
                self.env_stack.pop();
                proof {
                    assert(frames_view(self.env_stack@) =~= frames_view(frames).drop_last());
                }
                self.ip = self.ip + 1;
                Ok(open_scopes - 1)
            },
            Instruction::CreateArray => {
                let empty: Vec<Value> = Vec::new();
                assert(views(empty@) =~= Seq::<ValueView>::empty());
                self.push(Value::Array(empty))?;
                self.ip = self.ip + 1;
                Ok(open_scopes)
            },
            Instruction::ArrayOp(op) => {
                self.array_op(*op)?;
                Ok(open_scopes)
            },
            binary => {
                self.binary(binary)?;
                Ok(open_scopes)
            },
        }
    }

    /// Runs `instructions` from the instruction pointer on, until the pointer
    /// leaves the program or an instruction fails. The run counts the scopes
    /// it opens: it may close only those, and must have closed them all at
    /// its end. It stops with an error after `max_steps` instructions.
    pub fn execute(&mut self, instructions: &[Instruction]) -> (r: Result<(), VMError>)
        requires
            old(self).wf(),
        ensures
            final(self).wf(),
            final(self).same_limits(old(self)),
            match old(self).outcome(instructions@) {
                Ok(end) => r is Ok && final(self)@ == end,
                Err(e) => r is Err && r->Err_0@ == e,
            },
    {
        let ghost start = self@;
        let ghost code = code_view(instructions@);
        let ghost limit = self.max_stack_size as nat;
        let mut open_scopes: u64 = 0;
        let mut steps: u64 = 0;
        while self.ip < instructions.len()
            invariant
                start == old(self)@,
                self.wf(),
                self.same_limits(old(self)),
                self.env_stack.len() > open_scopes,
                open_scopes <= steps <= self.max_steps,
                code == code_view(instructions@),
                limit == self.max_stack_size as nat,
                run(start, code, limit, self.max_steps as nat) == run(
                    self.state(open_scopes as nat),
                    code,
                    limit,
                    (self.max_steps - steps) as nat,
                ),
            decreases self.max_steps - steps,
        {
            assert(code.len() == instructions.len());
            if steps >= self.max_steps {
                return Err(
                    VMError::ExecutionError {
                        message: String::from_str("Step limit exceeded"),
                        line: 0,
                        position: 0,
                    },
                );
            }
            open_scopes = self.step(instructions, open_scopes)?;
            steps = steps + 1;
        }
        assert(code.len() == instructions.len());
        if open_scopes != 0 {
            let mut message = String::from_str("Unclosed scopes at end of execution: ");
            message.append(decimal_text(open_scopes).as_str());
            return Err(VMError::ExecutionError { message, line: 0, position: 0 });
        }
        Ok(())
    }

    /// The position that `idx` names in an array of `len` items.
    fn check_array_bounds(&self, idx: i32, len: usize) -> (r: Result<usize, VMError>)
        ensures
            match r {
                Ok(i) => 0 <= idx < len && i == idx,
                Err(e) => !(0 <= idx < len) && e@ == (ErrorView::IndexError { index: idx, len }),
            },
    {
        if idx < 0 || idx as usize >= len {
            return Err(VMError::IndexError { index: idx, len });
        }
        Ok(idx as usize)
    }
}

} // verus!
