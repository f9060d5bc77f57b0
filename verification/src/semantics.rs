//! What running a program means: the machine's state as mathematics, one
//! step of it, and a whole run.

use crate::error::ErrorView;
use crate::text::decimal;
use crate::types::ValueView;
use vstd::prelude::*;

verus! {

/// The mathematical content of an instruction.
pub enum InstructionView {
    Push(ValueView),
    Pop,
    Add,
    Sub,
    Mul,
    Div,
    Greater,
    Less,
    Equal,
    NotEqual,
    Jmp(nat),
    Jz(nat),
    Label(Seq<char>),
    Store(Seq<char>),
    Load(Seq<char>),
    BeginScope,
    EndScope,
    CreateArray,
    ArrayPush,
    ArrayPop,
    ArrayGet,
    ArrayPut,
}

/// One scope: the variables declared in it, by name.
pub type Frame = Map<Seq<char>, ValueView>;

/// The machine between two instructions.
pub struct MachineState {
    /// The operand stack, top last.
    pub stack: Seq<ValueView>,
    /// The index of the instruction to run next.
    pub ip: nat,
    /// The scopes, innermost last; the first is the global one.
    pub frames: Seq<Frame>,
    /// How many scopes this run has opened and not yet closed.
    pub open_scopes: nat,
}

/// The state of a machine that has run nothing yet.
pub open spec fn fresh_state() -> MachineState {
    MachineState { stack: Seq::empty(), ip: 0, frames: seq![Map::empty()], open_scopes: 0 }
}

/// The value that `name` stands for: that of the innermost scope that
/// declares it.
pub open spec fn lookup(frames: Seq<Frame>, name: Seq<char>) -> Option<ValueView>
    decreases frames.len(),
{
    if frames.len() == 0 {
        None
    } else if frames.last().contains_key(name) {
        Some(frames.last()[name])
    } else {
        lookup(frames.drop_last(), name)
    }
}

/// The stack with `value` on top, unless it is full already.
pub open spec fn pushed(stack: Seq<ValueView>, value: ValueView, limit: nat) -> Result<
    Seq<ValueView>,
    ErrorView,
> {
    if stack.len() >= limit {
        Err(ErrorView::StackOverflow)
    } else {
        Ok(stack.push(value))
    }
}

/// Whether the instruction takes two operands and leaves one result.
pub open spec fn is_binary(instruction: InstructionView) -> bool {
    instruction is Add || instruction is Sub || instruction is Mul || instruction is Div
        || instruction is Greater || instruction is Less || instruction is Equal
        || instruction is NotEqual
}

/// The result of a binary instruction on the operands `a` and `b`.
pub open spec fn binary_result(instruction: InstructionView, a: ValueView, b: ValueView) -> Result<
    ValueView,
    ErrorView,
>
    recommends
        is_binary(instruction),
{
    match instruction {
        InstructionView::Add => a.sum(b),
        InstructionView::Sub => a.difference(b),
        InstructionView::Mul => a.product(b),
        InstructionView::Div => a.quotient(b),
        InstructionView::Greater => match a.greater(b) {
            Ok(verdict) => Ok(ValueView::Boolean(verdict)),
            Err(e) => Err(e),
        },
        InstructionView::Less => match a.less(b) {
            Ok(verdict) => Ok(ValueView::Boolean(verdict)),
            Err(e) => Err(e),
        },
        InstructionView::Equal => Ok(ValueView::Boolean(a == b)),
        _ => Ok(ValueView::Boolean(a != b)),
    }
}

/// The state after a binary instruction, or the error it ends in.
pub open spec fn binary_step(s: MachineState, instruction: InstructionView, limit: nat) -> Result<
    MachineState,
    ErrorView,
>
    recommends
        is_binary(instruction),
{
    let depth = s.stack.len();
    if depth < 2 {
        Err(ErrorView::StackUnderflow)
    } else {
        match binary_result(instruction, s.stack[depth - 2], s.stack[depth - 1]) {
            Err(e) => Err(e),
            Ok(value) => match pushed(s.stack.take(depth - 2), value, limit) {
                Ok(stack) => Ok(MachineState { stack, ip: s.ip + 1, ..s }),
                Err(e) => Err(e),
            },
        }
    }
}

/// The state after an array instruction, or the error it ends in.
pub open spec fn array_step(s: MachineState, instruction: InstructionView, limit: nat) -> Result<
    MachineState,
    ErrorView,
>
    recommends
        is_array_instruction(instruction),
{
    let depth = s.stack.len();
    let on = MachineState { ip: s.ip + 1, ..s };
    match instruction {
        InstructionView::ArrayPush => if depth < 2 {
            Err(ErrorView::StackUnderflow)
        } else {
            match s.stack[depth - 2].pushed(s.stack[depth - 1]) {
                Err(e) => Err(e),
                Ok(array) => match pushed(s.stack.take(depth - 2), array, limit) {
                    Ok(stack) => Ok(MachineState { stack, ..on }),
                    Err(e) => Err(e),
                },
            }
        },
        InstructionView::ArrayPop => if depth < 1 {
            Err(ErrorView::StackUnderflow)
        } else {
            match s.stack[depth - 1].popped() {
                Err(e) => Err(e),
                Ok((array, item)) => match pushed(s.stack.take(depth - 1), array, limit) {
                    Err(e) => Err(e),
                    Ok(stack) => match pushed(stack, item, limit) {
                        Ok(stack) => Ok(MachineState { stack, ..on }),
                        Err(e) => Err(e),
                    },
                },
            }
        },
        InstructionView::ArrayGet => if depth < 2 {
            Err(ErrorView::StackUnderflow)
        } else {
            match (s.stack[depth - 2], s.stack[depth - 1]) {
                (ValueView::Array(items), ValueView::Number(index)) => match ValueView::Array(
                    items,
                ).item(Some(index)) {
                    Err(e) => Err(e),
                    Ok(item) => match pushed(s.stack.take(depth - 2), item, limit) {
                        Ok(stack) => Ok(MachineState { stack, ..on }),
                        Err(e) => Err(e),
                    },
                },
                (ValueView::Array(_), _) => Err(
                    ErrorView::TypeError { message: "Invalid array access"@ },
                ),
                _ => Err(ErrorView::NotAnArray),
            }
        },
        _ => if depth < 3 {
            Err(ErrorView::StackUnderflow)
        } else {
            match (s.stack[depth - 3], s.stack[depth - 2]) {
                (ValueView::Array(items), ValueView::Number(index)) => match ValueView::Array(
                    items,
                ).with_item(Some(index), s.stack[depth - 1]) {
                    Err(e) => Err(e),
                    Ok(array) => match pushed(s.stack.take(depth - 3), array, limit) {
                        Ok(stack) => Ok(MachineState { stack, ..on }),
                        Err(e) => Err(e),
                    },
                },
                (ValueView::Array(_), _) => Err(
                    ErrorView::TypeError { message: "Invalid array assignment"@ },
                ),
                _ => Err(ErrorView::NotAnArray),
            }
        },
    }
}

/// Whether the instruction works on an array.
pub open spec fn is_array_instruction(instruction: InstructionView) -> bool {
    instruction is ArrayPush || instruction is ArrayPop || instruction is ArrayGet
        || instruction is ArrayPut
}

/// The error for an unconditional jump out of the program.
pub open spec fn jump_error(target: nat) -> ErrorView {
    ErrorView::ExecutionError {
        message: "Jump target "@ + decimal(target) + " out of bounds"@,
        line: 0,
        position: 0,
    }
}

/// The error for a program that ends with scopes still open.
pub open spec fn unclosed_error(open_scopes: nat) -> ErrorView {
    ErrorView::ExecutionError {
        message: "Unclosed scopes at end of execution: "@ + decimal(open_scopes),
        line: 0,
        position: 0,
    }
}

/// The error for a run that was cut off.
pub open spec fn step_limit_error() -> ErrorView {
    ErrorView::ExecutionError { message: "Step limit exceeded"@, line: 0, position: 0 }
}

/// The state after the instruction at `s.ip`, or the error it ends in.
#[verifier::opaque]
pub open spec fn step(s: MachineState, code: Seq<InstructionView>, limit: nat) -> Result<
    MachineState,
    ErrorView,
>
    recommends
        s.ip < code.len(),
        s.frames.len() > 0,
{
    let depth = s.stack.len();
    let on = MachineState { ip: s.ip + 1, ..s };
    match code[s.ip as int] {
        InstructionView::Push(value) => match pushed(s.stack, value, limit) {
            Ok(stack) => Ok(MachineState { stack, ..on }),
            Err(e) => Err(e),
        },
        InstructionView::Pop => if depth < 1 {
            Err(ErrorView::StackUnderflow)
        } else {
            Ok(MachineState { stack: s.stack.drop_last(), ..on })
        },
        InstructionView::Jmp(target) => if target >= code.len() {
            Err(jump_error(target))
        } else {
            Ok(MachineState { ip: target, ..s })
        },
        InstructionView::Jz(target) => if target >= code.len() {
            Err(ErrorView::InvalidJump { target: target as usize, max: code.len() as usize })
        } else if depth < 1 {
            Err(ErrorView::StackUnderflow)
        } else if s.stack.last().is_truthy() {
            Ok(MachineState { stack: s.stack.drop_last(), ..on })
        } else {
            Ok(MachineState { stack: s.stack.drop_last(), ip: target, ..s })
        },
        InstructionView::Label(_) => Ok(on),
        InstructionView::Store(name) => if depth < 1 {
            Err(ErrorView::StackUnderflow)
        } else {
            Ok(
                MachineState {
                    stack: s.stack.drop_last(),
                    frames: s.frames.update(
                        s.frames.len() - 1,
                        s.frames.last().insert(name, s.stack.last()),
                    ),
                    ..on
                },
            )
        },
        InstructionView::Load(name) => match lookup(s.frames, name) {
            None => Err(ErrorView::UndefinedVariable { name }),
            Some(value) => match pushed(s.stack, value, limit) {
                Ok(stack) => Ok(MachineState { stack, ..on }),
                Err(e) => Err(e),
            },
        },
        InstructionView::BeginScope => Ok(
            MachineState {
                frames: s.frames.push(Map::empty()),
                open_scopes: s.open_scopes + 1,
                ..on
            },
        ),
        InstructionView::EndScope => if s.open_scopes == 0 {
            Err(ErrorView::NoScopeToEnd)
        } else {
            Ok(
                MachineState {
                    frames: s.frames.drop_last(),
                    open_scopes: (s.open_scopes - 1) as nat,
                    ..on
                },
            )
        },
        InstructionView::CreateArray => match pushed(
            s.stack,
            ValueView::Array(Seq::empty()),
            limit,
        ) {
            Ok(stack) => Ok(MachineState { stack, ..on }),
            Err(e) => Err(e),
        },
        InstructionView::ArrayPush | InstructionView::ArrayPop | InstructionView::ArrayGet
        | InstructionView::ArrayPut => array_step(s, code[s.ip as int], limit),
        binary => binary_step(s, binary, limit),
    }
}

/// The state in which a run from `s` ends, or the error that stops it. A run
/// ends when the instruction pointer leaves the program; it is an error if a
/// scope is still open then, and if `fuel` steps did not get there.
pub open spec fn run(s: MachineState, code: Seq<InstructionView>, limit: nat, fuel: nat) -> Result<
    MachineState,
    ErrorView,
>
    decreases fuel,
{
    if s.ip >= code.len() {
        if s.open_scopes != 0 {
            Err(unclosed_error(s.open_scopes))
        } else {
            Ok(s)
        }
    } else if fuel == 0 {
        Err(step_limit_error())
    } else {
        match step(s, code, limit) {
            Ok(next) => run(next, code, limit, (fuel - 1) as nat),
            Err(e) => Err(e),
        }
    }
}

} // verus!
