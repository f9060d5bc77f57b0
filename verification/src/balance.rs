//! Stack balance: what a compiled program leaves on the operand stack.

use crate::ast::AstView;
use crate::compiler::{compiled, compiled_block, compiled_items, operator};
use crate::error::ErrorView;
use crate::semantics::{run, step, InstructionView, MachineState};
use vstd::prelude::*;

verus! {

/// By how much an instruction that succeeds changes the depth of the stack.
pub open spec fn stack_change(instruction: InstructionView) -> int {
    match instruction {
        InstructionView::Push(_) => 1,
        InstructionView::Load(_) => 1,
        InstructionView::CreateArray => 1,
        InstructionView::ArrayPop => 1,
        InstructionView::Jmp(_) => 0,
        InstructionView::Label(_) => 0,
        InstructionView::BeginScope => 0,
        InstructionView::EndScope => 0,
        InstructionView::ArrayPut => -2,
        _ => -1,
    }
}

/// Whether `next` can be the instruction pointer after `instruction` at `ip`.
pub open spec fn follows(instruction: InstructionView, ip: nat, next: nat) -> bool {
    match instruction {
        InstructionView::Jmp(target) => next == target,
        InstructionView::Jz(target) => next == target || next == ip + 1,
        _ => next == ip + 1,
    }
}

/// An instruction that succeeds changes the stack's depth by its own
/// amount, whatever the values, and goes on where its kind says.
pub proof fn lemma_step_effect(s: MachineState, code: Seq<InstructionView>, limit: nat)
    requires
        s.ip < code.len(),
        step(s, code, limit) is Ok,
    ensures
        step(s, code, limit)->Ok_0.stack.len() == s.stack.len() + stack_change(code[s.ip as int]),
        follows(code[s.ip as int], s.ip, step(s, code, limit)->Ok_0.ip),
{
    reveal(step);
}

/// A run that succeeds from inside the program takes a step: it has the
/// fuel, the step succeeds, and the run goes on from the state after it.
pub proof fn lemma_advance(
    s: MachineState,
    code: Seq<InstructionView>,
    limit: nat,
    fuel: nat,
) -> (next: MachineState)
    requires
        s.ip < code.len(),
        run(s, code, limit, fuel) is Ok,
    ensures
        fuel > 0,
        run(s, code, limit, fuel) == run(next, code, limit, (fuel - 1) as nat),
        next.stack.len() == s.stack.len() + stack_change(code[s.ip as int]),
        follows(code[s.ip as int], s.ip, next.ip),
{
    let next = step(s, code, limit)->Ok_0;
    lemma_step_effect(s, code, limit);
    next
}

/// Whether `piece` stands in `code` from the index `at` on.
pub open spec fn occurs_at(
    code: Seq<InstructionView>,
    piece: Seq<InstructionView>,
    at: nat,
) -> bool {
    &&& at + piece.len() <= code.len()
    &&& forall|i: int| 0 <= i < piece.len() ==> code[at + i] == #[trigger] piece[i]
}

/// Where two pieces stand in `code` one after the other, each stands there.
pub proof fn lemma_occurs_split(
    code: Seq<InstructionView>,
    first: Seq<InstructionView>,
    second: Seq<InstructionView>,
    at: nat,
)
    requires
        occurs_at(code, first + second, at),
    ensures
        occurs_at(code, first, at),
        occurs_at(code, second, at + first.len()),
{
    assert forall|i: int| 0 <= i < first.len() implies code[at + i] == #[trigger] first[i] by {
        assert((first + second)[i] == first[i]);
    }
    assert forall|i: int| 0 <= i < second.len() implies code[at + first.len() + i]
        == #[trigger] second[i] by {
        assert((first + second)[first.len() + i] == second[i]);
    }
}

/// Where a piece of one instruction stands in `code`, that instruction is
/// there.
pub proof fn lemma_occurs_one(code: Seq<InstructionView>, piece: Seq<InstructionView>, at: nat)
    requires
        piece.len() == 1,
        occurs_at(code, piece, at),
    ensures
        at < code.len(),
        code[at as int] == piece[0],
{
    assert(code[at + 0int] == piece[0]);
}

/// Whether the tree stands for a value: a literal, a variable, an
/// operation on values, an array of values, an item of an array, or an
/// assignment to one.
pub open spec fn is_expression(node: AstView) -> bool
    decreases node,
{
    match node {
        AstView::Number(_) => true,
        AstView::String(_) => true,
        AstView::VarRef(_) => true,
        AstView::BinOp { left, op, right } => operator(op) is Some && is_expression(*left)
            && is_expression(*right),
        AstView::Array(elements) => forall|i: int|
            0 <= i < elements.len() ==> is_expression(#[trigger] elements[i]),
        AstView::ArrayIndex { array, index } => is_expression(*array) && is_expression(*index),
        AstView::ArrayAssign { array, index, value } => is_expression(*array) && is_expression(
            *index,
        ) && is_expression(*value),
        _ => false,
    }
}

/// Whether the tree is a statement that leaves nothing behind: an
/// assignment of a value to a variable, or a conditional, a loop or a block
/// of such statements, with a value for a test.
pub open spec fn is_command(node: AstView) -> bool
    decreases node,
{
    match node {
        AstView::VarDecl(_, value) => is_expression(*value),
        AstView::VarAssign(_, value) => is_expression(*value),
        AstView::If { condition, if_block, else_block } => is_expression(*condition)
            && are_commands(if_block) && are_commands(else_block),
        AstView::While { condition, body } => is_expression(*condition) && are_commands(body),
        AstView::Block(nodes) => are_commands(nodes),
        _ => false,
    }
}

/// Whether each of the trees is a statement that leaves nothing behind.
pub open spec fn are_commands(nodes: Seq<AstView>) -> bool
    decreases nodes,
{
    forall|i: int| 0 <= i < nodes.len() ==> is_command(#[trigger] nodes[i])
}

/// How far a run has come: the state it has reached and the fuel it has
/// left.
pub struct Progress {
    pub state: MachineState,
    pub fuel: nat,
}

/// A run that succeeds, and that stands at the start of a value's code,
/// comes to the end of that code with one more value on the stack.
pub proof fn lemma_run_expression(
    node: AstView,
    base: nat,
    code: Seq<InstructionView>,
    s: MachineState,
    limit: nat,
    fuel: nat,
) -> (end: Progress)
    requires
        is_expression(node),
        occurs_at(code, compiled(node, base), base),
        s.ip == base,
        run(s, code, limit, fuel) is Ok,
    ensures
        end.state.ip == base + compiled(node, base).len(),
        end.state.stack.len() == s.stack.len() + 1,
        end.fuel <= fuel,
        run(s, code, limit, fuel) == run(end.state, code, limit, end.fuel),
    decreases node,
{
    let piece = compiled(node, base);
    match node {
        AstView::Number(_) => {
            lemma_occurs_one(code, piece, base);
            let next = lemma_advance(s, code, limit, fuel);
            Progress { state: next, fuel: (fuel - 1) as nat }
        },
        AstView::String(_) => {
            lemma_occurs_one(code, piece, base);
            let next = lemma_advance(s, code, limit, fuel);
            Progress { state: next, fuel: (fuel - 1) as nat }
        },
        AstView::VarRef(_) => {
            lemma_occurs_one(code, piece, base);
            let next = lemma_advance(s, code, limit, fuel);
            Progress { state: next, fuel: (fuel - 1) as nat }
        },
        AstView::BinOp { left, op, right } => {
            let left_code = compiled(*left, base);
            let right_code = compiled(*right, base + left_code.len());
            let last = seq![operator(op).unwrap()];
            lemma_occurs_split(code, left_code + right_code, last, base);
            lemma_occurs_split(code, left_code, right_code, base);
            let a = lemma_run_expression(*left, base, code, s, limit, fuel);
            let b = lemma_run_expression(
                *right,
                base + left_code.len(),
                code,
                a.state,
                limit,
                a.fuel,
            );
            lemma_occurs_one(code, last, base + left_code.len() + right_code.len());
            let next = lemma_advance(b.state, code, limit, b.fuel);
            Progress { state: next, fuel: (b.fuel - 1) as nat }
        },
        AstView::Array(elements) => {
            let first = seq![InstructionView::CreateArray];
            let items = compiled_items(elements, base + 1);
            lemma_occurs_split(code, first, items, base);
            lemma_occurs_one(code, first, base);
            let next = lemma_advance(s, code, limit, fuel);
            lemma_run_items(elements, base + 1, code, next, limit, (fuel - 1) as nat)
        },
        AstView::ArrayIndex { array, index } => {
            let array_code = compiled(*array, base);
            let index_code = compiled(*index, base + array_code.len());
            let last = seq![InstructionView::ArrayGet];
            lemma_occurs_split(code, array_code + index_code, last, base);
            lemma_occurs_split(code, array_code, index_code, base);
            let a = lemma_run_expression(*array, base, code, s, limit, fuel);
            let b = lemma_run_expression(
                *index,
                base + array_code.len(),
                code,
                a.state,
                limit,
                a.fuel,
            );
            lemma_occurs_one(code, last, base + array_code.len() + index_code.len());
            let next = lemma_advance(b.state, code, limit, b.fuel);
            Progress { state: next, fuel: (b.fuel - 1) as nat }
        },
        AstView::ArrayAssign { array, index, value } => {
            let array_code = compiled(*array, base);
            let index_code = compiled(*index, base + array_code.len());
            let value_code = compiled(*value, base + array_code.len() + index_code.len());
            let last = seq![InstructionView::ArrayPut];
            lemma_occurs_split(code, array_code + index_code + value_code, last, base);
            lemma_occurs_split(code, array_code + index_code, value_code, base);
            lemma_occurs_split(code, array_code, index_code, base);
            let a = lemma_run_expression(*array, base, code, s, limit, fuel);
            let b = lemma_run_expression(
                *index,
                base + array_code.len(),
                code,
                a.state,
                limit,
                a.fuel,
            );
            let c = lemma_run_expression(
                *value,
                base + array_code.len() + index_code.len(),
                code,
                b.state,
                limit,
                b.fuel,
            );
            lemma_occurs_one(
                code,
                last,
                base + array_code.len() + index_code.len() + value_code.len(),
            );
            let next = lemma_advance(c.state, code, limit, c.fuel);
            Progress { state: next, fuel: (c.fuel - 1) as nat }
        },
        _ => Progress { state: s, fuel },
    }
}

/// A run that succeeds, and that stands at the start of the code that
/// fills an array, comes to the end of that code with the stack as deep as
/// it was.
pub proof fn lemma_run_items(
    elements: Seq<AstView>,
    base: nat,
    code: Seq<InstructionView>,
    s: MachineState,
    limit: nat,
    fuel: nat,
) -> (end: Progress)
    requires
        forall|i: int| 0 <= i < elements.len() ==> is_expression(#[trigger] elements[i]),
        occurs_at(code, compiled_items(elements, base), base),
        s.ip == base,
        run(s, code, limit, fuel) is Ok,
    ensures
        end.state.ip == base + compiled_items(elements, base).len(),
        end.state.stack.len() == s.stack.len(),
        end.fuel <= fuel,
        run(s, code, limit, fuel) == run(end.state, code, limit, end.fuel),
    decreases elements,
{
    if elements.len() == 0 {
        Progress { state: s, fuel }
    } else {
        let front = compiled_items(elements.drop_last(), base);
        let item = compiled(elements.last(), base + front.len());
        let last = seq![InstructionView::ArrayPush];
        lemma_occurs_split(code, front + item, last, base);
        lemma_occurs_split(code, front, item, base);
        assert forall|i: int| 0 <= i < elements.drop_last().len() implies is_expression(
            #[trigger] elements.drop_last()[i],
        ) by {
            assert(elements.drop_last()[i] == elements[i]);
        }
        let a = lemma_run_items(elements.drop_last(), base, code, s, limit, fuel);
        let b = lemma_run_expression(
            elements.last(),
            base + front.len(),
            code,
            a.state,
            limit,
            a.fuel,
        );
        lemma_occurs_one(code, last, base + front.len() + item.len());
        let next = lemma_advance(b.state, code, limit, b.fuel);
        Progress { state: next, fuel: (b.fuel - 1) as nat }
    }
}

/// A run that succeeds, and that stands at the start of the code of a
/// statement that leaves nothing behind, comes to the end of that code with
/// the stack as deep as it was.
pub proof fn lemma_run_command(
    node: AstView,
    base: nat,
    code: Seq<InstructionView>,
    s: MachineState,
    limit: nat,
    fuel: nat,
) -> (end: Progress)
    requires
        is_command(node),
        occurs_at(code, compiled(node, base), base),
        s.ip == base,
        run(s, code, limit, fuel) is Ok,
    ensures
        end.state.ip == base + compiled(node, base).len(),
        end.state.stack.len() == s.stack.len(),
        end.fuel <= fuel,
        run(s, code, limit, fuel) == run(end.state, code, limit, end.fuel),
    decreases fuel, node,
{
    match node {
        AstView::VarDecl(name, value) => {
            let value_code = compiled(*value, base);
            let last = seq![InstructionView::Store(name)];
            lemma_occurs_split(code, value_code, last, base);
            let a = lemma_run_expression(*value, base, code, s, limit, fuel);
            lemma_occurs_one(code, last, base + value_code.len());
            let next = lemma_advance(a.state, code, limit, a.fuel);
            Progress { state: next, fuel: (a.fuel - 1) as nat }
        },
        AstView::VarAssign(name, value) => {
            let value_code = compiled(*value, base);
            let last = seq![InstructionView::Store(name)];
            lemma_occurs_split(code, value_code, last, base);
            let a = lemma_run_expression(*value, base, code, s, limit, fuel);
            lemma_occurs_one(code, last, base + value_code.len());
            let next = lemma_advance(a.state, code, limit, a.fuel);
            Progress { state: next, fuel: (a.fuel - 1) as nat }
        },
        AstView::If { condition, if_block, else_block } => {
            let test = compiled(*condition, base);
            let if_code = compiled_block(if_block, base + test.len() + 1);
            let else_start = base + test.len() + 1 + if_code.len() + 1;
            let else_code = compiled_block(else_block, else_start);
            let jz = seq![InstructionView::Jz(else_start)];
            let jmp = seq![InstructionView::Jmp(else_start + else_code.len())];
            lemma_occurs_split(code, test + jz + if_code + jmp, else_code, base);
            lemma_occurs_split(code, test + jz + if_code, jmp, base);
            lemma_occurs_split(code, test + jz, if_code, base);
            lemma_occurs_split(code, test, jz, base);
            let a = lemma_run_expression(*condition, base, code, s, limit, fuel);
            lemma_occurs_one(code, jz, base + test.len());
            let tested = lemma_advance(a.state, code, limit, a.fuel);
            if tested.ip == else_start {
                lemma_run_commands(
                    else_block,
                    else_start,
                    code,
                    tested,
                    limit,
                    (a.fuel - 1) as nat,
                )
            } else {
                let b = lemma_run_commands(
                    if_block,
                    base + test.len() + 1,
                    code,
                    tested,
                    limit,
                    (a.fuel - 1) as nat,
                );
                lemma_occurs_one(code, jmp, base + test.len() + 1 + if_code.len());
                let next = lemma_advance(b.state, code, limit, b.fuel);
                Progress { state: next, fuel: (b.fuel - 1) as nat }
            }
        },
        AstView::While { condition, body } => {
            let test = compiled(*condition, base);
            let body_code = compiled_block(body, base + test.len() + 1);
            let after_loop = base + test.len() + 1 + body_code.len() + 1;
            let jz = seq![InstructionView::Jz(after_loop)];
            let jmp = seq![InstructionView::Jmp(base)];
            lemma_occurs_split(code, test + jz + body_code, jmp, base);
            lemma_occurs_split(code, test + jz, body_code, base);
            lemma_occurs_split(code, test, jz, base);
            let a = lemma_run_expression(*condition, base, code, s, limit, fuel);
            lemma_occurs_one(code, jz, base + test.len());
            let tested = lemma_advance(a.state, code, limit, a.fuel);
            if tested.ip == after_loop {
                Progress { state: tested, fuel: (a.fuel - 1) as nat }
            } else {
                let b = lemma_run_commands(
                    body,
                    base + test.len() + 1,
                    code,
                    tested,
                    limit,
                    (a.fuel - 1) as nat,
                );
                lemma_occurs_one(code, jmp, base + test.len() + 1 + body_code.len());
                let back = lemma_advance(b.state, code, limit, b.fuel);
                lemma_run_command(node, base, code, back, limit, (b.fuel - 1) as nat)
            }
        },
        AstView::Block(nodes) => {
            let first = seq![InstructionView::BeginScope];
            let inner = compiled_block(nodes, base + 1);
            let last = seq![InstructionView::EndScope];
            lemma_occurs_split(code, first + inner, last, base);
            lemma_occurs_split(code, first, inner, base);
            lemma_occurs_one(code, first, base);
            let opened = lemma_advance(s, code, limit, fuel);
            let b = lemma_run_commands(nodes, base + 1, code, opened, limit, (fuel - 1) as nat);
            lemma_occurs_one(code, last, base + 1 + inner.len());
            let next = lemma_advance(b.state, code, limit, b.fuel);
            Progress { state: next, fuel: (b.fuel - 1) as nat }
        },
        _ => Progress { state: s, fuel },
    }
}

/// A run that succeeds, and that stands at the start of the code of
/// statements that leave nothing behind, comes to the end of that code with
/// the stack as deep as it was.
pub proof fn lemma_run_commands(
    nodes: Seq<AstView>,
    base: nat,
    code: Seq<InstructionView>,
    s: MachineState,
    limit: nat,
    fuel: nat,
) -> (end: Progress)
    requires
        are_commands(nodes),
        occurs_at(code, compiled_block(nodes, base), base),
        s.ip == base,
        run(s, code, limit, fuel) is Ok,
    ensures
        end.state.ip == base + compiled_block(nodes, base).len(),
        end.state.stack.len() == s.stack.len(),
        end.fuel <= fuel,
        run(s, code, limit, fuel) == run(end.state, code, limit, end.fuel),
    decreases fuel, nodes,
{
    if nodes.len() == 0 {
        Progress { state: s, fuel }
    } else {
        let front = compiled_block(nodes.drop_last(), base);
        let last = compiled(nodes.last(), base + front.len());
        lemma_occurs_split(code, front, last, base);
        assert forall|i: int| 0 <= i < nodes.drop_last().len() implies is_command(
            #[trigger] nodes.drop_last()[i],
        ) by {
            assert(nodes.drop_last()[i] == nodes[i]);
        }
        let a = lemma_run_commands(nodes.drop_last(), base, code, s, limit, fuel);
        lemma_run_command(nodes.last(), base + front.len(), code, a.state, limit, a.fuel)
    }
}

/// How many of the statements stand for a value.
pub open spec fn residue(nodes: Seq<AstView>) -> nat
    decreases nodes.len(),
{
    if nodes.len() == 0 {
        0
    } else {
        residue(nodes.drop_last()) + (if is_expression(nodes.last()) {
            1nat
        } else {
            0nat
        })
    }
}

/// Whether each statement either stands for a value or leaves nothing
/// behind.
pub open spec fn is_balanced(nodes: Seq<AstView>) -> bool {
    forall|i: int|
        0 <= i < nodes.len() ==> is_expression(#[trigger] nodes[i]) || is_command(nodes[i])
}

/// A run that succeeds, and that stands at the start of the code of
/// statements, comes to the end of that code with one more value on the
/// stack for each statement that stands for a value.
pub proof fn lemma_run_statements(
    nodes: Seq<AstView>,
    base: nat,
    code: Seq<InstructionView>,
    s: MachineState,
    limit: nat,
    fuel: nat,
) -> (end: Progress)
    requires
        is_balanced(nodes),
        occurs_at(code, compiled_block(nodes, base), base),
        s.ip == base,
        run(s, code, limit, fuel) is Ok,
    ensures
        end.state.ip == base + compiled_block(nodes, base).len(),
        end.state.stack.len() == s.stack.len() + residue(nodes),
        end.fuel <= fuel,
        run(s, code, limit, fuel) == run(end.state, code, limit, end.fuel),
    decreases nodes.len(),
{
    if nodes.len() == 0 {
        Progress { state: s, fuel }
    } else {
        let front = compiled_block(nodes.drop_last(), base);
        let last = compiled(nodes.last(), base + front.len());
        lemma_occurs_split(code, front, last, base);
        assert forall|i: int| 0 <= i < nodes.drop_last().len() implies is_expression(
            #[trigger] nodes.drop_last()[i],
        ) || is_command(nodes.drop_last()[i]) by {
            assert(nodes.drop_last()[i] == nodes[i]);
        }
        let a = lemma_run_statements(nodes.drop_last(), base, code, s, limit, fuel);
        if is_expression(nodes.last()) {
            lemma_run_expression(nodes.last(), base + front.len(), code, a.state, limit, a.fuel)
        } else {
            lemma_run_command(nodes.last(), base + front.len(), code, a.state, limit, a.fuel)
        }
    }
}

/// Stack balance. Where each statement of a program either stands for a
/// value or leaves nothing behind, a run of the compiled program from its
/// first instruction that succeeds ends with one more value on the stack for
/// each statement that stands for a value.
pub proof fn lemma_stack_balance(nodes: Seq<AstView>, s: MachineState, limit: nat, fuel: nat)
    requires
        is_balanced(nodes),
        s.ip == 0,
        run(s, compiled_block(nodes, 0), limit, fuel) is Ok,
    ensures
        run(s, compiled_block(nodes, 0), limit, fuel)->Ok_0.stack.len() == s.stack.len()
            + residue(nodes),
{
    let code = compiled_block(nodes, 0);
    let end = lemma_run_statements(nodes, 0, code, s, limit, fuel);
    assert(run(end.state, code, limit, end.fuel) == Ok::<MachineState, ErrorView>(end.state));
}


} // verus!
