//! From syntax trees to instructions: what the compiler emits, as
//! mathematics, and the compiler itself.

use crate::ast::{lemma_node_views, node_views, ASTNode, AstView};
use crate::semantics::InstructionView;
use crate::tokenizer::{Token, TokenView};
use crate::types::{lemma_views, views, Value, ValueView};
use crate::vm::{code_view, ArrayOperation, Instruction};
use vstd::prelude::*;
use vstd::string::*;

verus! {

/// The instruction that a binary operator compiles to; none for a token
/// that is no such operator.
pub open spec fn operator(op: TokenView) -> Option<InstructionView> {
    match op {
        TokenView::Plus => Some(InstructionView::Add),
        TokenView::Minus => Some(InstructionView::Sub),
        TokenView::Star => Some(InstructionView::Mul),
        TokenView::Slash => Some(InstructionView::Div),
        TokenView::Greater => Some(InstructionView::Greater),
        TokenView::Less => Some(InstructionView::Less),
        TokenView::Equal => Some(InstructionView::Equal),
        TokenView::NotEqual => Some(InstructionView::NotEqual),
        _ => None,
    }
}

/// The value that a text literal stands for: the array of its characters'
/// code points.
pub open spec fn string_value(text: Seq<char>) -> ValueView {
    ValueView::Array(text.map_values(|c: char| ValueView::Number(c as i32)))
}

impl AstView {
    /// Whether the compiler accepts the tree: every binary operation in it
    /// carries one of the eight operators.
    pub open spec fn supported(self) -> bool
        decreases self,
    {
        match self {
            AstView::Number(_) => true,
            AstView::String(_) => true,
            AstView::BinOp { left, op, right } => operator(op) is Some && left.supported()
                && right.supported(),
            AstView::If { condition, if_block, else_block } => condition.supported()
                && all_supported(if_block) && all_supported(else_block),
            AstView::While { condition, body } => condition.supported() && all_supported(body),
            AstView::VarDecl(_, value) => value.supported(),
            AstView::VarAssign(_, value) => value.supported(),
            AstView::VarRef(_) => true,
            AstView::Block(nodes) => all_supported(nodes),
            AstView::Array(elements) => all_supported(elements),
            AstView::ArrayIndex { array, index } => array.supported() && index.supported(),
            AstView::ArrayAssign { array, index, value } => array.supported()
                && index.supported() && value.supported(),
        }
    }
}

/// Whether the compiler accepts each of the trees.
pub open spec fn all_supported(nodes: Seq<AstView>) -> bool
    decreases nodes,
{
    forall|i: int| 0 <= i < nodes.len() ==> (#[trigger] nodes[i]).supported()
}

/// The instructions of `node`, for a place where `base` instructions stand
/// before them: every jump target is an index into the whole.
pub open spec fn compiled(node: AstView, base: nat) -> Seq<InstructionView>
    decreases node,
{
    match node {
        AstView::Number(n) => seq![InstructionView::Push(ValueView::Number(n))],
        AstView::String(text) => seq![InstructionView::Push(string_value(text))],
        AstView::BinOp { left, op, right } => {
            let left_code = compiled(*left, base);
            let right_code = compiled(*right, base + left_code.len());
            left_code + right_code + seq![operator(op).unwrap()]
        },
        AstView::If { condition, if_block, else_block } => {
            let test = compiled(*condition, base);
            let if_code = compiled_block(if_block, base + test.len() + 1);
            let else_start = base + test.len() + 1 + if_code.len() + 1;
            let else_code = compiled_block(else_block, else_start);
            let after_else = else_start + else_code.len();
            test + seq![InstructionView::Jz(else_start)] + if_code + seq![
                InstructionView::Jmp(after_else),
            ] + else_code
        },
        AstView::While { condition, body } => {
            let test = compiled(*condition, base);
            let body_code = compiled_block(body, base + test.len() + 1);
            let after_loop = base + test.len() + 1 + body_code.len() + 1;
            test + seq![InstructionView::Jz(after_loop)] + body_code + seq![
                InstructionView::Jmp(base),
            ]
        },
        AstView::VarDecl(name, value) => compiled(*value, base) + seq![
            InstructionView::Store(name),
        ],
        AstView::VarAssign(name, value) => compiled(*value, base) + seq![
            InstructionView::Store(name),
        ],
        AstView::VarRef(name) => seq![InstructionView::Load(name)],
        AstView::Block(nodes) => seq![InstructionView::BeginScope] + compiled_block(
            nodes,
            base + 1,
        ) + seq![InstructionView::EndScope],
        AstView::Array(elements) => seq![InstructionView::CreateArray] + compiled_items(
            elements,
            base + 1,
        ),
        AstView::ArrayIndex { array, index } => {
            let array_code = compiled(*array, base);
            let index_code = compiled(*index, base + array_code.len());
            array_code + index_code + seq![InstructionView::ArrayGet]
        },
        AstView::ArrayAssign { array, index, value } => {
            let array_code = compiled(*array, base);
            let index_code = compiled(*index, base + array_code.len());
            let value_code = compiled(*value, base + array_code.len() + index_code.len());
            array_code + index_code + value_code + seq![InstructionView::ArrayPut]
        },
    }
}

/// The instructions of the statements `nodes` one after the other, for a
/// place where `base` instructions stand before them.
pub open spec fn compiled_block(nodes: Seq<AstView>, base: nat) -> Seq<InstructionView>
    decreases nodes,
{
    if nodes.len() == 0 {
        Seq::empty()
    } else {
        let front = compiled_block(nodes.drop_last(), base);
        front + compiled(nodes.last(), base + front.len())
    }
}

/// The instructions that fill an array with `elements`: each element's
/// own, then the one that appends it.
pub open spec fn compiled_items(elements: Seq<AstView>, base: nat) -> Seq<InstructionView>
    decreases elements,
{
    if elements.len() == 0 {
        Seq::empty()
    } else {
        let front = compiled_items(elements.drop_last(), base);
        front + compiled(elements.last(), base + front.len()) + seq![InstructionView::ArrayPush]
    }
}

/// The instruction with its jump target, if it has one, moved on by `by`.
pub open spec fn moved(instruction: InstructionView, by: nat) -> InstructionView {
    match instruction {
        InstructionView::Jmp(target) => InstructionView::Jmp(target + by),
        InstructionView::Jz(target) => InstructionView::Jz(target + by),
        other => other,
    }
}

/// The code with every jump target moved on by `by`: what the code has to
/// become when `by` more instructions are put before it.
pub open spec fn shifted(code: Seq<InstructionView>, by: nat) -> Seq<InstructionView> {
    code.map_values(|instruction: InstructionView| moved(instruction, by))
}

/// A program, linked: the code of each statement as `compile` gives it,
/// with its jump targets moved on by the number of instructions before it.
pub open spec fn linked(nodes: Seq<AstView>) -> Seq<InstructionView>
    decreases nodes.len(),
{
    if nodes.len() == 0 {
        Seq::empty()
    } else {
        let front = linked(nodes.drop_last());
        front + shifted(compiled(nodes.last(), 0), front.len())
    }
}

/// Moving the targets of two pieces put together moves those of each.
proof fn lemma_shifted_concat(a: Seq<InstructionView>, b: Seq<InstructionView>, by: nat)
    ensures
        shifted(a + b, by) == shifted(a, by) + shifted(b, by),
{
    assert(shifted(a + b, by) =~= shifted(a, by) + shifted(b, by));
}

/// The code of a node for a place further on is its code with the jump
/// targets moved on by as much.
pub proof fn lemma_compiled_moves(node: AstView, base: nat, by: nat)
    requires
        node.supported(),
    ensures
        compiled(node, base + by) == shifted(compiled(node, base), by),
    decreases node,
{
    let here = compiled(node, base);
    let there = compiled(node, base + by);
    match node {
        AstView::Number(_) => {
            assert(there =~= shifted(here, by));
        },
        AstView::String(_) => {
            assert(there =~= shifted(here, by));
        },
        AstView::VarRef(_) => {
            assert(there =~= shifted(here, by));
        },
        AstView::BinOp { left, op, right } => {
            let l = compiled(*left, base);
            let r = compiled(*right, base + l.len());
            lemma_compiled_moves(*left, base, by);
            lemma_compiled_moves(*right, base + l.len(), by);
            assert(base + by + l.len() == base + l.len() + by);
            assert(there =~= shifted(here, by));
        },
        AstView::If { condition, if_block, else_block } => {
            let test = compiled(*condition, base);
            let if_code = compiled_block(if_block, base + test.len() + 1);
            let else_start = base + test.len() + 1 + if_code.len() + 1;
            let else_code = compiled_block(else_block, else_start);
            lemma_compiled_moves(*condition, base, by);
            lemma_block_moves(if_block, base + test.len() + 1, by);
            lemma_block_moves(else_block, else_start, by);
            assert(base + by + test.len() + 1 == base + test.len() + 1 + by);
            assert(base + by + test.len() + 1 + if_code.len() + 1 == else_start + by);
            assert(there =~= shifted(here, by));
        },
        AstView::While { condition, body } => {
            let test = compiled(*condition, base);
            lemma_compiled_moves(*condition, base, by);
            lemma_block_moves(body, base + test.len() + 1, by);
            assert(base + by + test.len() + 1 == base + test.len() + 1 + by);
            assert(there =~= shifted(here, by));
        },
        AstView::VarDecl(_, value) => {
            lemma_compiled_moves(*value, base, by);
            assert(there =~= shifted(here, by));
        },
        AstView::VarAssign(_, value) => {
            lemma_compiled_moves(*value, base, by);
            assert(there =~= shifted(here, by));
        },
        AstView::Block(nodes) => {
            lemma_block_moves(nodes, base + 1, by);
            assert(base + by + 1 == base + 1 + by);
            assert(there =~= shifted(here, by));
        },
        AstView::Array(elements) => {
            lemma_items_move(elements, base + 1, by);
            assert(base + by + 1 == base + 1 + by);
            assert(there =~= shifted(here, by));
        },
        AstView::ArrayIndex { array, index } => {
            let a = compiled(*array, base);
            lemma_compiled_moves(*array, base, by);
            lemma_compiled_moves(*index, base + a.len(), by);
            assert(base + by + a.len() == base + a.len() + by);
            assert(there =~= shifted(here, by));
        },
        AstView::ArrayAssign { array, index, value } => {
            let a = compiled(*array, base);
            let i = compiled(*index, base + a.len());
            lemma_compiled_moves(*array, base, by);
            lemma_compiled_moves(*index, base + a.len(), by);
            lemma_compiled_moves(*value, base + a.len() + i.len(), by);
            assert(base + by + a.len() == base + a.len() + by);
            assert(base + by + a.len() + i.len() == base + a.len() + i.len() + by);
            assert(there =~= shifted(here, by));
        },
    }
}

/// The code of a block for a place further on is its code with the jump
/// targets moved on by as much.
pub proof fn lemma_block_moves(nodes: Seq<AstView>, base: nat, by: nat)
    requires
        all_supported(nodes),
    ensures
        compiled_block(nodes, base + by) == shifted(compiled_block(nodes, base), by),
    decreases nodes,
{
    if nodes.len() == 0 {
        assert(compiled_block(nodes, base + by) =~= shifted(compiled_block(nodes, base), by));
    } else {
        let front = compiled_block(nodes.drop_last(), base);
        let last = compiled(nodes.last(), base + front.len());
        assert(all_supported(nodes.drop_last())) by {
            assert forall|i: int| 0 <= i < nodes.drop_last().len() implies (
            #[trigger] nodes.drop_last()[i]).supported() by {
                assert(nodes.drop_last()[i] == nodes[i]);
            }
        }
        lemma_block_moves(nodes.drop_last(), base, by);
        lemma_compiled_moves(nodes.last(), base + front.len(), by);
        assert(base + by + front.len() == base + front.len() + by);
        lemma_shifted_concat(front, last, by);
    }
}

/// The code that fills an array, for a place further on, is that code with
/// the jump targets moved on by as much.
pub proof fn lemma_items_move(elements: Seq<AstView>, base: nat, by: nat)
    requires
        all_supported(elements),
    ensures
        compiled_items(elements, base + by) == shifted(compiled_items(elements, base), by),
    decreases elements,
{
    if elements.len() == 0 {
        assert(compiled_items(elements, base + by) =~= shifted(
            compiled_items(elements, base),
            by,
        ));
    } else {
        let front = compiled_items(elements.drop_last(), base);
        let last = compiled(elements.last(), base + front.len());
        assert(all_supported(elements.drop_last())) by {
            assert forall|i: int| 0 <= i < elements.drop_last().len() implies (
            #[trigger] elements.drop_last()[i]).supported() by {
                assert(elements.drop_last()[i] == elements[i]);
            }
        }
        lemma_items_move(elements.drop_last(), base, by);
        lemma_compiled_moves(elements.last(), base + front.len(), by);
        assert(base + by + front.len() == base + front.len() + by);
        lemma_shifted_concat(front, last, by);
        lemma_shifted_concat(front + last, seq![InstructionView::ArrayPush], by);
        assert(shifted(seq![InstructionView::ArrayPush], by) =~= seq![
            InstructionView::ArrayPush,
        ]);
    }
}

/// A compiled program is its statements' code, linked: each statement
/// compiled by itself, its jump targets moved on by the number of
/// instructions before it, and the pieces put one after the other.
pub proof fn lemma_program_is_linked(nodes: Seq<AstView>)
    requires
        all_supported(nodes),
    ensures
        compiled_block(nodes, 0) == linked(nodes),
    decreases nodes.len(),
{
    if nodes.len() > 0 {
        let front = compiled_block(nodes.drop_last(), 0);
        assert(all_supported(nodes.drop_last())) by {
            assert forall|i: int| 0 <= i < nodes.drop_last().len() implies (
            #[trigger] nodes.drop_last()[i]).supported() by {
                assert(nodes.drop_last()[i] == nodes[i]);
            }
        }
        lemma_program_is_linked(nodes.drop_last());
        lemma_compiled_moves(nodes.last(), 0, front.len());
    }
}

/// The instruction of a binary operator.
fn operator_instruction(op: &Token) -> (instruction: Instruction)
    requires
        operator(op@) is Some,
    ensures
        instruction@ == operator(op@).unwrap(),
{
    match op {
        Token::Plus => Instruction::Add,
        Token::Minus => Instruction::Sub,
        Token::Star => Instruction::Mul,
        Token::Slash => Instruction::Div,
        Token::Greater => Instruction::Greater,
        Token::Less => Instruction::Less,
        Token::Equal => Instruction::Equal,
        _ => Instruction::NotEqual,
    }
}

/// The value of a text literal.
fn text_value(text: &String) -> (value: Value)
    ensures
        value@ == string_value(text@),
{
    let chars = text.as_str();
    let len = chars.unicode_len();
    let mut items: Vec<Value> = Vec::new();
    let mut i: usize = 0;
    while i < len
        invariant
            chars@ == text@,
            len == text@.len(),
            i <= len,
            items.len() == i,
            forall|j: int| 0 <= j < i ==> items[j]@ == ValueView::Number(text@[j] as i32),
        decreases len - i,
    {
        let c = chars.get_char(i);
        items.push(Value::Number(c as i32));
        i += 1;
    }
    proof {
        lemma_views(items@);
        assert(views(items@) =~= text@.map_values(|c: char| ValueView::Number(c as i32)));
    }
    Value::Array(items)
}

/// Appending one instruction appends its view.
proof fn lemma_code_view_push(code: Seq<Instruction>, instruction: Instruction)
    ensures
        code_view(code.push(instruction)) == code_view(code).push(instruction@),
{
    assert(code_view(code.push(instruction)) =~= code_view(code).push(instruction@));
}

/// Replacing one instruction replaces its view.
proof fn lemma_code_view_update(code: Seq<Instruction>, i: int, instruction: Instruction)
    requires
        0 <= i < code.len(),
    ensures
        code_view(code.update(i, instruction)) == code_view(code).update(i, instruction@),
{
    assert(code_view(code.update(i, instruction)) =~= code_view(code).update(i, instruction@));
}

/// Appends `instruction` to `code`.
fn emit_one(code: &mut Vec<Instruction>, instruction: Instruction)
    ensures
        code_view(final(code)@) == code_view(old(code)@).push(instruction@),
        final(code).len() == old(code).len() + 1,
{
    proof {
        lemma_code_view_push(code@, instruction);
    }
    code.push(instruction);
}

/// Puts `instruction` in the place of the one at `at`.
fn patch(code: &mut Vec<Instruction>, at: usize, instruction: Instruction)
    requires
        at < old(code).len(),
    ensures
        code_view(final(code)@) == code_view(old(code)@).update(at as int, instruction@),
        final(code).len() == old(code).len(),
{
    proof {
        lemma_code_view_update(code@, at as int, instruction);
    }
    code[at] = instruction;
}

/// Appends the instructions of `node` to `code`, with jump targets that
/// are right where `code` is the start of the program.
fn emit(node: &ASTNode, code: &mut Vec<Instruction>)
    requires
        node@.supported(),
    ensures
        code_view(final(code)@) == code_view(old(code)@) + compiled(
            node@,
            old(code).len() as nat,
        ),
        final(code).len() == old(code).len() + compiled(node@, old(code).len() as nat).len(),
    decreases node, 1nat,
{
    let ghost before = code_view(code@);
    let ghost base = code.len() as nat;
    match node {
        ASTNode::Number(n) => {
            emit_one(code, Instruction::Push(Value::Number(*n)));
            assert(code_view(code@) =~= before + compiled(node@, base));
        },
        ASTNode::String(text) => {
            emit_one(code, Instruction::Push(text_value(text)));
            assert(code_view(code@) =~= before + compiled(node@, base));
        },
        ASTNode::BinOp { left, op, right } => {
            emit(left, code);
            emit(right, code);
            emit_one(code, operator_instruction(op));
            assert(code_view(code@) =~= before + compiled(node@, base));
        },
        ASTNode::If { .. } => {
            emit_if(node, code);
        },
        ASTNode::While { .. } => {
            emit_while(node, code);
        },
        ASTNode::VarDecl(name, value) => {
            emit(value, code);
            emit_one(code, Instruction::Store(name.clone()));
            assert(code_view(code@) =~= before + compiled(node@, base));
        },
        ASTNode::VarAssign(name, value) => {
            emit(value, code);
            emit_one(code, Instruction::Store(name.clone()));
            assert(code_view(code@) =~= before + compiled(node@, base));
        },
        ASTNode::VarRef(name) => {
            emit_one(code, Instruction::Load(name.clone()));
            assert(code_view(code@) =~= before + compiled(node@, base));
        },
        ASTNode::Block(nodes) => {
            emit_one(code, Instruction::BeginScope);
            emit_block(nodes, code);
            emit_one(code, Instruction::EndScope);
            assert(code_view(code@) =~= before + compiled(node@, base));
        },
        ASTNode::Array(elements) => {
            emit_one(code, Instruction::CreateArray);
            emit_items(elements, code);
            assert(code_view(code@) =~= before + compiled(node@, base));
        },
        ASTNode::ArrayIndex { array, index } => {
            emit(array, code);
            emit(index, code);
            emit_one(code, Instruction::ArrayOp(ArrayOperation::Get));
            assert(code_view(code@) =~= before + compiled(node@, base));
        },
        ASTNode::ArrayAssign { array, index, value } => {
            emit(array, code);
            emit(index, code);
            emit(value, code);
            emit_one(code, Instruction::ArrayOp(ArrayOperation::Put));
            assert(code_view(code@) =~= before + compiled(node@, base));
        },
    }
}

/// Appends the instructions of a conditional: the test, a jump to the else
/// branch if it fails, the if branch, a jump past the else branch, the else
/// branch. Both jumps are written as placeholders and patched once the
/// lengths are known.
fn emit_if(node: &ASTNode, code: &mut Vec<Instruction>)
    requires
        node is If,
        node@.supported(),
    ensures
        code_view(final(code)@) == code_view(old(code)@) + compiled(
            node@,
            old(code).len() as nat,
        ),
        final(code).len() == old(code).len() + compiled(node@, old(code).len() as nat).len(),
    decreases node, 0nat,
{
    let ghost before = code_view(code@);
    let ghost base = code.len() as nat;
    if let ASTNode::If { condition, if_block, else_block } = node {
        let ghost test = compiled(condition@, base);
        let ghost if_code = compiled_block(node_views(if_block@), base + test.len() + 1);
        let ghost else_code = compiled_block(
            node_views(else_block@),
            base + test.len() + 1 + if_code.len() + 1,
        );
        emit(condition, code);
        let jz_at = code.len();
        emit_one(code, Instruction::Jz(0));
        emit_block(if_block, code);
        let jmp_at = code.len();
        emit_one(code, Instruction::Jmp(0));
        let else_start = code.len();
        emit_block(else_block, code);
        let after_else = code.len();
        assert(code_view(code@) =~= before + test + seq![InstructionView::Jz(0)] + if_code
            + seq![InstructionView::Jmp(0)] + else_code);
        patch(code, jz_at, Instruction::Jz(else_start));
        patch(code, jmp_at, Instruction::Jmp(after_else));
        assert(code_view(code@) =~= before + (test + seq![
            InstructionView::Jz(else_start as nat),
        ] + if_code + seq![InstructionView::Jmp(after_else as nat)] + else_code));
    }
}

/// Appends the instructions of a loop: the test, a jump past the loop if it
/// fails, the body, a jump back to the test. The first jump is written as
/// a placeholder and patched once the body's length is known.
fn emit_while(node: &ASTNode, code: &mut Vec<Instruction>)
    requires
        node is While,
        node@.supported(),
    ensures
        code_view(final(code)@) == code_view(old(code)@) + compiled(
            node@,
            old(code).len() as nat,
        ),
        final(code).len() == old(code).len() + compiled(node@, old(code).len() as nat).len(),
    decreases node, 0nat,
{
    let ghost before = code_view(code@);
    let ghost base = code.len() as nat;
    if let ASTNode::While { condition, body } = node {
        let ghost test = compiled(condition@, base);
        let ghost body_code = compiled_block(node_views(body@), base + test.len() + 1);
        let condition_start = code.len();
        emit(condition, code);
        let jz_at = code.len();
        emit_one(code, Instruction::Jz(0));
        emit_block(body, code);
        emit_one(code, Instruction::Jmp(condition_start));
        let after_loop = code.len();
        assert(code_view(code@) =~= before + test + seq![InstructionView::Jz(0)] + body_code
            + seq![InstructionView::Jmp(base)]);
        patch(code, jz_at, Instruction::Jz(after_loop));
        assert(code_view(code@) =~= before + (test + seq![
            InstructionView::Jz(after_loop as nat),
        ] + body_code + seq![InstructionView::Jmp(base)]));
    }
}

/// Appends the instructions of the statements `nodes` to `code`.
fn emit_block(nodes: &Vec<ASTNode>, code: &mut Vec<Instruction>)
    requires
        all_supported(node_views(nodes@)),
    ensures
        code_view(final(code)@) == code_view(old(code)@) + compiled_block(
            node_views(nodes@),
            old(code).len() as nat,
        ),
        final(code).len() == old(code).len() + compiled_block(
            node_views(nodes@),
            old(code).len() as nat,
        ).len(),
    decreases nodes,
{
    let ghost before = code_view(code@);
    let ghost base = code.len() as nat;
    let ghost all = node_views(nodes@);
    proof {
        lemma_node_views(nodes@);
    }
    let mut i: usize = 0;
    assert(before + compiled_block(all.take(0), base) =~= before);
    while i < nodes.len()
        invariant
            i <= nodes.len(),
            all == node_views(nodes@),
            all.len() == nodes.len(),
            forall|j: int| 0 <= j < nodes.len() ==> #[trigger] all[j] == nodes[j]@,
            all_supported(all),
            before.len() == base,
            code.len() == base + compiled_block(all.take(i as int), base).len(),
            code_view(code@) == before + compiled_block(all.take(i as int), base),
        decreases nodes.len() - i,
    {
        proof {
            assert(all.take(i + 1).drop_last() =~= all.take(i as int));
            assert(all.take(i + 1).last() == nodes[i as int]@);
            assert(all[i as int].supported());
        }
        emit(&nodes[i], code);
        i += 1;
        assert(code_view(code@) =~= before + compiled_block(all.take(i as int), base));
    }
    assert(all.take(i as int) =~= all);
}

/// Appends to `code` the instructions that fill an array with `elements`.
fn emit_items(elements: &Vec<ASTNode>, code: &mut Vec<Instruction>)
    requires
        all_supported(node_views(elements@)),
    ensures
        code_view(final(code)@) == code_view(old(code)@) + compiled_items(
            node_views(elements@),
            old(code).len() as nat,
        ),
        final(code).len() == old(code).len() + compiled_items(
            node_views(elements@),
            old(code).len() as nat,
        ).len(),
    decreases elements,
{
    let ghost before = code_view(code@);
    let ghost base = code.len() as nat;
    let ghost all = node_views(elements@);
    proof {
        lemma_node_views(elements@);
    }
    let mut i: usize = 0;
    assert(before + compiled_items(all.take(0), base) =~= before);
    while i < elements.len()
        invariant
            i <= elements.len(),
            all == node_views(elements@),
            all.len() == elements.len(),
            forall|j: int| 0 <= j < elements.len() ==> #[trigger] all[j] == elements[j]@,
            all_supported(all),
            before.len() == base,
            code.len() == base + compiled_items(all.take(i as int), base).len(),
            code_view(code@) == before + compiled_items(all.take(i as int), base),
        decreases elements.len() - i,
    {
        proof {
            assert(all.take(i + 1).drop_last() =~= all.take(i as int));
            assert(all.take(i + 1).last() == elements[i as int]@);
            assert(all[i as int].supported());
        }
        emit(&elements[i], code);
        emit_one(code, Instruction::ArrayOp(ArrayOperation::Push));
        i += 1;
        assert(code_view(code@) =~= before + compiled_items(all.take(i as int), base));
    }
    assert(all.take(i as int) =~= all);
}

/// Compiles one syntax tree to instructions. The jump targets are indices
/// into the result, as if it were a whole program.
pub fn compile(node: ASTNode) -> (code: Vec<Instruction>)
    requires
        node@.supported(),
    ensures
        code_view(code@) == compiled(node@, 0),
{
    let mut code: Vec<Instruction> = Vec::new();
    emit(&node, &mut code);
    assert(code_view(code@) =~= compiled(node@, 0));
    code
}

/// Compiles a program, statement by statement, to one sequence of
/// instructions whose jump targets are indices into the whole.
pub fn run_instructions(nodes: Vec<ASTNode>) -> (code: Vec<Instruction>)
    requires
        all_supported(node_views(nodes@)),
    ensures
        code_view(code@) == linked(node_views(nodes@)),
        code_view(code@) == compiled_block(node_views(nodes@), 0),
{
    let mut code: Vec<Instruction> = Vec::new();
    emit_block(&nodes, &mut code);
    assert(code_view(code@) =~= compiled_block(node_views(nodes@), 0));
    proof {
        lemma_program_is_linked(node_views(nodes@));
    }
    code
}

/// Whether `op` is one of the eight binary operators.
fn is_operator(op: &Token) -> (ok: bool)
    ensures
        ok == (operator(op@) is Some),
{
    match op {
        Token::Plus => true,
        Token::Minus => true,
        Token::Star => true,
        Token::Slash => true,
        Token::Greater => true,
        Token::Less => true,
        Token::Equal => true,
        Token::NotEqual => true,
        _ => false,
    }
}

impl ASTNode {
    /// Whether the compiler accepts the tree: to be asked before `compile`
    /// of a tree that no parser built.
    pub fn is_supported(&self) -> (ok: bool)
        ensures
            ok == self@.supported(),
        decreases self, 1nat,
    {
        match self {
            ASTNode::Number(_) => true,
            ASTNode::String(_) => true,
            ASTNode::BinOp { left, op, right } => is_operator(op) && left.is_supported()
                && right.is_supported(),
            ASTNode::If { condition, if_block, else_block } => condition.is_supported()
                && are_supported(if_block) && are_supported(else_block),
            ASTNode::While { condition, body } => condition.is_supported() && are_supported(body),
            ASTNode::VarDecl(_, value) => value.is_supported(),
            ASTNode::VarAssign(_, value) => value.is_supported(),
            ASTNode::VarRef(_) => true,
            ASTNode::Block(nodes) => are_supported(nodes),
            ASTNode::Array(elements) => are_supported(elements),
            ASTNode::ArrayIndex { array, index } => array.is_supported() && index.is_supported(),
            ASTNode::ArrayAssign { array, index, value } => array.is_supported()
                && index.is_supported() && value.is_supported(),
        }
    }
}

/// Whether the compiler accepts each of the trees: to be asked before
/// `run_instructions` of trees that no parser built.
pub fn are_supported(nodes: &Vec<ASTNode>) -> (ok: bool)
    ensures
        ok == all_supported(node_views(nodes@)),
    decreases nodes, 0nat,
{
    proof {
        lemma_node_views(nodes@);
    }
    let mut i: usize = 0;
    while i < nodes.len()
        invariant
            i <= nodes.len(),
            node_views(nodes@).len() == nodes.len(),
            forall|j: int| 0 <= j < nodes.len() ==> #[trigger] node_views(nodes@)[j] == nodes[j]@,
            forall|j: int| 0 <= j < i ==> (#[trigger] node_views(nodes@)[j]).supported(),
        decreases nodes.len() - i,
    {
        if !nodes[i].is_supported() {
            assert(!node_views(nodes@)[i as int].supported());
            return false;
        }
        i += 1;
    }
    true
}


} // verus!
