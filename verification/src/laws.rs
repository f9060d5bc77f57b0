//! What holds of the compiler and the machine together.

use crate::ast::AstView;
use crate::compiler::{all_supported, compiled, compiled_block, compiled_items, operator};
use crate::error::ErrorView;
use crate::semantics::{
    fresh_state, jump_error, run, step, step_limit_error, unclosed_error, InstructionView,
    MachineState,
};
use crate::text::decimal;
use crate::tokenizer::TokenView;
use crate::types::{overflow_error, truncated_quotient, ValueView};
use crate::vm::{code_view, Instruction, VM};
use vstd::prelude::*;

verus! {

/// The target of a jump; none for any other instruction.
pub open spec fn jump_target(instruction: InstructionView) -> Option<nat> {
    match instruction {
        InstructionView::Jmp(target) => Some(target),
        InstructionView::Jz(target) => Some(target),
        _ => None,
    }
}

/// Whether every jump in `code` goes to an index below `bound`.
pub open spec fn jumps_below(code: Seq<InstructionView>, bound: nat) -> bool {
    forall|i: int|
        0 <= i < code.len() ==> match jump_target(#[trigger] code[i]) {
            Some(target) => target < bound,
            None => true,
        }
}

/// Whether a statement's code ends in a jump to the instruction after it:
/// that of a conditional and that of a loop do.
pub open spec fn jumps_past_end(node: AstView) -> bool {
    node is If || node is While
}

/// If the jumps of two pieces stay below a bound, so do those of the two
/// put together.
proof fn lemma_jumps_concat(a: Seq<InstructionView>, b: Seq<InstructionView>, bound: nat)
    requires
        jumps_below(a, bound),
        jumps_below(b, bound),
    ensures
        jumps_below(a + b, bound),
{
    assert forall|i: int| 0 <= i < (a + b).len() implies match jump_target(#[trigger] (a + b)[i]) {
        Some(target) => target < bound,
        None => true,
    } by {
        if i < a.len() {
            assert((a + b)[i] == a[i]);
        } else {
            assert((a + b)[i] == b[i - a.len()]);
        }
    }
}

/// Jumps that stay below a bound stay below any larger one.
proof fn lemma_jumps_weaken(code: Seq<InstructionView>, bound: nat, larger: nat)
    requires
        jumps_below(code, bound),
        bound <= larger,
    ensures
        jumps_below(code, larger),
{
}

/// The code of a node is not empty, and none of its jumps goes past the
/// instruction after it; unless the node is a conditional or a loop, none
/// goes past its last instruction.
pub proof fn lemma_node_jumps(node: AstView, base: nat)
    requires
        node.supported(),
    ensures
        compiled(node, base).len() >= 1,
        jumps_below(compiled(node, base), base + compiled(node, base).len() + 1),
        !jumps_past_end(node) ==> jumps_below(
            compiled(node, base),
            base + compiled(node, base).len(),
        ),
    decreases node,
{
    let code = compiled(node, base);
    let end = base + code.len();
    match node {
        AstView::Number(_) => {},
        AstView::String(_) => {},
        AstView::BinOp { left, op, right } => {
            let left_code = compiled(*left, base);
            let right_code = compiled(*right, base + left_code.len());
            lemma_node_jumps(*left, base);
            lemma_node_jumps(*right, base + left_code.len());
            lemma_jumps_weaken(left_code, base + left_code.len() + 1, end);
            lemma_jumps_weaken(right_code, base + left_code.len() + right_code.len() + 1, end);
            lemma_jumps_concat(left_code, right_code, end);
            lemma_jumps_concat(left_code + right_code, seq![code.last()], end);
            assert(code =~= left_code + right_code + seq![code.last()]);
        },
        AstView::If { condition, if_block, else_block } => {
            let test = compiled(*condition, base);
            let if_code = compiled_block(if_block, base + test.len() + 1);
            let else_start = base + test.len() + 1 + if_code.len() + 1;
            let else_code = compiled_block(else_block, else_start);
            lemma_node_jumps(*condition, base);
            lemma_block_jumps(if_block, base + test.len() + 1);
            lemma_block_jumps(else_block, else_start);
            lemma_jumps_weaken(test, base + test.len() + 1, end + 1);
            lemma_jumps_weaken(if_code, base + test.len() + 1 + if_code.len() + 1, end + 1);
            let jz = seq![InstructionView::Jz(else_start)];
            let jmp = seq![InstructionView::Jmp(else_start + else_code.len())];
            lemma_jumps_concat(test, jz, end + 1);
            lemma_jumps_concat(test + jz, if_code, end + 1);
            lemma_jumps_concat(test + jz + if_code, jmp, end + 1);
            lemma_jumps_concat(test + jz + if_code + jmp, else_code, end + 1);
        },
        AstView::While { condition, body } => {
            let test = compiled(*condition, base);
            let body_code = compiled_block(body, base + test.len() + 1);
            lemma_node_jumps(*condition, base);
            lemma_block_jumps(body, base + test.len() + 1);
            lemma_jumps_weaken(test, base + test.len() + 1, end + 1);
            lemma_jumps_weaken(body_code, base + test.len() + 1 + body_code.len() + 1, end + 1);
            let jz = seq![InstructionView::Jz(end)];
            let jmp = seq![InstructionView::Jmp(base)];
            lemma_jumps_concat(test, jz, end + 1);
            lemma_jumps_concat(test + jz, body_code, end + 1);
            lemma_jumps_concat(test + jz + body_code, jmp, end + 1);
        },
        AstView::VarDecl(name, value) => {
            let value_code = compiled(*value, base);
            lemma_node_jumps(*value, base);
            lemma_jumps_concat(value_code, seq![InstructionView::Store(name)], end);
        },
        AstView::VarAssign(name, value) => {
            let value_code = compiled(*value, base);
            lemma_node_jumps(*value, base);
            lemma_jumps_concat(value_code, seq![InstructionView::Store(name)], end);
        },
        AstView::VarRef(_) => {},
        AstView::Block(nodes) => {
            let inner = compiled_block(nodes, base + 1);
            lemma_block_jumps(nodes, base + 1);
            lemma_jumps_concat(seq![InstructionView::BeginScope], inner, end);
            lemma_jumps_concat(
                seq![InstructionView::BeginScope] + inner,
                seq![InstructionView::EndScope],
                end,
            );
        },
        AstView::Array(elements) => {
            let items = compiled_items(elements, base + 1);
            lemma_items_jumps(elements, base + 1);
            lemma_jumps_weaken(items, base + 1 + items.len() + 1, end + 1);
            lemma_jumps_concat(seq![InstructionView::CreateArray], items, end);
        },
        AstView::ArrayIndex { array, index } => {
            let array_code = compiled(*array, base);
            let index_code = compiled(*index, base + array_code.len());
            lemma_node_jumps(*array, base);
            lemma_node_jumps(*index, base + array_code.len());
            lemma_jumps_weaken(array_code, base + array_code.len() + 1, end);
            lemma_jumps_concat(array_code, index_code, end);
            lemma_jumps_concat(array_code + index_code, seq![InstructionView::ArrayGet], end);
        },
        AstView::ArrayAssign { array, index, value } => {
            let array_code = compiled(*array, base);
            let index_code = compiled(*index, base + array_code.len());
            let value_code = compiled(*value, base + array_code.len() + index_code.len());
            lemma_node_jumps(*array, base);
            lemma_node_jumps(*index, base + array_code.len());
            lemma_node_jumps(*value, base + array_code.len() + index_code.len());
            lemma_jumps_weaken(array_code, base + array_code.len() + 1, end);
            lemma_jumps_weaken(
                index_code,
                base + array_code.len() + index_code.len() + 1,
                end,
            );
            lemma_jumps_concat(array_code, index_code, end);
            lemma_jumps_concat(array_code + index_code, value_code, end);
            lemma_jumps_concat(
                array_code + index_code + value_code,
                seq![InstructionView::ArrayPut],
                end,
            );
        },
    }
}

/// None of the jumps of a block's code goes past the instruction after it;
/// unless the block ends in a conditional or a loop, none goes past its last
/// instruction.
pub proof fn lemma_block_jumps(nodes: Seq<AstView>, base: nat)
    requires
        all_supported(nodes),
    ensures
        compiled_block(nodes, base).len() >= nodes.len(),
        jumps_below(compiled_block(nodes, base), base + compiled_block(nodes, base).len() + 1),
        nodes.len() > 0 && !jumps_past_end(nodes.last()) ==> jumps_below(
            compiled_block(nodes, base),
            base + compiled_block(nodes, base).len(),
        ),
    decreases nodes,
{
    if nodes.len() > 0 {
        let front = compiled_block(nodes.drop_last(), base);
        let last = compiled(nodes.last(), base + front.len());
        let end = base + front.len() + last.len();
        lemma_block_jumps(nodes.drop_last(), base);
        lemma_node_jumps(nodes.last(), base + front.len());
        lemma_jumps_weaken(front, base + front.len() + 1, end);
        lemma_jumps_weaken(front, end, end + 1);
        lemma_jumps_concat(front, last, end + 1);
        if !jumps_past_end(nodes.last()) {
            lemma_jumps_concat(front, last, end);
        }
    }
}

/// None of the jumps in the code that fills an array goes past its last
/// instruction.
pub proof fn lemma_items_jumps(elements: Seq<AstView>, base: nat)
    requires
        all_supported(elements),
    ensures
        jumps_below(
            compiled_items(elements, base),
            base + compiled_items(elements, base).len() + 1,
        ),
        elements.len() > 0 ==> jumps_below(
            compiled_items(elements, base),
            base + compiled_items(elements, base).len(),
        ),
    decreases elements,
{
    if elements.len() > 0 {
        let front = compiled_items(elements.drop_last(), base);
        let last = compiled(elements.last(), base + front.len());
        let end = base + front.len() + last.len() + 1;
        lemma_items_jumps(elements.drop_last(), base);
        lemma_node_jumps(elements.last(), base + front.len());
        lemma_jumps_weaken(front, base + front.len() + 1, end);
        lemma_jumps_concat(front, last, end);
        lemma_jumps_concat(front + last, seq![InstructionView::ArrayPush], end);
    }
}

/// In a compiled program, no jump goes further than to the end of the
/// program.
pub proof fn lemma_program_jumps_reach_at_most_the_end(nodes: Seq<AstView>)
    requires
        all_supported(nodes),
    ensures
        jumps_below(compiled_block(nodes, 0), compiled_block(nodes, 0).len() + 1),
{
    lemma_block_jumps(nodes, 0);
}

/// In a compiled program that does not end in a conditional or a loop,
/// every jump goes to an instruction of the program.
pub proof fn lemma_program_jumps_are_valid(nodes: Seq<AstView>)
    requires
        all_supported(nodes),
        nodes.len() > 0 ==> !jumps_past_end(nodes.last()),
    ensures
        jumps_below(compiled_block(nodes, 0), compiled_block(nodes, 0).len()),
{
    lemma_block_jumps(nodes, 0);
    if nodes.len() == 0 {
        assert(compiled_block(nodes, 0) =~= Seq::<InstructionView>::empty());
    }
}

/// Whether an error reports a jump out of the program.
pub open spec fn is_jump_fault(e: ErrorView) -> bool {
    e is InvalidJump || exists|target: nat| e == jump_error(target)
}

/// The message of a jump error begins with a `J`; those of the other
/// execution errors do not.
proof fn lemma_jump_error_differs(target: nat)
    ensures
        jump_error(target) != overflow_error(),
        jump_error(target) != step_limit_error(),
        forall|open_scopes: nat| jump_error(target) != unclosed_error(open_scopes),
{
    reveal_strlit("Jump target ");
    reveal_strlit("Integer overflow");
    reveal_strlit("Step limit exceeded");
    reveal_strlit("Unclosed scopes at end of execution: ");
    let message = "Jump target "@ + decimal(target) + " out of bounds"@;
    assert(message[0] == 'J');
    assert("Integer overflow"@[0] == 'I');
    assert("Step limit exceeded"@[0] == 'S');
    assert forall|open_scopes: nat| jump_error(target) != unclosed_error(open_scopes) by {
        let other = "Unclosed scopes at end of execution: "@ + decimal(open_scopes);
        assert(other[0] == 'U');
    }
}

/// Where every jump of `code` goes to an instruction of `code`, no step
/// fails for its jump.
pub proof fn lemma_step_has_no_jump_fault(s: MachineState, code: Seq<InstructionView>, limit: nat)
    requires
        s.ip < code.len(),
        jumps_below(code, code.len()),
    ensures
        match step(s, code, limit) {
            Ok(_) => true,
            Err(e) => !is_jump_fault(e),
        },
{
    reveal(step);
    let instruction = code[s.ip as int];
    assert(match jump_target(instruction) {
        Some(target) => target < code.len(),
        None => true,
    });
    assert forall|target: nat| step(s, code, limit) != Err::<MachineState, ErrorView>(
        jump_error(target),
    ) by {
        lemma_jump_error_differs(target);
    }
}

/// Where every jump of `code` goes to an instruction of `code`, no run
/// fails for a jump: such a failure takes instructions that no compiler
/// wrote.
pub proof fn lemma_run_has_no_jump_fault(
    s: MachineState,
    code: Seq<InstructionView>,
    limit: nat,
    fuel: nat,
)
    requires
        jumps_below(code, code.len()),
    ensures
        match run(s, code, limit, fuel) {
            Ok(_) => true,
            Err(e) => !is_jump_fault(e),
        },
    decreases fuel,
{
    if s.ip >= code.len() {
        assert forall|target: nat| jump_error(target) != unclosed_error(s.open_scopes) by {
            lemma_jump_error_differs(target);
        }
    } else if fuel == 0 {
        assert forall|target: nat| jump_error(target) != step_limit_error() by {
            lemma_jump_error_differs(target);
        }
    } else {
        lemma_step_has_no_jump_fault(s, code, limit);
        match step(s, code, limit) {
            Ok(next) => {
                lemma_run_has_no_jump_fault(next, code, limit, (fuel - 1) as nat);
            },
            Err(_) => {},
        }
    }
}

/// Running a compiled program that does not end in a conditional or a loop
/// never fails for a jump out of the program.
pub proof fn lemma_compiled_program_has_no_jump_fault(
    nodes: Seq<AstView>,
    s: MachineState,
    limit: nat,
    fuel: nat,
)
    requires
        all_supported(nodes),
        nodes.len() > 0 ==> !jumps_past_end(nodes.last()),
    ensures
        match run(s, compiled_block(nodes, 0), limit, fuel) {
            Ok(_) => true,
            Err(e) => !is_jump_fault(e),
        },
{
    lemma_program_jumps_are_valid(nodes);
    lemma_run_has_no_jump_fault(s, compiled_block(nodes, 0), limit, fuel);
}

/// The syntax tree of `a / b` for two number literals.
pub open spec fn division_of(a: i32, b: i32) -> AstView {
    AstView::BinOp {
        left: Box::new(AstView::Number(a)),
        op: TokenView::Slash,
        right: Box::new(AstView::Number(b)),
    }
}

/// The quotient rounded toward zero is the one whose remainder is smaller
/// than the divisor and, unless it is zero, has the sign of the dividend.
pub proof fn lemma_truncated_quotient(a: int, b: int)
    requires
        b != 0,
    ensures
        ({
            let q = truncated_quotient(a, b);
            let r = a - q * b;
            &&& (b > 0 ==> -b < r < b)
            &&& (b < 0 ==> b < r < -b)
            &&& (a >= 0 ==> r >= 0)
            &&& (a <= 0 ==> r <= 0)
        }),
{
    let q = truncated_quotient(a, b);
    if a >= 0 {
        if b > 0 {
            assert(a == (a / b) * b + a % b && 0 <= a % b < b) by (nonlinear_arith)
                requires
                    b > 0,
            ;
        } else {
            let c = -b;
            assert(a == (a / c) * c + a % c && 0 <= a % c < c) by (nonlinear_arith)
                requires
                    c > 0,
            ;
            assert(q * b == (a / c) * c) by (nonlinear_arith)
                requires
                    q == -(a / c),
                    b == -c,
            ;
        }
    } else {
        let m = -a;
        if b > 0 {
            assert(m == (m / b) * b + m % b && 0 <= m % b < b) by (nonlinear_arith)
                requires
                    b > 0,
            ;
            assert(q * b == -((m / b) * b)) by (nonlinear_arith)
                requires
                    q == -(m / b),
            ;
        } else {
            let c = -b;
            assert(m == (m / c) * c + m % c && 0 <= m % c < c) by (nonlinear_arith)
                requires
                    c > 0,
            ;
            assert(q * b == -((m / c) * c)) by (nonlinear_arith)
                requires
                    q == m / c,
                    b == -c,
            ;
        }
    }
}

/// Compiled and run on a machine that has run nothing, `a / b` leaves the
/// quotient rounded toward zero as the one value on the stack; with a zero
/// divisor the run fails for the division by zero. The one quotient that is
/// no number of the machine, that of the least number by -1, is left out.
pub proof fn lemma_division_runs_to_truncated_quotient(a: i32, b: i32)
    requires
        !(a == i32::MIN && b == -1),
    ensures
        ({
            let code = compiled(division_of(a, b), 0);
            let outcome = run(fresh_state(), code, 4000, u64::MAX as nat);
            if b == 0 {
                outcome == Err::<MachineState, ErrorView>(ErrorView::DivisionByZero)
            } else {
                &&& i32::MIN <= truncated_quotient(a as int, b as int) <= i32::MAX
                &&& outcome == Ok::<MachineState, ErrorView>(
                    MachineState {
                        stack: seq![
                            ValueView::Number(truncated_quotient(a as int, b as int) as i32),
                        ],
                        ip: 3,
                        ..fresh_state()
                    },
                )
            }
        }),
{
    reveal(step);
    let code = compiled(division_of(a, b), 0);
    let s0 = fresh_state();
    assert(compiled(AstView::Number(a), 0) == seq![InstructionView::Push(ValueView::Number(a))]);
    assert(compiled(AstView::Number(b), 1) == seq![InstructionView::Push(ValueView::Number(b))]);
    assert(operator(TokenView::Slash).unwrap() == InstructionView::Div);
    assert(code =~= seq![
        InstructionView::Push(ValueView::Number(a)),
        InstructionView::Push(ValueView::Number(b)),
        InstructionView::Div,
    ]);
    let fuel = u64::MAX as nat;
    let s1 = MachineState { stack: seq![ValueView::Number(a)], ip: 1, ..s0 };
    let s2 = MachineState {
        stack: seq![ValueView::Number(a), ValueView::Number(b)],
        ip: 2,
        ..s0
    };
    assert(s0.stack.push(ValueView::Number(a)) =~= s1.stack);
    assert(s1.stack.push(ValueView::Number(b)) =~= s2.stack);
    assert(step(s0, code, 4000) == Ok::<MachineState, ErrorView>(s1));
    assert(step(s1, code, 4000) == Ok::<MachineState, ErrorView>(s2));
    assert(run(s0, code, 4000, fuel) == run(s1, code, 4000, (fuel - 1) as nat));
    assert(run(s1, code, 4000, (fuel - 1) as nat) == run(s2, code, 4000, (fuel - 2) as nat));
    assert(s2.stack.take(0) =~= Seq::<ValueView>::empty());
    if b == 0 {
        assert(step(s2, code, 4000) == Err::<MachineState, ErrorView>(
            ErrorView::DivisionByZero,
        ));
    } else {
        lemma_truncated_quotient(a as int, b as int);
        let q = truncated_quotient(a as int, b as int);
        assert(i32::MIN <= q <= i32::MAX) by (nonlinear_arith)
            requires
                b != 0,
                !(a == i32::MIN && b == -1),
                i32::MIN <= a <= i32::MAX,
                i32::MIN <= b <= i32::MAX,
                b > 0 ==> -b < a - q * b < b,
                b < 0 ==> b < a - q * b < -b,
                a >= 0 ==> a - q * b >= 0,
                a <= 0 ==> a - q * b <= 0,
        ;
        let s3 = MachineState { stack: seq![ValueView::Number(q as i32)], ip: 3, ..s0 };
        assert(Seq::<ValueView>::empty().push(ValueView::Number(q as i32)) =~= s3.stack);
        assert(step(s2, code, 4000) == Ok::<MachineState, ErrorView>(s3));
        assert(run(s2, code, 4000, (fuel - 2) as nat) == run(s3, code, 4000, (fuel - 3) as nat));
    }
}

/// A run depends on nothing but the machine's state, its limits and the
/// instructions' content: run again on a machine in the same state, the
/// same instructions end in the same state, or with the same error.
pub proof fn lemma_rerun_ends_alike(
    first: VM,
    second: VM,
    code: Seq<Instruction>,
    again: Seq<Instruction>,
)
    requires
        first@ == second@,
        first.same_limits(&second),
        code_view(code) == code_view(again),
    ensures
        first.outcome(code) == second.outcome(again),
{
}

} // verus!
