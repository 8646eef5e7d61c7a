//! The target machine: a stack of 64-bit signed integers. `Add`, `Sub` and
//! `Mul` wrap on 64 bits; `Div` sign-extends the left operand to double
//! width and divides, truncating toward zero, faulting on a zero divisor or
//! on the one overflowing quotient (`i64::MIN / -1`); the comparisons leave a
//! zero-extended 0/1 result. The module also gives the direct evaluation of
//! an expression tree with the same arithmetic, and the proof that generated
//! code computes it.

use vstd::prelude::*;

use crate::codegen::{spec_gen, Instr};
use crate::parser::Node;

verus! {

/// The result of one binary operation; `None` is a machine fault. Only
/// division can fault: `Push` never reaches this function on a decoded
/// instruction, and is mapped to a fault here so that no instruction is
/// wrongly taken for an operation.
pub open spec fn spec_op(ins: Instr, a: i64, b: i64) -> Option<i64> {
    match ins {
        Instr::Push(_) => None,
        Instr::Add => Some(vstd::wrapping::i64_specs::wrapping_add(a, b)),
        Instr::Sub => Some(vstd::wrapping::i64_specs::wrapping_sub(a, b)),
        Instr::Mul => Some(vstd::wrapping::i64_specs::wrapping_mul(a, b)),
        Instr::Div => a.checked_div(b),
        Instr::Eq => Some(
            if a == b {
                1i64
            } else {
                0i64
            },
        ),
        Instr::Ne => Some(
            if a != b {
                1i64
            } else {
                0i64
            },
        ),
        Instr::Lt => Some(
            if a < b {
                1i64
            } else {
                0i64
            },
        ),
        Instr::Le => Some(
            if a <= b {
                1i64
            } else {
                0i64
            },
        ),
    }
}

/// One machine step: a push, or pop the right operand, pop the left operand,
/// apply the operation and push its result. A fault (`None`) is an operand
/// shortage or a faulting operation.
pub open spec fn spec_step(ins: Instr, stack: Seq<i64>) -> Option<Seq<i64>> {
    match ins {
        Instr::Push(v) => Some(stack.push(v as i64)),
        _ => {
            if stack.len() < 2 {
                None
            } else {
                let a = stack[stack.len() - 2];
                let b = stack[stack.len() - 1];
                match spec_op(ins, a, b) {
                    Some(v) => Some(stack.take(stack.len() - 2).push(v)),
                    None => None,
                }
            }
        },
    }
}

/// Runs the code on a starting stack, instruction by instruction; a fault
/// stops the machine.
pub open spec fn spec_run(code: Seq<Instr>, stack: Seq<i64>) -> Option<Seq<i64>>
    decreases code.len(),
{
    if code.len() == 0 {
        Some(stack)
    } else {
        match spec_step(code[0], stack) {
            Some(s) => spec_run(code.drop_first(), s),
            None => None,
        }
    }
}

/// Direct evaluation of a tree, with the machine's arithmetic: wrapping
/// 64-bit `+`, `-`, `*`; truncating division that faults on a zero divisor
/// or on `i64::MIN / -1`; 0/1-valued comparisons.
pub open spec fn spec_eval(n: Node) -> Option<i64>
    decreases n,
{
    match n {
        Node::Num(v) => Some(v as i64),
        Node::Add(l, r) => match (spec_eval(*l), spec_eval(*r)) {
            (Some(a), Some(b)) => spec_op(Instr::Add, a, b),
            _ => None,
        },
        Node::Sub(l, r) => match (spec_eval(*l), spec_eval(*r)) {
            (Some(a), Some(b)) => spec_op(Instr::Sub, a, b),
            _ => None,
        },
        Node::Mul(l, r) => match (spec_eval(*l), spec_eval(*r)) {
            (Some(a), Some(b)) => spec_op(Instr::Mul, a, b),
            _ => None,
        },
        Node::Div(l, r) => match (spec_eval(*l), spec_eval(*r)) {
            (Some(a), Some(b)) => spec_op(Instr::Div, a, b),
            _ => None,
        },
        Node::Eq(l, r) => match (spec_eval(*l), spec_eval(*r)) {
            (Some(a), Some(b)) => spec_op(Instr::Eq, a, b),
            _ => None,
        },
        Node::Ne(l, r) => match (spec_eval(*l), spec_eval(*r)) {
            (Some(a), Some(b)) => spec_op(Instr::Ne, a, b),
            _ => None,
        },
        Node::Lt(l, r) => match (spec_eval(*l), spec_eval(*r)) {
            (Some(a), Some(b)) => spec_op(Instr::Lt, a, b),
            _ => None,
        },
        Node::Le(l, r) => match (spec_eval(*l), spec_eval(*r)) {
            (Some(a), Some(b)) => spec_op(Instr::Le, a, b),
            _ => None,
        },
    }
}

/// Running concatenated code runs the first part, then the second on what is
/// left of it.
pub proof fn lemma_run_append(c1: Seq<Instr>, c2: Seq<Instr>, stack: Seq<i64>)
    ensures
        spec_run(c1 + c2, stack) == (match spec_run(c1, stack) {
            Some(s) => spec_run(c2, s),
            None => None::<Seq<i64>>,
        }),
    decreases c1.len(),
{
    if c1.len() == 0 {
        assert(c1 + c2 =~= c2);
    } else {
        assert((c1 + c2)[0] == c1[0]);
        match spec_step(c1[0], stack) {
            Some(s) => {
                assert((c1 + c2).drop_first() =~= c1.drop_first() + c2);
                lemma_run_append(c1.drop_first(), c2, s);
            },
            None => {
                assert((c1 + c2).len() > 0);
            },
        }
    }
}

/// A non-push instruction, run on a stack ending in the two operands,
/// replaces them by the operation's result, or faults exactly when the
/// operation does.
proof fn lemma_run_op(op: Instr, a: i64, b: i64, stack: Seq<i64>)
    requires
        !(op matches Instr::Push(_)),
    ensures
        spec_run(seq![op], stack.push(a).push(b)) == (match spec_op(op, a, b) {
            Some(v) => Some(stack.push(v)),
            None => None::<Seq<i64>>,
        }),
{
    let s2 = stack.push(a).push(b);
    assert(seq![op].len() == 1);
    assert(seq![op][0] == op);
    assert(s2.len() == stack.len() + 2);
    assert(s2[s2.len() - 2] == a);
    assert(s2[s2.len() - 1] == b);
    assert(s2.take(s2.len() - 2) =~= stack);
    assert(seq![op].drop_first() =~= Seq::<Instr>::empty());
    match spec_op(op, a, b) {
        Some(v) => {
            assert(spec_step(op, s2) == Some(stack.push(v)));
            assert(spec_run(seq![op], s2) == spec_run(Seq::<Instr>::empty(), stack.push(v)));
        },
        None => {
            assert(spec_step(op, s2) == None::<Seq<i64>>);
        },
    }
}

/// The shared shape of every binary node's case: given the two subtrees'
/// correctness at the stacks the machine actually reaches, the concatenated
/// code computes the operation.
proof fn lemma_bin_case(op: Instr, l: Node, r: Node, stack: Seq<i64>)
    requires
        !(op matches Instr::Push(_)),
        spec_run(spec_gen(l), stack) == (match spec_eval(l) {
            Some(v) => Some(stack.push(v)),
            None => None::<Seq<i64>>,
        }),
        match spec_eval(l) {
            Some(a) => spec_run(spec_gen(r), stack.push(a)) == (match spec_eval(r) {
                Some(v) => Some(stack.push(a).push(v)),
                None => None::<Seq<i64>>,
            }),
            None => true,
        },
    ensures
        spec_run(spec_gen(l) + spec_gen(r) + seq![op], stack) == (match (
            spec_eval(l),
            spec_eval(r),
        ) {
            (Some(a), Some(b)) => match spec_op(op, a, b) {
                Some(v) => Some(stack.push(v)),
                None => None::<Seq<i64>>,
            },
            _ => None::<Seq<i64>>,
        }),
{
    assert(spec_gen(l) + spec_gen(r) + seq![op] =~= spec_gen(l) + (spec_gen(r) + seq![op]));
    lemma_run_append(spec_gen(l), spec_gen(r) + seq![op], stack);
    match spec_eval(l) {
        Some(a) => {
            lemma_run_append(spec_gen(r), seq![op], stack.push(a));
            match spec_eval(r) {
                Some(b) => {
                    lemma_run_op(op, a, b, stack);
                },
                None => {
                },
            }
        },
        None => {
        },
    }
}

/// Law: run on any starting stack, the code generated for an expression
/// pushes exactly the expression's value and touches nothing beneath it —
/// the net stack depth of a subtree's code is exactly one. When evaluation
/// faults (a zero divisor, or the one overflowing quotient), and only then,
/// the machine faults too.
pub proof fn lemma_gen_correct(n: Node, stack: Seq<i64>)
    ensures
        spec_run(spec_gen(n), stack) == (match spec_eval(n) {
            Some(v) => Some(stack.push(v)),
            None => None::<Seq<i64>>,
        }),
    decreases n,
{
    match n {
        Node::Num(v) => {
            let code = seq![Instr::Push(v)];
            assert(code.len() == 1);
            assert(code[0] == Instr::Push(v));
            assert(code.drop_first() =~= Seq::<Instr>::empty());
            assert(spec_step(Instr::Push(v), stack) == Some(stack.push(v as i64)));
            assert(spec_run(code, stack) == spec_run(
                Seq::<Instr>::empty(),
                stack.push(v as i64),
            ));
            assert(spec_run(Seq::<Instr>::empty(), stack.push(v as i64)) == Some(
                stack.push(v as i64),
            ));
        },
        Node::Add(l, r) => {
            lemma_gen_correct(*l, stack);
            if let Some(a) = spec_eval(*l) {
                lemma_gen_correct(*r, stack.push(a));
            }
            lemma_bin_case(Instr::Add, *l, *r, stack);
        },
        Node::Sub(l, r) => {
            lemma_gen_correct(*l, stack);
            if let Some(a) = spec_eval(*l) {
                lemma_gen_correct(*r, stack.push(a));
            }
            lemma_bin_case(Instr::Sub, *l, *r, stack);
        },
        Node::Mul(l, r) => {
            lemma_gen_correct(*l, stack);
            if let Some(a) = spec_eval(*l) {
                lemma_gen_correct(*r, stack.push(a));
            }
            lemma_bin_case(Instr::Mul, *l, *r, stack);
        },
        Node::Div(l, r) => {
            lemma_gen_correct(*l, stack);
            if let Some(a) = spec_eval(*l) {
                lemma_gen_correct(*r, stack.push(a));
            }
            lemma_bin_case(Instr::Div, *l, *r, stack);
        },
        Node::Eq(l, r) => {
            lemma_gen_correct(*l, stack);
            if let Some(a) = spec_eval(*l) {
                lemma_gen_correct(*r, stack.push(a));
            }
            lemma_bin_case(Instr::Eq, *l, *r, stack);
        },
        Node::Ne(l, r) => {
            lemma_gen_correct(*l, stack);
            if let Some(a) = spec_eval(*l) {
                lemma_gen_correct(*r, stack.push(a));
            }
            lemma_bin_case(Instr::Ne, *l, *r, stack);
        },
        Node::Lt(l, r) => {
            lemma_gen_correct(*l, stack);
            if let Some(a) = spec_eval(*l) {
                lemma_gen_correct(*r, stack.push(a));
            }
            lemma_bin_case(Instr::Lt, *l, *r, stack);
        },
        Node::Le(l, r) => {
            lemma_gen_correct(*l, stack);
            if let Some(a) = spec_eval(*l) {
                lemma_gen_correct(*r, stack.push(a));
            }
            lemma_bin_case(Instr::Le, *l, *r, stack);
        },
    }
}

/// Runs the code on a starting stack and returns the final stack, or `None`
/// on a machine fault.
pub fn run_code(code: &Vec<Instr>, stack: Vec<i64>) -> (r: Option<Vec<i64>>)
    ensures
        match r {
            Some(s) => spec_run(code@, stack@) == Some(s@),
            None => spec_run(code@, stack@) == None::<Seq<i64>>,
        },
{
    let mut st = stack;
    let ghost st0 = st@;
    let mut i: usize = 0;
    proof {
        assert(code@.skip(0) =~= code@);
    }
    while i < code.len()
        invariant
            i <= code@.len(),
            st0 == stack@,
            spec_run(code@, st0) == spec_run(code@.skip(i as int), st@),
        decreases code@.len() - i,
    {
        proof {
            assert(code@.skip(i as int)[0] == code@[i as int]);
            assert(code@.skip(i as int).drop_first() =~= code@.skip(i as int + 1));
        }
        let ghost s_enter = st@;
        let ins = code[i];
        i = i + 1;
        match ins {
            Instr::Push(v) => {
                st.push(v as i64);
            },
            _ => {
                if st.len() < 2 {
                    proof {
                        assert(spec_step(ins, s_enter) == None::<Seq<i64>>);
                    }
                    return None;
                }
                let b = match st.pop() {
                    Some(x) => x,
                    None => vstd::pervasive::unreached(),
                };
                let a = match st.pop() {
                    Some(x) => x,
                    None => vstd::pervasive::unreached(),
                };
                proof {
                    assert(b == s_enter[s_enter.len() - 1]);
                    assert(a == s_enter[s_enter.len() - 2]);
                }
                let v: i64 = match ins {
                    Instr::Push(v) => vstd::pervasive::unreached(),
                    Instr::Add => a.wrapping_add(b),
                    Instr::Sub => a.wrapping_sub(b),
                    Instr::Mul => a.wrapping_mul(b),
                    Instr::Div => match a.checked_div(b) {
                        Some(q) => q,
                        None => {
                            proof {
                                assert(spec_step(ins, s_enter) == None::<Seq<i64>>);
                            }
                            return None;
                        },
                    },
                    Instr::Eq => if a == b {
                        1
                    } else {
                        0
                    },
                    Instr::Ne => if a != b {
                        1
                    } else {
                        0
                    },
                    Instr::Lt => if a < b {
                        1
                    } else {
                        0
                    },
                    Instr::Le => if a <= b {
                        1
                    } else {
                        0
                    },
                };
                st.push(v);
                proof {
                    assert(st@ =~= s_enter.take(s_enter.len() - 2).push(v));
                }
            },
        }
    }
    proof {
        assert(code@.skip(i as int) =~= Seq::<Instr>::empty());
    }
    Some(st)
}

/// Direct evaluation of the expression, with the machine's arithmetic.
pub fn eval(node: &Node) -> (r: Option<i64>)
    ensures
        r == spec_eval(*node),
    decreases *node,
{
    match node {
        Node::Num(v) => Some(*v as i64),
        Node::Add(l, r) => match (eval(l), eval(r)) {
            (Some(a), Some(b)) => Some(a.wrapping_add(b)),
            _ => None,
        },
        Node::Sub(l, r) => match (eval(l), eval(r)) {
            (Some(a), Some(b)) => Some(a.wrapping_sub(b)),
            _ => None,
        },
        Node::Mul(l, r) => match (eval(l), eval(r)) {
            (Some(a), Some(b)) => Some(a.wrapping_mul(b)),
            _ => None,
        },
        Node::Div(l, r) => match (eval(l), eval(r)) {
            (Some(a), Some(b)) => a.checked_div(b),
            _ => None,
        },
        Node::Eq(l, r) => match (eval(l), eval(r)) {
            (Some(a), Some(b)) => Some(
                if a == b {
                    1
                } else {
                    0
                },
            ),
            _ => None,
        },
        Node::Ne(l, r) => match (eval(l), eval(r)) {
            (Some(a), Some(b)) => Some(
                if a != b {
                    1
                } else {
                    0
                },
            ),
            _ => None,
        },
        Node::Lt(l, r) => match (eval(l), eval(r)) {
            (Some(a), Some(b)) => Some(
                if a < b {
                    1
                } else {
                    0
                },
            ),
            _ => None,
        },
        Node::Le(l, r) => match (eval(l), eval(r)) {
            (Some(a), Some(b)) => Some(
                if a <= b {
                    1
                } else {
                    0
                },
            ),
            _ => None,
        },
    }
}

} // verus!
