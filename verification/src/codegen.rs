//! The code generator: one post-order traversal of the expression tree,
//! emitting stack-machine instructions. Code for a subtree leaves exactly one
//! new value, the subtree's result, on the operand stack.

use vstd::prelude::*;

use crate::parser::{Node, ParseError};
use crate::token::TokenView;

verus! {

/// One stack-machine instruction. `Push` pushes a literal; every other
/// instruction pops the two topmost operands (the right operand first,
/// because it was pushed last), applies its operation, and pushes the
/// result.
#[derive(Clone, Copy, Debug, Eq, PartialEq, Structural)]
pub enum Instr {
    Push(u32),
    Add,
    Sub,
    Mul,
    Div,
    Eq,
    Ne,
    Lt,
    Le,
}

/// Post-order emission: code for the left subtree, code for the right
/// subtree, then the operation; a leaf pushes its value.
pub open spec fn spec_gen(n: Node) -> Seq<Instr>
    decreases n,
{
    match n {
        Node::Num(v) => seq![Instr::Push(v)],
        Node::Add(l, r) => spec_gen(*l) + spec_gen(*r) + seq![Instr::Add],
        Node::Sub(l, r) => spec_gen(*l) + spec_gen(*r) + seq![Instr::Sub],
        Node::Mul(l, r) => spec_gen(*l) + spec_gen(*r) + seq![Instr::Mul],
        Node::Div(l, r) => spec_gen(*l) + spec_gen(*r) + seq![Instr::Div],
        Node::Eq(l, r) => spec_gen(*l) + spec_gen(*r) + seq![Instr::Eq],
        Node::Ne(l, r) => spec_gen(*l) + spec_gen(*r) + seq![Instr::Ne],
        Node::Lt(l, r) => spec_gen(*l) + spec_gen(*r) + seq![Instr::Lt],
        Node::Le(l, r) => spec_gen(*l) + spec_gen(*r) + seq![Instr::Le],
    }
}

/// Emits the whole instruction sequence for the expression tree, consuming
/// it. A well-formed tree is the parser's only output, so no error path
/// exists here.
pub fn gen(node: Node) -> (code: Vec<Instr>)
    ensures
        code@ == spec_gen(node),
{
    let mut code: Vec<Instr> = Vec::new();
    gen_into(&node, &mut code);
    proof {
        assert(code@ =~= spec_gen(node));
    }
    code
}

/// Appends the code for `node` to `out`.
fn gen_into(node: &Node, out: &mut Vec<Instr>)
    ensures
        final(out)@ == old(out)@ + spec_gen(*node),
    decreases *node,
{
    match node {
        Node::Num(v) => {
            out.push(Instr::Push(*v));
            proof {
                assert(out@ =~= old(out)@ + spec_gen(*node));
            }
        },
        Node::Add(l, r) => {
            gen_into(l, out);
            gen_into(r, out);
            out.push(Instr::Add);
            proof {
                assert(out@ =~= old(out)@ + spec_gen(*node));
            }
        },
        Node::Sub(l, r) => {
            gen_into(l, out);
            gen_into(r, out);
            out.push(Instr::Sub);
            proof {
                assert(out@ =~= old(out)@ + spec_gen(*node));
            }
        },
        Node::Mul(l, r) => {
            gen_into(l, out);
            gen_into(r, out);
            out.push(Instr::Mul);
            proof {
                assert(out@ =~= old(out)@ + spec_gen(*node));
            }
        },
        Node::Div(l, r) => {
            gen_into(l, out);
            gen_into(r, out);
            out.push(Instr::Div);
            proof {
                assert(out@ =~= old(out)@ + spec_gen(*node));
            }
        },
        Node::Eq(l, r) => {
            gen_into(l, out);
            gen_into(r, out);
            out.push(Instr::Eq);
            proof {
                assert(out@ =~= old(out)@ + spec_gen(*node));
            }
        },
        Node::Ne(l, r) => {
            gen_into(l, out);
            gen_into(r, out);
            out.push(Instr::Ne);
            proof {
                assert(out@ =~= old(out)@ + spec_gen(*node));
            }
        },
        Node::Lt(l, r) => {
            gen_into(l, out);
            gen_into(r, out);
            out.push(Instr::Lt);
            proof {
                assert(out@ =~= old(out)@ + spec_gen(*node));
            }
        },
        Node::Le(l, r) => {
            gen_into(l, out);
            gen_into(r, out);
            out.push(Instr::Le);
            proof {
                assert(out@ =~= old(out)@ + spec_gen(*node));
            }
        },
    }
}

/// Law: an input that is a single numeric literal parses to the bare leaf,
/// and its code pushes exactly that value and performs no other operation.
pub proof fn lemma_single_literal(v: u32)
    ensures
        crate::parser::spec_expr(seq![TokenView::Int(v)], 0) == Ok::<(Node, int), ParseError>(
            (Node::Num(v), 1int),
        ),
        spec_gen(Node::Num(v)) == seq![Instr::Push(v)],
{
    let ts = seq![TokenView::Int(v)];
    assert(crate::parser::spec_primary(ts, 0) == Ok::<(Node, int), ParseError>(
        (Node::Num(v), 1int),
    ));
}

} // verus!
