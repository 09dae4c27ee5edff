//! The grammar of expressions, and the agreement of the postfix engine with
//! it: an expression written by the rules of precedence is brought into the
//! postfix order of its tree, and evaluates to the value of its tree.
use crate::expression::{
    binary, eval, eval_from, expression_end, pop_all, pop_to_paren, pop_yielding, postfix, shunt,
    unary, value_of, yields_to, EvalErrorView, ExpressionErrorView, ParseError,
};
use crate::token::TokenView;
use crate::value::ValueView;
use vstd::prelude::*;

verus! {

/// The tree of an expression.
pub enum Expr {
    /// A literal or a variable.
    Value(TokenView),
    /// A unary operator and its operand.
    Unary(TokenView, Box<Expr>),
    /// A binary operator, its left and its right operand.
    Binary(TokenView, Box<Expr>, Box<Expr>),
    /// An expression in parentheses.
    Paren(Box<Expr>),
}

/// The tokens of an expression as it is written: a unary operator before
/// its operand, a binary operator between its operands.
pub open spec fn infix(e: Expr) -> Seq<TokenView>
    decreases e,
{
    match e {
        Expr::Value(t) => seq![t],
        Expr::Unary(op, a) => seq![op] + infix(*a),
        Expr::Binary(op, a, b) => infix(*a) + seq![op] + infix(*b),
        Expr::Paren(a) => seq![TokenView::LParen] + infix(*a) + seq![TokenView::RParen],
    }
}

/// The tokens of an expression in postfix order: every operator behind its
/// operands, and no parentheses.
pub open spec fn post(e: Expr) -> Seq<TokenView>
    decreases e,
{
    match e {
        Expr::Value(t) => seq![t],
        Expr::Unary(op, a) => post(*a).push(op),
        Expr::Binary(op, a, b) => (post(*a) + post(*b)).push(op),
        Expr::Paren(a) => post(*a),
    }
}

/// How tightly an expression holds together: the precedence of its
/// outermost operator, and more than any precedence where it has none.
pub open spec fn level(e: Expr) -> int {
    match e {
        Expr::Value(_) => 13,
        Expr::Unary(op, _) => op.precedence() as int,
        Expr::Binary(op, _, _) => op.precedence() as int,
        Expr::Paren(_) => 13,
    }
}

/// Whether the tree is the one that the rules of precedence give to its
/// tokens: the operand of a unary operator holds together at least as
/// tightly as the operator, the left operand of a binary operator at least
/// as tightly as the operator, and the right operand more tightly.
pub open spec fn by_precedence(e: Expr) -> bool
    decreases e,
{
    match e {
        Expr::Value(t) => t.is_value(),
        Expr::Unary(op, a) => op.is_unary_operator() && by_precedence(*a) && level(*a)
            >= op.precedence(),
        Expr::Binary(op, a, b) => op.is_binary_operator() && by_precedence(*a) && by_precedence(
            *b,
        ) && level(*a) >= op.precedence() && level(*b) > op.precedence(),
        Expr::Paren(a) => by_precedence(*a),
    }
}

/// The value of a literal or a variable.
pub open spec fn operand(t: TokenView, env: Map<Seq<char>, ValueView>) -> Result<
    ValueView,
    EvalErrorView,
> {
    match t {
        TokenView::Number(n) => Ok(ValueView::Number(n)),
        TokenView::BString(s) => Ok(ValueView::String(s)),
        TokenView::Variable(name) => if env.contains_key(name) {
            Ok(env[name])
        } else {
            Err(EvalErrorView::UndefinedVariable { name })
        },
        _ => Err(EvalErrorView::UnexpectedToken),
    }
}

/// The value of a tree: that of its operator applied to the values of its
/// operands, the left one first.
pub open spec fn meaning(e: Expr, env: Map<Seq<char>, ValueView>) -> Result<
    ValueView,
    EvalErrorView,
>
    decreases e,
{
    match e {
        Expr::Value(t) => operand(t, env),
        Expr::Unary(op, a) => match meaning(*a, env) {
            Ok(v) => match unary(op, v) {
                Ok(r) => Ok(r),
                Err(e) => Err(EvalErrorView::Value(e)),
            },
            Err(e) => Err(e),
        },
        Expr::Binary(op, a, b) => match meaning(*a, env) {
            Ok(v) => match meaning(*b, env) {
                Ok(w) => match binary(op, v, w) {
                    Ok(r) => Ok(r),
                    Err(e) => Err(EvalErrorView::Value(e)),
                },
                Err(e) => Err(e),
            },
            Err(e) => Err(e),
        },
        Expr::Paren(a) => meaning(*a, env),
    }
}

/// Whether the queue holds the tokens `w` from its index `i` on.
pub open spec fn holds_at(q: Seq<TokenView>, i: int, w: Seq<TokenView>) -> bool {
    &&& 0 <= i
    &&& i + w.len() <= q.len()
    &&& forall|k: int| 0 <= k < w.len() ==> q[i + k] == #[trigger] w[k]
}

/// Evaluating the postfix order of a tree inside a queue puts the value of
/// the tree on the operand stack, or fails as the tree does.
pub proof fn lemma_eval_post_at(
    q: Seq<TokenView>,
    i: int,
    stack: Seq<ValueView>,
    env: Map<Seq<char>, ValueView>,
    e: Expr,
)
    requires
        by_precedence(e),
        holds_at(q, i, post(e)),
    ensures
        eval_from(q, i, stack, env) == match meaning(e, env) {
            Ok(v) => eval_from(q, i + post(e).len(), stack.push(v), env),
            Err(err) => Err(err),
        },
    decreases e,
{
    match e {
        Expr::Value(t) => {
            assert(q[i + 0] == post(e)[0]);
        },
        Expr::Unary(op, a) => {
            let n = post(*a).len() as int;
            assert(holds_at(q, i, post(*a))) by {
                assert forall|k: int| 0 <= k < n implies q[i + k] == #[trigger] post(*a)[k] by {
                    assert(post(e)[k] == post(*a)[k]);
                }
            }
            lemma_eval_post_at(q, i, stack, env, *a);
            assert(q[i + n] == post(e)[n]);
            match meaning(*a, env) {
                Ok(v) => {
                    assert(stack.push(v).drop_last() =~= stack);
                },
                Err(_) => {},
            }
        },
        Expr::Binary(op, a, b) => {
            let n = post(*a).len() as int;
            let m = post(*b).len() as int;
            assert(holds_at(q, i, post(*a))) by {
                assert forall|k: int| 0 <= k < n implies q[i + k] == #[trigger] post(*a)[k] by {
                    assert(post(e)[k] == post(*a)[k]);
                }
            }
            assert(holds_at(q, i + n, post(*b))) by {
                assert forall|k: int| 0 <= k < m implies q[i + n + k] == #[trigger] post(
                    *b,
                )[k] by {
                    assert(post(e)[n + k] == post(*b)[k]);
                }
            }
            lemma_eval_post_at(q, i, stack, env, *a);
            assert(q[i + (n + m)] == post(e)[n + m]);
            match meaning(*a, env) {
                Ok(v) => {
                    lemma_eval_post_at(q, i + n, stack.push(v), env, *b);
                    match meaning(*b, env) {
                        Ok(w) => {
                            let both = stack.push(v).push(w);
                            assert(both.drop_last().drop_last() =~= stack);
                            assert(both[both.len() - 2] == v);
                        },
                        Err(_) => {},
                    }
                },
                Err(_) => {},
            }
        },
        Expr::Paren(a) => {
            lemma_eval_post_at(q, i, stack, env, *a);
        },
    }
}

/// The postfix order of a tree evaluates to the value of the tree.
pub proof fn lemma_eval_post(e: Expr, env: Map<Seq<char>, ValueView>)
    requires
        by_precedence(e),
    ensures
        eval(post(e), env) == meaning(e, env),
{
    lemma_eval_post_at(post(e), 0, Seq::empty(), env, e);
}

/// What the tokens of a tree have put into the output when the last of
/// them is read.
pub open spec fn emitted(e: Expr) -> Seq<TokenView>
    decreases e,
{
    match e {
        Expr::Value(t) => seq![t],
        Expr::Unary(_, a) => emitted(*a),
        Expr::Binary(_, a, b) => post(*a) + emitted(*b),
        Expr::Paren(a) => post(*a),
    }
}

/// The operators of a tree that wait on the stack when the last of its
/// tokens is read, the lowest first.
pub open spec fn pending(e: Expr) -> Seq<TokenView>
    decreases e,
{
    match e {
        Expr::Value(_) => Seq::empty(),
        Expr::Unary(op, a) => seq![op] + pending(*a),
        Expr::Binary(op, _, b) => seq![op] + pending(*b),
        Expr::Paren(_) => Seq::empty(),
    }
}

/// The output after the operators `ops` have moved to it, the topmost
/// first.
pub open spec fn flushed(out: Seq<TokenView>, ops: Seq<TokenView>) -> Seq<TokenView>
    decreases ops.len(),
{
    if ops.len() == 0 {
        out
    } else {
        flushed(out.push(ops.last()), ops.drop_last())
    }
}

/// Whether the stack keeps what it holds while an expression of the level
/// `lvl` is read: its top yields to no operator of such an expression.
pub open spec fn shielded(ops: Seq<TokenView>, lvl: int) -> bool {
    ops.len() == 0 || !ops.last().is_operator() || ops.last().precedence() < lvl || lvl > 10
}

/// Whether the tokens from the index `i` on are `w`.
pub open spec fn written_at(tokens: Seq<(u32, TokenView)>, i: int, w: Seq<TokenView>) -> bool {
    &&& 0 <= i
    &&& i + w.len() <= tokens.len()
    &&& forall|k: int| 0 <= k < w.len() ==> tokens[i + k].1 == #[trigger] w[k]
}

proof fn lemma_flushed_bottom(out: Seq<TokenView>, op: TokenView, ops: Seq<TokenView>)
    ensures
        flushed(out, seq![op] + ops) == flushed(out, ops).push(op),
    decreases ops.len(),
{
    let all = seq![op] + ops;
    if ops.len() == 0 {
        assert(all.drop_last() =~= Seq::<TokenView>::empty());
        assert(all.last() == op);
        assert(flushed(out.push(op), all.drop_last()) == out.push(op));
    } else {
        assert(all.drop_last() =~= seq![op] + ops.drop_last());
        assert(all.last() == ops.last());
        lemma_flushed_bottom(out.push(ops.last()), op, ops.drop_last());
    }
}

/// When the waiting operators of a tree have moved to the output, the
/// output holds the postfix order of the tree.
proof fn lemma_flushed_tree(out: Seq<TokenView>, e: Expr)
    ensures
        flushed(out + emitted(e), pending(e)) == out + post(e),
    decreases e,
{
    match e {
        Expr::Value(t) => {},
        Expr::Unary(op, a) => {
            lemma_flushed_bottom(out + emitted(*a), op, pending(*a));
            lemma_flushed_tree(out, *a);
            assert((out + post(*a)).push(op) =~= out + post(e));
        },
        Expr::Binary(op, a, b) => {
            assert(out + emitted(e) =~= (out + post(*a)) + emitted(*b));
            lemma_flushed_bottom(out + emitted(e), op, pending(*b));
            lemma_flushed_tree(out + post(*a), *b);
            assert(((out + post(*a)) + post(*b)).push(op) =~= out + post(e));
        },
        Expr::Paren(a) => {},
    }
}

/// The waiting operators of a tree are operators that bind at least as
/// tightly as the tree holds together.
proof fn lemma_pending_operators(e: Expr)
    requires
        by_precedence(e),
    ensures
        forall|k: int|
            0 <= k < pending(e).len() ==> (#[trigger] pending(e)[k]).is_operator() && pending(
                e,
            )[k].precedence() >= level(e),
    decreases e,
{
    match e {
        Expr::Value(_) => {},
        Expr::Unary(op, a) => {
            lemma_pending_operators(*a);
            assert forall|k: int| 0 <= k < pending(e).len() implies (#[trigger] pending(
                e,
            )[k]).is_operator() && pending(e)[k].precedence() >= level(e) by {
                if k > 0 {
                    assert(pending(e)[k] == pending(*a)[k - 1]);
                }
            }
        },
        Expr::Binary(op, a, b) => {
            lemma_pending_operators(*b);
            assert forall|k: int| 0 <= k < pending(e).len() implies (#[trigger] pending(
                e,
            )[k]).is_operator() && pending(e)[k].precedence() >= level(e) by {
                if k > 0 {
                    assert(pending(e)[k] == pending(*b)[k - 1]);
                }
            }
        },
        Expr::Paren(_) => {},
    }
}

/// Operators on top of the stack that all yield to `incoming` leave it
/// together, down to the first that does not.
proof fn lemma_pop_yielding_run(
    out: Seq<TokenView>,
    ops: Seq<TokenView>,
    run: Seq<TokenView>,
    incoming: TokenView,
)
    requires
        forall|k: int| 0 <= k < run.len() ==> yields_to(#[trigger] run[k], incoming),
        ops.len() == 0 || !yields_to(ops.last(), incoming),
    ensures
        pop_yielding(out, ops + run, incoming) == (flushed(out, run), ops),
    decreases run.len(),
{
    if run.len() == 0 {
        assert(ops + run =~= ops);
    } else {
        let all = ops + run;
        assert(all.last() == run[run.len() - 1]);
        assert(all.drop_last() =~= ops + run.drop_last());
        lemma_pop_yielding_run(out.push(run.last()), ops, run.drop_last(), incoming);
    }
}

/// A closing parenthesis moves the operators above its partner to the
/// output.
proof fn lemma_pop_to_paren_run(out: Seq<TokenView>, ops: Seq<TokenView>, run: Seq<TokenView>)
    requires
        forall|k: int| 0 <= k < run.len() ==> (#[trigger] run[k]).is_operator(),
    ensures
        pop_to_paren(out, ops.push(TokenView::LParen) + run) == Some((flushed(out, run), ops)),
    decreases run.len(),
{
    let all = ops.push(TokenView::LParen) + run;
    if run.len() == 0 {
        assert(all =~= ops.push(TokenView::LParen));
        assert(all.drop_last() =~= ops);
    } else {
        assert(all.last() == run[run.len() - 1]);
        assert(all.drop_last() =~= ops.push(TokenView::LParen) + run.drop_last());
        lemma_pop_to_paren_run(out.push(run.last()), ops, run.drop_last());
    }
}

/// At the end the operators that wait move to the output.
proof fn lemma_pop_all_run(out: Seq<TokenView>, run: Seq<TokenView>)
    requires
        forall|k: int| 0 <= k < run.len() ==> (#[trigger] run[k]).is_operator(),
    ensures
        pop_all(out, run) == Some(flushed(out, run)),
    decreases run.len(),
{
    if run.len() > 0 {
        assert(run.last() == run[run.len() - 1]);
        lemma_pop_all_run(out.push(run.last()), run.drop_last());
    }
}

/// Reading the tokens of a tree puts `emitted` into the output and
/// `pending` onto the stack, and leaves alone what the stack held.
proof fn lemma_shunt_tree(
    tokens: Seq<(u32, TokenView)>,
    i: int,
    end: int,
    out: Seq<TokenView>,
    ops: Seq<TokenView>,
    e: Expr,
)
    requires
        by_precedence(e),
        written_at(tokens, i, infix(e)),
        i + infix(e).len() <= end,
        shielded(ops, level(e)),
    ensures
        shunt(tokens, i, end, out, ops) == shunt(
            tokens,
            i + infix(e).len(),
            end,
            out + emitted(e),
            ops + pending(e),
        ),
    decreases e,
{
    match e {
        Expr::Value(t) => {
            assert(tokens[i + 0].1 == infix(e)[0]);
            assert(out + emitted(e) =~= out.push(t));
            assert(ops + pending(e) =~= ops);
        },
        Expr::Unary(op, a) => {
            let na = infix(*a).len() as int;
            assert(tokens[i + 0].1 == infix(e)[0]);
            assert(pop_yielding(out, ops, op) == (out, ops));
            assert(written_at(tokens, i + 1, infix(*a))) by {
                assert forall|k: int| 0 <= k < na implies tokens[i + 1 + k].1
                    == #[trigger] infix(*a)[k] by {
                    assert(infix(e)[k + 1] == infix(*a)[k]);
                }
            }
            lemma_shunt_tree(tokens, i + 1, end, out, ops.push(op), *a);
            assert(ops.push(op) + pending(*a) =~= ops + pending(e));
        },
        Expr::Binary(op, a, b) => {
            let na = infix(*a).len() as int;
            let nb = infix(*b).len() as int;
            assert(written_at(tokens, i, infix(*a))) by {
                assert forall|k: int| 0 <= k < na implies tokens[i + k].1 == #[trigger] infix(
                    *a,
                )[k] by {
                    assert(infix(e)[k] == infix(*a)[k]);
                }
            }
            lemma_shunt_tree(tokens, i, end, out, ops, *a);
            assert(tokens[i + na].1 == infix(e)[na]);
            lemma_pending_operators(*a);
            lemma_pop_yielding_run(out + emitted(*a), ops, pending(*a), op);
            lemma_flushed_tree(out, *a);
            assert(written_at(tokens, i + na + 1, infix(*b))) by {
                assert forall|k: int| 0 <= k < nb implies tokens[i + na + 1 + k].1
                    == #[trigger] infix(*b)[k] by {
                    assert(infix(e)[na + 1 + k] == infix(*b)[k]);
                }
            }
            lemma_shunt_tree(tokens, i + na + 1, end, out + post(*a), ops.push(op), *b);
            assert((out + post(*a)) + emitted(*b) =~= out + emitted(e));
            assert(ops.push(op) + pending(*b) =~= ops + pending(e));
        },
        Expr::Paren(a) => {
            let na = infix(*a).len() as int;
            assert(tokens[i + 0].1 == infix(e)[0]);
            assert(written_at(tokens, i + 1, infix(*a))) by {
                assert forall|k: int| 0 <= k < na implies tokens[i + 1 + k].1
                    == #[trigger] infix(*a)[k] by {
                    assert(infix(e)[k + 1] == infix(*a)[k]);
                }
            }
            lemma_shunt_tree(tokens, i + 1, end, out, ops.push(TokenView::LParen), *a);
            assert(tokens[i + (na + 1)].1 == infix(e)[na + 1]);
            lemma_pending_operators(*a);
            lemma_pop_to_paren_run(out + emitted(*a), ops, pending(*a));
            lemma_flushed_tree(out, *a);
            assert(ops + pending(e) =~= ops);
        },
    }
}

/// No token of a tree is `THEN`.
proof fn lemma_infix_tokens(e: Expr)
    requires
        by_precedence(e),
    ensures
        forall|k: int| 0 <= k < infix(e).len() ==> !(#[trigger] infix(e)[k] is Then),
    decreases e,
{
    match e {
        Expr::Value(_) => {},
        Expr::Unary(op, a) => {
            lemma_infix_tokens(*a);
            assert forall|k: int| 0 <= k < infix(e).len() implies !(#[trigger] infix(
                e,
            )[k] is Then) by {
                if k > 0 {
                    assert(infix(e)[k] == infix(*a)[k - 1]);
                }
            }
        },
        Expr::Binary(op, a, b) => {
            lemma_infix_tokens(*a);
            lemma_infix_tokens(*b);
            let na = infix(*a).len() as int;
            assert forall|k: int| 0 <= k < infix(e).len() implies !(#[trigger] infix(
                e,
            )[k] is Then) by {
                if k < na {
                    assert(infix(e)[k] == infix(*a)[k]);
                } else if k > na {
                    assert(infix(e)[k] == infix(*b)[k - na - 1]);
                }
            }
        },
        Expr::Paren(a) => {
            lemma_infix_tokens(*a);
            let na = infix(*a).len() as int;
            assert forall|k: int| 0 <= k < infix(e).len() implies !(#[trigger] infix(
                e,
            )[k] is Then) by {
                if 0 < k <= na {
                    assert(infix(e)[k] == infix(*a)[k - 1]);
                }
            }
        },
    }
}

/// An expression ends where the first `THEN` stands, or the tokens end.
proof fn lemma_expression_end_at(tokens: Seq<(u32, TokenView)>, start: int, end: int)
    requires
        0 <= start <= end <= tokens.len(),
        forall|k: int| start <= k < end ==> !(tokens[k].1 is Then),
        end == tokens.len() || tokens[end].1 is Then,
    ensures
        expression_end(tokens, start) == end,
    decreases end - start,
{
    if start < end {
        lemma_expression_end_at(tokens, start + 1, end);
    }
}

/// An expression that is written by the rules of precedence, and runs to
/// the end of the tokens or to a `THEN`, is brought into the postfix order
/// of its tree.
pub proof fn lemma_postfix_of_tree(tokens: Seq<(u32, TokenView)>, start: int, e: Expr)
    requires
        by_precedence(e),
        written_at(tokens, start, infix(e)),
        start + infix(e).len() == tokens.len() || tokens[start + infix(e).len()].1 is Then,
    ensures
        postfix(tokens, start) == Ok::<Seq<TokenView>, ParseError>(post(e)),
{
    let n = infix(e).len() as int;
    lemma_infix_tokens(e);
    assert forall|k: int| start <= k < start + n implies !(tokens[k].1 is Then) by {
        assert(tokens[start + (k - start)].1 == infix(e)[k - start]);
    }
    lemma_expression_end_at(tokens, start, start + n);
    lemma_shunt_tree(tokens, start, start + n, Seq::empty(), Seq::empty(), e);
    lemma_pending_operators(e);
    let none = Seq::<TokenView>::empty();
    lemma_pop_all_run(none + emitted(e), none + pending(e));
    assert(none + pending(e) =~= pending(e));
    lemma_flushed_tree(none, e);
    assert(none + post(e) =~= post(e));
}

/// Evaluation goes by the rules of precedence: an expression that is
/// written by them, and runs to the end of the tokens or to a `THEN`, has
/// the value of its tree, and fails as its tree does.
pub proof fn lemma_value_of_tree(
    tokens: Seq<(u32, TokenView)>,
    start: int,
    e: Expr,
    env: Map<Seq<char>, ValueView>,
)
    requires
        by_precedence(e),
        written_at(tokens, start, infix(e)),
        start + infix(e).len() == tokens.len() || tokens[start + infix(e).len()].1 is Then,
    ensures
        value_of(tokens, start, env) == match meaning(e, env) {
            Ok(v) => Ok::<ValueView, ExpressionErrorView>(v),
            Err(err) => Err::<ValueView, ExpressionErrorView>(ExpressionErrorView::Eval(err)),
        },
{
    lemma_postfix_of_tree(tokens, start, e);
    lemma_eval_post(e, env);
}

} // verus!
