//! Expressions: from tokens to postfix order, and from postfix order to a
//! value.
use crate::lexer::{token_views, TokenAndPos};
use crate::text::{decimal, push_decimal};
use crate::token::{Associativity, Token, TokenView};
use crate::value::{
    combine, compare, inversion, negation, value_error_text, Comparison, Operation, RBasicValue,
    ValueError, ValueErrorView, ValueView,
};
use std::collections::VecDeque;
use std::ops::{Neg, Not};
use vstd::hash_map::StringHashMap;
use vstd::prelude::*;
use vstd::string::StringExecFns;

verus! {

/// Why a run of tokens is no expression.
#[derive(Debug, Clone, Copy, PartialEq, Eq, Structural)]
pub enum ParseError {
    /// A parenthesis has no partner.
    MismatchedParenthesis,
    /// The token at `pos` is no value, operator or parenthesis.
    UnexpectedToken { pos: u32 },
}

/// The views of a sequence of tokens.
pub open spec fn tokens_view(tokens: Seq<Token>) -> Seq<TokenView> {
    tokens.map_values(|t: Token| t@)
}

/// The view of what `parse_expression` returns.
pub open spec fn parsed_view(r: Result<VecDeque<Token>, ParseError>) -> Result<
    Seq<TokenView>,
    ParseError,
> {
    match r {
        Ok(queue) => Ok(tokens_view(queue@)),
        Err(e) => Err(e),
    }
}

/// Where the expression that begins at `start` ends: at the first `THEN`, or
/// at the end of the tokens.
pub open spec fn expression_end(tokens: Seq<(u32, TokenView)>, start: int) -> int
    decreases tokens.len() - start,
{
    if start < 0 || start >= tokens.len() || tokens[start].1 is Then {
        start
    } else {
        expression_end(tokens, start + 1)
    }
}

/// Whether the operator `top` leaves the stack before `incoming` is pushed:
/// it binds tighter, or as tightly where `incoming` groups to the left.
pub open spec fn yields_to(top: TokenView, incoming: TokenView) -> bool {
    top.is_operator() && if incoming.associativity() is Left {
        incoming.precedence() <= top.precedence()
    } else {
        incoming.precedence() < top.precedence()
    }
}

/// The output and the stack after every operator on top of the stack that
/// yields to `incoming` has moved to the output.
pub open spec fn pop_yielding(out: Seq<TokenView>, ops: Seq<TokenView>, incoming: TokenView) -> (
    Seq<TokenView>,
    Seq<TokenView>,
)
    decreases ops.len(),
{
    if ops.len() > 0 && yields_to(ops.last(), incoming) {
        pop_yielding(out.push(ops.last()), ops.drop_last(), incoming)
    } else {
        (out, ops)
    }
}

/// The output and the stack after the operators above the topmost opening
/// parenthesis have moved to the output and the parenthesis is dropped;
/// `None` where the stack holds no opening parenthesis.
pub open spec fn pop_to_paren(out: Seq<TokenView>, ops: Seq<TokenView>) -> Option<
    (Seq<TokenView>, Seq<TokenView>),
>
    decreases ops.len(),
{
    if ops.len() == 0 {
        None
    } else if ops.last() is LParen {
        Some((out, ops.drop_last()))
    } else {
        pop_to_paren(out.push(ops.last()), ops.drop_last())
    }
}

/// The output after the whole stack has moved to it, topmost first; `None`
/// where the stack holds an opening parenthesis.
pub open spec fn pop_all(out: Seq<TokenView>, ops: Seq<TokenView>) -> Option<Seq<TokenView>>
    decreases ops.len(),
{
    if ops.len() == 0 {
        Some(out)
    } else if ops.last() is LParen {
        None
    } else {
        pop_all(out.push(ops.last()), ops.drop_last())
    }
}

/// The postfix order of the tokens from `i` up to `end`, given the output
/// `out` and the operator stack `ops` that the tokens before `i` left.
///
/// A value goes to the output. An operator first lets the operators that
/// yield to it leave the stack, then goes onto it. An opening parenthesis
/// goes onto the stack; a closing one empties it down to its partner. At the
/// end the stack is emptied into the output.
pub open spec fn shunt(
    tokens: Seq<(u32, TokenView)>,
    i: int,
    end: int,
    out: Seq<TokenView>,
    ops: Seq<TokenView>,
) -> Result<Seq<TokenView>, ParseError>
    decreases end - i,
{
    if i < 0 || i >= end || i >= tokens.len() {
        match pop_all(out, ops) {
            Some(queue) => Ok(queue),
            None => Err(ParseError::MismatchedParenthesis),
        }
    } else {
        let t = tokens[i].1;
        if t.is_value() {
            shunt(tokens, i + 1, end, out.push(t), ops)
        } else if t.is_operator() {
            let (o, p) = pop_yielding(out, ops, t);
            shunt(tokens, i + 1, end, o, p.push(t))
        } else if t is LParen {
            shunt(tokens, i + 1, end, out, ops.push(t))
        } else if t is RParen {
            match pop_to_paren(out, ops) {
                Some((o, p)) => shunt(tokens, i + 1, end, o, p),
                None => Err(ParseError::MismatchedParenthesis),
            }
        } else {
            Err(ParseError::UnexpectedToken { pos: tokens[i].0 })
        }
    }
}

/// The postfix order of the expression that begins at `start`.
pub open spec fn postfix(tokens: Seq<(u32, TokenView)>, start: int) -> Result<
    Seq<TokenView>,
    ParseError,
> {
    shunt(tokens, start, expression_end(tokens, start), Seq::empty(), Seq::empty())
}

/// The expression that begins inside the tokens ends inside them.
pub proof fn lemma_expression_end_bounds(tokens: Seq<(u32, TokenView)>, start: int)
    requires
        0 <= start <= tokens.len(),
    ensures
        start <= expression_end(tokens, start) <= tokens.len(),
        forall|i: int| start <= i < expression_end(tokens, start) ==> !(tokens[i].1 is Then),
        expression_end(tokens, start) < tokens.len() ==> tokens[expression_end(
            tokens,
            start,
        )].1 is Then,
    decreases tokens.len() - start,
{
    if start < tokens.len() && !(tokens[start].1 is Then) {
        lemma_expression_end_bounds(tokens, start + 1);
    }
}

/// The index of the first `THEN` from `start` on.
fn find_then(tokens: &Vec<TokenAndPos>, start: usize) -> (end: usize)
    ensures
        end == expression_end(token_views(tokens@), start as int),
        start <= end,
        start <= tokens@.len() ==> end <= tokens@.len(),
{
    let mut end: usize = start;
    while end < tokens.len() && !matches!(tokens[end].1, Token::Then)
        invariant
            start <= end,
            start <= tokens@.len() ==> end <= tokens@.len(),
            expression_end(token_views(tokens@), start as int) == expression_end(
                token_views(tokens@),
                end as int,
            ),
        decreases tokens@.len() - end,
    {
        end = end + 1;
    }
    end
}

/// Whether `top` yields to the operator `incoming`.
fn yields(top: &Token, incoming: &Token) -> (r: bool)
    requires
        incoming@.is_operator(),
    ensures
        r == yields_to(top@, incoming@),
{
    match (top.operator_precedence(), incoming.operator_precedence()) {
        (Ok(top_precedence), Ok(precedence)) => match incoming.operator_associavity() {
            Ok(Associativity::Left) => precedence <= top_precedence,
            _ => precedence < top_precedence,
        },
        _ => false,
    }
}

/// Moves the operators that yield to `incoming` from the stack to the
/// output.
fn move_yielding(out: &mut VecDeque<Token>, ops: &mut Vec<Token>, incoming: &Token)
    requires
        incoming@.is_operator(),
    ensures
        (tokens_view(final(out)@), tokens_view(final(ops)@)) == pop_yielding(
            tokens_view(old(out)@),
            tokens_view(old(ops)@),
            incoming@,
        ),
{
    while ops.len() > 0 && yields(&ops[ops.len() - 1], incoming)
        invariant
            incoming@.is_operator(),
            pop_yielding(tokens_view(out@), tokens_view(ops@), incoming@) == pop_yielding(
                tokens_view(old(out)@),
                tokens_view(old(ops)@),
                incoming@,
            ),
        decreases ops@.len(),
    {
        let ghost before_out = out@;
        let ghost before_ops = ops@;
        let top = ops.pop().unwrap();
        out.push_back(top);
        proof {
            assert(tokens_view(ops@) =~= tokens_view(before_ops).drop_last());
            assert(tokens_view(out@) =~= tokens_view(before_out).push(
                tokens_view(before_ops).last(),
            ));
        }
    }
}

/// Moves the operators above the topmost opening parenthesis to the output
/// and drops the parenthesis. Tells whether there was one.
fn move_to_paren(out: &mut VecDeque<Token>, ops: &mut Vec<Token>) -> (found: bool)
    ensures
        match pop_to_paren(tokens_view(old(out)@), tokens_view(old(ops)@)) {
            Some((o, p)) => found && tokens_view(final(out)@) == o && tokens_view(final(ops)@)
                == p,
            None => !found,
        },
{
    loop
        invariant
            pop_to_paren(tokens_view(out@), tokens_view(ops@)) == pop_to_paren(
                tokens_view(old(out)@),
                tokens_view(old(ops)@),
            ),
        decreases ops@.len(),
    {
        let ghost before_out = out@;
        let ghost before_ops = ops@;
        match ops.pop() {
            Some(Token::LParen) => {
                proof {
                    assert(tokens_view(ops@) =~= tokens_view(before_ops).drop_last());
                }
                return true;
            },
            Some(top) => {
                out.push_back(top);
                proof {
                    assert(tokens_view(ops@) =~= tokens_view(before_ops).drop_last());
                    assert(tokens_view(out@) =~= tokens_view(before_out).push(
                        tokens_view(before_ops).last(),
                    ));
                }
            },
            None => {
                return false;
            },
        }
    }
}

/// Moves the whole stack to the output. Tells whether it held no opening
/// parenthesis.
fn move_all(out: &mut VecDeque<Token>, ops: &mut Vec<Token>) -> (clean: bool)
    ensures
        match pop_all(tokens_view(old(out)@), tokens_view(old(ops)@)) {
            Some(queue) => clean && tokens_view(final(out)@) == queue,
            None => !clean,
        },
{
    loop
        invariant
            pop_all(tokens_view(out@), tokens_view(ops@)) == pop_all(
                tokens_view(old(out)@),
                tokens_view(old(ops)@),
            ),
        decreases ops@.len(),
    {
        let ghost before_out = out@;
        let ghost before_ops = ops@;
        match ops.pop() {
            Some(Token::LParen) => {
                return false;
            },
            Some(top) => {
                out.push_back(top);
                proof {
                    assert(tokens_view(ops@) =~= tokens_view(before_ops).drop_last());
                    assert(tokens_view(out@) =~= tokens_view(before_out).push(
                        tokens_view(before_ops).last(),
                    ));
                }
            },
            None => {
                return true;
            },
        }
    }
}

/// Brings the expression that begins at `cursor` into postfix order, and
/// moves `cursor` to its end: to the first `THEN`, or past the last token.
pub fn parse_expression(tokens: &Vec<TokenAndPos>, cursor: &mut usize) -> (r: Result<
    VecDeque<Token>,
    ParseError,
>)
    ensures
        *final(cursor) == expression_end(token_views(tokens@), *old(cursor) as int),
        parsed_view(r) == postfix(token_views(tokens@), *old(cursor) as int),
{
    let start = *cursor;
    let end = find_then(tokens, start);
    *cursor = end;
    let mut out: VecDeque<Token> = VecDeque::new();
    let mut ops: Vec<Token> = Vec::new();
    let ghost all = token_views(tokens@);
    let mut i: usize = start;
    proof {
        assert(tokens_view(out@) =~= Seq::empty());
        assert(tokens_view(ops@) =~= Seq::empty());
    }
    while i < end && i < tokens.len()
        invariant
            start <= i,
            start == *old(cursor),
            *cursor == end,
            end == expression_end(all, start as int),
            all == token_views(tokens@),
            shunt(all, i as int, end as int, tokens_view(out@), tokens_view(ops@)) == postfix(
                all,
                start as int,
            ),
        decreases end - i,
    {
        let token = &tokens[i].1;
        let ghost before_out = out@;
        let ghost before_ops = ops@;
        assert(all[i as int].1 == token@);
        if token.is_value() {
            out.push_back(token.clone());
            proof {
                assert(tokens_view(out@) =~= tokens_view(before_out).push(token@));
            }
        } else if token.is_operator() {
            move_yielding(&mut out, &mut ops, token);
            let ghost after_ops = ops@;
            ops.push(token.clone());
            proof {
                assert(tokens_view(ops@) =~= tokens_view(after_ops).push(token@));
            }
        } else if matches!(token, Token::LParen) {
            ops.push(Token::LParen);
            proof {
                assert(tokens_view(ops@) =~= tokens_view(before_ops).push(token@));
            }
        } else if matches!(token, Token::RParen) {
            if !move_to_paren(&mut out, &mut ops) {
                return Err(ParseError::MismatchedParenthesis);
            }
        } else {
            return Err(ParseError::UnexpectedToken { pos: tokens[i].0 });
        }
        i = i + 1;
    }
    if move_all(&mut out, &mut ops) {
        Ok(out)
    } else {
        Err(ParseError::MismatchedParenthesis)
    }
}

/// The variables of a running program, each with its value.
pub struct RBasicContext {
    variables: StringHashMap<RBasicValue>,
}

impl View for RBasicContext {
    type V = Map<Seq<char>, ValueView>;

    closed spec fn view(&self) -> Map<Seq<char>, ValueView> {
        self.variables@.map_values(|v: RBasicValue| v@)
    }
}

impl RBasicContext {
    /// The context in which no variable has a value.
    pub fn new() -> (r: RBasicContext)
        ensures
            r@ == Map::<Seq<char>, ValueView>::empty(),
    {
        let r = RBasicContext { variables: StringHashMap::new() };
        assert(r@ =~= Map::<Seq<char>, ValueView>::empty());
        r
    }

    /// The value of the variable `name`, if it has one.
    pub fn get(&self, name: &str) -> (r: Option<RBasicValue>)
        ensures
            match r {
                Some(v) => self@.contains_key(name@) && v@ == self@[name@],
                None => !self@.contains_key(name@),
            },
    {
        match self.variables.get(name) {
            Some(v) => Some(v.clone()),
            None => None,
        }
    }

    /// Gives the variable `name` the value `value`, whether or not it had
    /// one.
    pub fn set(&mut self, name: String, value: RBasicValue)
        ensures
            final(self)@ == old(self)@.insert(name@, value@),
    {
        self.variables.insert(name, value);
        assert(self@ =~= old(self)@.insert(name@, value@));
    }
}

/// Why an expression in postfix order has no value.
#[derive(Debug, PartialEq)]
pub enum EvalError {
    /// The variable has no value.
    UndefinedVariable { name: String },
    /// An operator found fewer operands than it takes.
    MissingOperand,
    /// An operator could not be applied to its operands.
    Value(ValueError),
    /// The queue holds a token that is no value and no operator.
    UnexpectedToken,
    /// The expression leaves no value, or more than one.
    NotOneValue,
}

/// What an `EvalError` is, with text as a sequence of characters.
pub enum EvalErrorView {
    UndefinedVariable { name: Seq<char> },
    MissingOperand,
    Value(ValueErrorView),
    UnexpectedToken,
    NotOneValue,
}

impl View for EvalError {
    type V = EvalErrorView;

    open spec fn view(&self) -> EvalErrorView {
        match self {
            EvalError::UndefinedVariable { name } => EvalErrorView::UndefinedVariable {
                name: name@,
            },
            EvalError::MissingOperand => EvalErrorView::MissingOperand,
            EvalError::Value(e) => EvalErrorView::Value(e@),
            EvalError::UnexpectedToken => EvalErrorView::UnexpectedToken,
            EvalError::NotOneValue => EvalErrorView::NotOneValue,
        }
    }
}

/// Why an expression has no value: it is none, or it has none.
#[derive(Debug, PartialEq)]
pub enum ExpressionError {
    Parse(ParseError),
    Eval(EvalError),
}

/// What an `ExpressionError` is.
pub enum ExpressionErrorView {
    Parse(ParseError),
    Eval(EvalErrorView),
}

impl View for ExpressionError {
    type V = ExpressionErrorView;

    open spec fn view(&self) -> ExpressionErrorView {
        match self {
            ExpressionError::Parse(e) => ExpressionErrorView::Parse(*e),
            ExpressionError::Eval(e) => ExpressionErrorView::Eval(e@),
        }
    }
}

/// The views of a stack of values.
pub open spec fn values_view(values: Seq<RBasicValue>) -> Seq<ValueView> {
    values.map_values(|v: RBasicValue| v@)
}

/// The view of what the evaluation of a queue returns.
pub open spec fn evaluated_view(r: Result<RBasicValue, EvalError>) -> Result<
    ValueView,
    EvalErrorView,
> {
    match r {
        Ok(v) => Ok(v@),
        Err(e) => Err(e@),
    }
}

/// The view of what the evaluation of an expression returns.
pub open spec fn expression_view(r: Result<RBasicValue, ExpressionError>) -> Result<
    ValueView,
    ExpressionErrorView,
> {
    match r {
        Ok(v) => Ok(v@),
        Err(e) => Err(e@),
    }
}

/// The comparison that a token stands for.
pub open spec fn comparison_of(t: TokenView) -> Comparison
    recommends
        t.is_comparison_operator(),
{
    match t {
        TokenView::Equals => Comparison::Equal,
        TokenView::NotEqual => Comparison::NotEqual,
        TokenView::LessThan => Comparison::Less,
        TokenView::GreaterThan => Comparison::Greater,
        TokenView::LessThanEqual => Comparison::LessOrEqual,
        _ => Comparison::GreaterOrEqual,
    }
}

/// The arithmetic operation that a token stands for.
pub open spec fn operation_of(t: TokenView) -> Operation
    recommends
        t.is_arithmetic_operator(),
{
    match t {
        TokenView::Plus => Operation::Add,
        TokenView::Minus => Operation::Subtract,
        TokenView::Multiply => Operation::Multiply,
        _ => Operation::Divide,
    }
}

/// What a binary operator makes of its left and its right operand.
pub open spec fn binary(t: TokenView, left: ValueView, right: ValueView) -> Result<
    ValueView,
    ValueErrorView,
>
    recommends
        t.is_binary_operator(),
{
    if t.is_comparison_operator() {
        match compare(comparison_of(t), left, right) {
            Ok(b) => Ok(ValueView::Bool(b)),
            Err(e) => Err(e),
        }
    } else {
        combine(operation_of(t), left, right)
    }
}

/// What a unary operator makes of its operand.
pub open spec fn unary(t: TokenView, operand: ValueView) -> Result<ValueView, ValueErrorView>
    recommends
        t.is_unary_operator(),
{
    if t is UMinus {
        negation(operand)
    } else {
        inversion(operand)
    }
}

/// The operand stack after one token of the queue.
///
/// A literal puts its value on the stack, a variable the value that it has.
/// A unary operator replaces the topmost value, a binary operator the two
/// topmost, of which the upper is its right operand.
pub open spec fn eval_token(
    stack: Seq<ValueView>,
    t: TokenView,
    env: Map<Seq<char>, ValueView>,
) -> Result<Seq<ValueView>, EvalErrorView> {
    match t {
        TokenView::Number(n) => Ok(stack.push(ValueView::Number(n))),
        TokenView::BString(s) => Ok(stack.push(ValueView::String(s))),
        TokenView::Variable(name) => if env.contains_key(name) {
            Ok(stack.push(env[name]))
        } else {
            Err(EvalErrorView::UndefinedVariable { name })
        },
        _ => if t.is_unary_operator() {
            if stack.len() < 1 {
                Err(EvalErrorView::MissingOperand)
            } else {
                match unary(t, stack.last()) {
                    Ok(v) => Ok(stack.drop_last().push(v)),
                    Err(e) => Err(EvalErrorView::Value(e)),
                }
            }
        } else if t.is_binary_operator() {
            if stack.len() < 2 {
                Err(EvalErrorView::MissingOperand)
            } else {
                match binary(t, stack[stack.len() - 2], stack.last()) {
                    Ok(v) => Ok(stack.drop_last().drop_last().push(v)),
                    Err(e) => Err(EvalErrorView::Value(e)),
                }
            }
        } else {
            Err(EvalErrorView::UnexpectedToken)
        },
    }
}

/// The value of the queue from its token `i` on, given the operand stack
/// that the tokens before `i` left: at the end, the one value on the stack.
pub open spec fn eval_from(
    queue: Seq<TokenView>,
    i: int,
    stack: Seq<ValueView>,
    env: Map<Seq<char>, ValueView>,
) -> Result<ValueView, EvalErrorView>
    decreases queue.len() - i,
{
    if i < 0 || i >= queue.len() {
        if stack.len() == 1 {
            Ok(stack[0])
        } else {
            Err(EvalErrorView::NotOneValue)
        }
    } else {
        match eval_token(stack, queue[i], env) {
            Ok(next) => eval_from(queue, i + 1, next, env),
            Err(e) => Err(e),
        }
    }
}

/// The value of an expression in postfix order.
pub open spec fn eval(queue: Seq<TokenView>, env: Map<Seq<char>, ValueView>) -> Result<
    ValueView,
    EvalErrorView,
> {
    eval_from(queue, 0, Seq::empty(), env)
}

/// The value of the expression that begins at `start`.
pub open spec fn value_of(
    tokens: Seq<(u32, TokenView)>,
    start: int,
    env: Map<Seq<char>, ValueView>,
) -> Result<ValueView, ExpressionErrorView> {
    match postfix(tokens, start) {
        Ok(queue) => match eval(queue, env) {
            Ok(v) => Ok(v),
            Err(e) => Err(ExpressionErrorView::Eval(e)),
        },
        Err(e) => Err(ExpressionErrorView::Parse(e)),
    }
}

/// Applies a unary operator.
fn apply_unary(token: &Token, operand: RBasicValue) -> (r: Result<RBasicValue, ValueError>)
    requires
        token@.is_unary_operator(),
    ensures
        crate::value::outcome_view(r) == unary(token@, operand@),
{
    match token {
        Token::UMinus => operand.neg(),
        _ => operand.not(),
    }
}

/// Applies a binary operator to its left and its right operand.
fn apply_binary(token: &Token, left: RBasicValue, right: RBasicValue) -> (r: Result<
    RBasicValue,
    ValueError,
>)
    requires
        token@.is_binary_operator(),
    ensures
        crate::value::outcome_view(r) == binary(token@, left@, right@),
{
    let verdict = match token {
        Token::Plus => {
            return left + right;
        },
        Token::Minus => {
            return left - right;
        },
        Token::Multiply => {
            return left * right;
        },
        Token::Divide => {
            return left / right;
        },
        Token::Equals => left.eq(&right),
        Token::NotEqual => left.neq(&right),
        Token::LessThan => left.lt(&right),
        Token::GreaterThan => left.gt(&right),
        Token::LessThanEqual => left.lteq(&right),
        _ => left.gteq(&right),
    };
    match verdict {
        Ok(b) => Ok(RBasicValue::Bool(b)),
        Err(e) => Err(e),
    }
}

/// Evaluates an expression in postfix order.
///
/// The result is what `eval` says: the one value that the queue leaves on
/// the operand stack, or the first error on the way.
pub fn evaluate_postfix(queue: &VecDeque<Token>, context: &RBasicContext) -> (r: Result<
    RBasicValue,
    EvalError,
>)
    ensures
        evaluated_view(r) == eval(tokens_view(queue@), context@),
{
    let mut stack: Vec<RBasicValue> = Vec::new();
    let ghost q = tokens_view(queue@);
    let ghost env = context@;
    let mut i: usize = 0;
    proof {
        assert(values_view(stack@) =~= Seq::empty());
    }
    while i < queue.len()
        invariant
            q == tokens_view(queue@),
            env == context@,
            eval_from(q, i as int, values_view(stack@), env) == eval(q, env),
        decreases queue@.len() - i,
    {
        let token = &queue[i];
        let ghost before = stack@;
        assert(q[i as int] == token@);
        match token {
            Token::Number(number) => {
                stack.push(RBasicValue::Number(*number));
                proof {
                    assert(values_view(stack@) =~= values_view(before).push(
                        ValueView::Number(*number),
                    ));
                }
            },
            Token::BString(text) => {
                stack.push(RBasicValue::String(text.clone()));
                proof {
                    assert(values_view(stack@) =~= values_view(before).push(
                        ValueView::String(text@),
                    ));
                }
            },
            Token::Variable(name) => match context.get(name.as_str()) {
                Some(value) => {
                    stack.push(value);
                    proof {
                        assert(values_view(stack@) =~= values_view(before).push(env[name@]));
                    }
                },
                None => {
                    return Err(EvalError::UndefinedVariable { name: name.clone() });
                },
            },
            _ => if token.is_unary_operator() {
                match stack.pop() {
                    Some(operand) => {
                        let ghost rest = stack@;
                        assert(values_view(before).last() == operand@);
                        assert(values_view(rest) =~= values_view(before).drop_last());
                        match apply_unary(token, operand) {
                            Ok(value) => {
                                stack.push(value);
                                proof {
                                    assert(values_view(stack@) =~= values_view(rest).push(
                                        value@,
                                    ));
                                }
                            },
                            Err(e) => {
                                return Err(EvalError::Value(e));
                            },
                        }
                    },
                    None => {
                        return Err(EvalError::MissingOperand);
                    },
                }
            } else if token.is_binary_operator() {
                if stack.len() < 2 {
                    return Err(EvalError::MissingOperand);
                }
                let right = stack.pop().unwrap();
                let left = stack.pop().unwrap();
                let ghost rest = stack@;
                assert(values_view(before).last() == right@);
                assert(values_view(before)[before.len() - 2] == left@);
                assert(values_view(rest) =~= values_view(before).drop_last().drop_last());
                match apply_binary(token, left, right) {
                    Ok(value) => {
                        stack.push(value);
                        proof {
                            assert(values_view(stack@) =~= values_view(rest).push(value@));
                        }
                    },
                    Err(e) => {
                        return Err(EvalError::Value(e));
                    },
                }
            } else {
                return Err(EvalError::UnexpectedToken);
            },
        }
        i = i + 1;
    }
    if stack.len() == 1 {
        let value = stack.pop().unwrap();
        assert(values_view(stack@.push(value))[0] == value@);
        Ok(value)
    } else {
        Err(EvalError::NotOneValue)
    }
}

/// Evaluates the expression that begins at `cursor`, and moves `cursor` to
/// its end: to the first `THEN`, or past the last token.
pub fn parse_and_eval_expression(
    tokens: &Vec<TokenAndPos>,
    cursor: &mut usize,
    context: &RBasicContext,
) -> (r: Result<RBasicValue, ExpressionError>)
    ensures
        *final(cursor) == expression_end(token_views(tokens@), *old(cursor) as int),
        expression_view(r) == value_of(token_views(tokens@), *old(cursor) as int, context@),
{
    match parse_expression(tokens, cursor) {
        Ok(queue) => match evaluate_postfix(&queue, context) {
            Ok(value) => Ok(value),
            Err(e) => Err(ExpressionError::Eval(e)),
        },
        Err(e) => Err(ExpressionError::Parse(e)),
    }
}

/// The message of a `ParseError`.
pub open spec fn parse_error_text(e: ParseError) -> Seq<char> {
    match e {
        ParseError::MismatchedParenthesis => "Mismatched parenthesis in expression"@,
        ParseError::UnexpectedToken { pos } => "Unexpected token in expression at "@ + decimal(
            pos as nat,
        ),
    }
}

/// The message of an `EvalError`.
pub open spec fn eval_error_text(e: EvalErrorView) -> Seq<char> {
    match e {
        EvalErrorView::UndefinedVariable { name } => "Invalid variable reference "@ + name
            + " in expression"@,
        EvalErrorView::MissingOperand => "Operator requires an operand!"@,
        EvalErrorView::Value(e) => value_error_text(e),
        EvalErrorView::UnexpectedToken => "Invalid expression!"@,
        EvalErrorView::NotOneValue => "Invalid expression!"@,
    }
}

/// The message of an `ExpressionError`.
pub open spec fn expression_error_text(e: ExpressionErrorView) -> Seq<char> {
    match e {
        ExpressionErrorView::Parse(e) => parse_error_text(e),
        ExpressionErrorView::Eval(e) => eval_error_text(e),
    }
}

impl ParseError {
    /// The message of the error.
    pub fn message(&self) -> (r: String)
        ensures
            r@ == parse_error_text(*self),
    {
        match self {
            ParseError::MismatchedParenthesis => "Mismatched parenthesis in expression".to_owned(),
            ParseError::UnexpectedToken { pos } => {
                let mut out = "Unexpected token in expression at ".to_owned();
                push_decimal(&mut out, *pos as u64);
                out
            },
        }
    }
}

impl EvalError {
    /// The message of the error.
    pub fn message(&self) -> (r: String)
        ensures
            r@ == eval_error_text(self@),
    {
        match self {
            EvalError::UndefinedVariable { name } => {
                let mut out = "Invalid variable reference ".to_owned();
                out.append(name.as_str());
                out.append(" in expression");
                out
            },
            EvalError::MissingOperand => "Operator requires an operand!".to_owned(),
            EvalError::Value(e) => e.message(),
            EvalError::UnexpectedToken => "Invalid expression!".to_owned(),
            EvalError::NotOneValue => "Invalid expression!".to_owned(),
        }
    }
}

impl ExpressionError {
    /// The message of the error.
    pub fn message(&self) -> (r: String)
        ensures
            r@ == expression_error_text(self@),
    {
        match self {
            ExpressionError::Parse(e) => e.message(),
            ExpressionError::Eval(e) => e.message(),
        }
    }
}

} // verus!
