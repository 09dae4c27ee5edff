//! The statement interpreter: one line at a time, in ascending order of the
//! line numbers, unless a statement jumps.
//!
//! The interpreter itself reads and writes nothing. [`Interpreter::step`]
//! takes the line of input that an `INPUT` needs and hands back the line
//! that a `PRINT` writes, so that the caller decides where they come from
//! and go to. [`evaluate`] runs a whole program on lines of input given
//! beforehand, for a bounded number of steps.
//!
//! `INPUT` gives its variable the line without the whitespace at its end,
//! and overwrites a value that the variable had, as `LET` does.
use crate::expression::{
    expression_end, expression_error_text, parse_and_eval_expression, value_of, ExpressionError,
    ExpressionErrorView, RBasicContext,
};
use crate::lexer::{token_views, LineNumber, LineOfCode, LineView, TokenAndPos};
use crate::program::{
    distinct_numbers, lemma_load_order_independent, lemma_position_sound, lines_view, loaded,
    position, Program,
};
use crate::text::{
    chars_of, decimal, is_whitespace, push_decimal, push_signed_decimal, signed_decimal,
    whitespace,
};
use crate::token::{Token, TokenView};
use crate::value::{RBasicValue, ValueView};
use vstd::prelude::*;
use vstd::string::{StrSliceExecFns, StringExecFns};

verus! {

/// What went wrong in a statement.
#[derive(Debug, PartialEq)]
pub enum Cause {
    /// `GOTO` names a line that the program does not have.
    GotoTarget,
    /// `GOTO` is followed by something that is no number.
    GotoNotNumber,
    /// `GOTO` is followed by nothing.
    GotoMissing,
    /// The expression of a `LET` has no value.
    LetExpression(ExpressionError),
    /// `LET` is not followed by a variable, `=` and an expression.
    LetSyntax,
    /// The expression of a `PRINT` has no value.
    Print,
    /// `INPUT` is not followed by a variable.
    InputMissing,
    /// `INPUT` found the input at its end.
    InputExhausted,
    /// `IF` is not followed by a condition with a truth value, `THEN` and a
    /// number.
    IfSyntax,
    /// `IF` names a line that the program does not have.
    IfTarget,
    /// The line begins with something that is no statement.
    Syntax,
    /// The run was stopped after the number of steps that it was given.
    StepLimit,
}

/// What a `Cause` is, with text as sequences of characters.
pub enum CauseView {
    GotoTarget,
    GotoNotNumber,
    GotoMissing,
    LetExpression(ExpressionErrorView),
    LetSyntax,
    Print,
    InputMissing,
    InputExhausted,
    IfSyntax,
    IfTarget,
    Syntax,
    StepLimit,
}

impl View for Cause {
    type V = CauseView;

    open spec fn view(&self) -> CauseView {
        match self {
            Cause::GotoTarget => CauseView::GotoTarget,
            Cause::GotoNotNumber => CauseView::GotoNotNumber,
            Cause::GotoMissing => CauseView::GotoMissing,
            Cause::LetExpression(e) => CauseView::LetExpression(e@),
            Cause::LetSyntax => CauseView::LetSyntax,
            Cause::Print => CauseView::Print,
            Cause::InputMissing => CauseView::InputMissing,
            Cause::InputExhausted => CauseView::InputExhausted,
            Cause::IfSyntax => CauseView::IfSyntax,
            Cause::IfTarget => CauseView::IfTarget,
            Cause::Syntax => CauseView::Syntax,
            Cause::StepLimit => CauseView::StepLimit,
        }
    }
}

/// The failure of a run: the line, the byte offset in it, and the cause.
#[derive(Debug, PartialEq)]
pub struct RunError {
    pub line: LineNumber,
    pub column: u64,
    pub cause: Cause,
}

/// What a `RunError` is.
pub struct RunErrorView {
    pub line: u32,
    pub column: u64,
    pub cause: CauseView,
}

impl View for RunError {
    type V = RunErrorView;

    open spec fn view(&self) -> RunErrorView {
        RunErrorView { line: self.line.0, column: self.column, cause: self.cause@ }
    }
}

/// The state of a run: the place in the order of the line that runs next,
/// and the variables.
pub struct StateView {
    pub line_index: int,
    pub env: Map<Seq<char>, ValueView>,
}

/// What a statement does: it changes the variables, it may jump, and it may
/// print a line; or it fails at a byte offset in its line.
pub enum Effect {
    Done { env: Map<Seq<char>, ValueView>, jump: Option<int>, output: Option<Seq<char>> },
    Failed { column: u64, cause: CauseView },
}

/// The place in the order of the line that a jump to `n` leads to.
pub open spec fn target(program: Seq<LineView>, n: i32) -> Option<int> {
    if n < 0 {
        None
    } else {
        position(program, n as u32)
    }
}

/// The text that `PRINT` writes for a value: a number in decimal, a truth
/// value as `true` or `false`, text as it is.
pub open spec fn rendered(v: ValueView) -> Seq<char> {
    match v {
        ValueView::String(s) => s,
        ValueView::Number(n) => signed_decimal(n as int),
        ValueView::Bool(b) => if b {
            "true"@
        } else {
            "false"@
        },
    }
}

/// A text without the whitespace at its end.
pub open spec fn trimmed(s: Seq<char>) -> Seq<char>
    decreases s.len(),
{
    if s.len() > 0 && whitespace(s.last()) {
        trimmed(s.drop_last())
    } else {
        s
    }
}

/// What `GOTO` does, given the tokens of its line.
pub open spec fn goto_effect(
    program: Seq<LineView>,
    tokens: Seq<(u32, TokenView)>,
    env: Map<Seq<char>, ValueView>,
) -> Effect {
    if tokens.len() < 2 {
        Effect::Failed { column: (tokens[0].0 + 4) as u64, cause: CauseView::GotoMissing }
    } else {
        match tokens[1].1 {
            TokenView::Number(n) => match target(program, n) {
                Some(i) => Effect::Done { env, jump: Some(i), output: None },
                None => Effect::Failed { column: tokens[1].0 as u64, cause: CauseView::GotoTarget },
            },
            _ => Effect::Failed { column: tokens[1].0 as u64, cause: CauseView::GotoNotNumber },
        }
    }
}

/// What `LET` does. Its expression begins at the fourth token. Where that
/// has no value the statement fails with its error, whatever stands before
/// it; else the variable gets the value.
pub open spec fn let_effect(tokens: Seq<(u32, TokenView)>, env: Map<Seq<char>, ValueView>) -> Effect {
    let start = if tokens.len() < 3 {
        tokens.len() as int
    } else {
        3
    };
    match value_of(tokens, start, env) {
        Err(e) => Effect::Failed { column: tokens[0].0 as u64, cause: CauseView::LetExpression(e) },
        Ok(v) => if tokens.len() >= 3 && tokens[1].1 is Variable && tokens[2].1 is Equals {
            Effect::Done { env: env.insert(tokens[1].1->Variable_0, v), jump: None, output: None }
        } else {
            Effect::Failed { column: tokens[0].0 as u64, cause: CauseView::LetSyntax }
        },
    }
}

/// What `PRINT` does: it writes the value of its expression.
pub open spec fn print_effect(tokens: Seq<(u32, TokenView)>, env: Map<Seq<char>, ValueView>) -> Effect {
    match value_of(tokens, 1, env) {
        Ok(v) => Effect::Done { env, jump: None, output: Some(rendered(v)) },
        Err(_) => Effect::Failed { column: tokens[0].0 as u64, cause: CauseView::Print },
    }
}

/// What `INPUT` does with the line of input that it is given: the variable
/// gets the line, without the whitespace at its end, as text, whether or not
/// it had a value.
pub open spec fn input_effect(
    tokens: Seq<(u32, TokenView)>,
    env: Map<Seq<char>, ValueView>,
    input: Option<Seq<char>>,
) -> Effect {
    if tokens.len() >= 2 && tokens[1].1 is Variable {
        match input {
            Some(line) => Effect::Done {
                env: env.insert(tokens[1].1->Variable_0, ValueView::String(trimmed(line))),
                jump: None,
                output: None,
            },
            None => Effect::Failed {
                column: tokens[0].0 as u64,
                cause: CauseView::InputExhausted,
            },
        }
    } else {
        Effect::Failed { column: (tokens[0].0 + 5) as u64, cause: CauseView::InputMissing }
    }
}

/// What `IF` does: where its condition is true it jumps to the line that
/// follows `THEN`, where it is false it does nothing.
pub open spec fn if_effect(
    program: Seq<LineView>,
    tokens: Seq<(u32, TokenView)>,
    env: Map<Seq<char>, ValueView>,
) -> Effect {
    let end = expression_end(tokens, 1);
    match value_of(tokens, 1, env) {
        Ok(ValueView::Bool(b)) => if end + 1 < tokens.len() && tokens[end].1 is Then && tokens[end
            + 1].1 is Number {
            if b {
                match target(program, tokens[end + 1].1->Number_0) {
                    Some(i) => Effect::Done { env, jump: Some(i), output: None },
                    None => Effect::Failed {
                        column: tokens[0].0 as u64,
                        cause: CauseView::IfTarget,
                    },
                }
            } else {
                Effect::Done { env, jump: None, output: None }
            }
        } else {
            Effect::Failed { column: tokens[0].0 as u64, cause: CauseView::IfSyntax }
        },
        _ => Effect::Failed { column: tokens[0].0 as u64, cause: CauseView::IfSyntax },
    }
}

/// What the statement with the tokens `tokens` does. A line without tokens
/// does nothing, and so does `REM`.
pub open spec fn effect(
    program: Seq<LineView>,
    tokens: Seq<(u32, TokenView)>,
    env: Map<Seq<char>, ValueView>,
    input: Option<Seq<char>>,
) -> Effect {
    if tokens.len() == 0 {
        Effect::Done { env, jump: None, output: None }
    } else {
        match tokens[0].1 {
            TokenView::Rem => Effect::Done { env, jump: None, output: None },
            TokenView::Goto => goto_effect(program, tokens, env),
            TokenView::Let => let_effect(tokens, env),
            TokenView::Print => print_effect(tokens, env),
            TokenView::Input => input_effect(tokens, env, input),
            TokenView::If => if_effect(program, tokens, env),
            _ => Effect::Failed { column: tokens[0].0 as u64, cause: CauseView::Syntax },
        }
    }
}

/// Whether the run is over: the counter is past the last line.
pub open spec fn halted(program: Seq<LineView>, state: StateView) -> bool {
    state.line_index < 0 || state.line_index >= program.len()
}

/// Whether the statement that runs next reads a line of input.
pub open spec fn reads_input(program: Seq<LineView>, state: StateView) -> bool {
    &&& !halted(program, state)
    &&& program[state.line_index].tokens.len() >= 2
    &&& program[state.line_index].tokens[0].1 is Input
    &&& program[state.line_index].tokens[1].1 is Variable
}

/// One step of a run: the state after the statement that runs next, with
/// the line that it prints, if any; or its failure. A statement that does
/// not jump is followed by the next line in the order. A run that is over
/// stays as it is.
pub open spec fn step_of(program: Seq<LineView>, state: StateView, input: Option<Seq<char>>) -> Result<
    (StateView, Option<Seq<char>>),
    RunErrorView,
> {
    if halted(program, state) {
        Ok((state, None))
    } else {
        let line = program[state.line_index];
        match effect(program, line.tokens, state.env, input) {
            Effect::Done { env, jump, output } => Ok(
                (
                    StateView {
                        line_index: match jump {
                            Some(i) => i,
                            None => state.line_index + 1,
                        },
                        env,
                    },
                    output,
                ),
            ),
            Effect::Failed { column, cause } => Err(
                RunErrorView { line: line.line_number, column, cause },
            ),
        }
    }
}

/// A `GOTO` to a number that no line of the program has fails, and the
/// failure names the line of the `GOTO`, the byte offset of the number in
/// it, and the cause.
pub proof fn lemma_goto_missing_line_fails(
    program: Seq<LineView>,
    state: StateView,
    input: Option<Seq<char>>,
)
    requires
        !halted(program, state),
        program[state.line_index].tokens.len() >= 2,
        program[state.line_index].tokens[0].1 is Goto,
        program[state.line_index].tokens[1].1 is Number,
        forall|i: int|
            0 <= i < program.len() ==> program[i].line_number
                != program[state.line_index].tokens[1].1->Number_0,
    ensures
        step_of(program, state, input) == Err::<(StateView, Option<Seq<char>>), RunErrorView>(
            RunErrorView {
                line: program[state.line_index].line_number,
                column: program[state.line_index].tokens[1].0 as u64,
                cause: CauseView::GotoTarget,
            },
        ),
{
    let n = program[state.line_index].tokens[1].1->Number_0;
    if n >= 0 {
        lemma_position_sound(program, n as u32);
    }
}

/// A jump leads to the line with the number that it names: where the
/// program has a line with the number of a `GOTO`, that line runs next, and
/// nothing else changes.
pub proof fn lemma_goto_jumps(
    program: Seq<LineView>,
    state: StateView,
    input: Option<Seq<char>>,
    to: int,
)
    requires
        crate::program::ascending(program),
        !halted(program, state),
        program[state.line_index].tokens.len() >= 2,
        program[state.line_index].tokens[0].1 is Goto,
        program[state.line_index].tokens[1].1 is Number,
        0 <= to < program.len(),
        program[to].line_number == program[state.line_index].tokens[1].1->Number_0,
    ensures
        step_of(program, state, input) == Ok::<(StateView, Option<Seq<char>>), RunErrorView>(
            (StateView { line_index: to, env: state.env }, None),
        ),
{
    crate::program::lemma_position_found(program, to);
}

/// An `IF` whose condition is true and whose number no line of the program
/// has fails, and the failure names the line of the `IF` and the byte
/// offset of the `IF` in it.
pub proof fn lemma_if_missing_line_fails(
    program: Seq<LineView>,
    state: StateView,
    input: Option<Seq<char>>,
)
    requires
        !halted(program, state),
        program[state.line_index].tokens.len() >= 1,
        program[state.line_index].tokens[0].1 is If,
        value_of(program[state.line_index].tokens, 1, state.env) == Ok::<
            ValueView,
            ExpressionErrorView,
        >(ValueView::Bool(true)),
        expression_end(program[state.line_index].tokens, 1) + 1
            < program[state.line_index].tokens.len(),
        program[state.line_index].tokens[expression_end(program[state.line_index].tokens, 1)
            + 1].1 is Number,
        forall|i: int|
            0 <= i < program.len() ==> program[i].line_number
                != program[state.line_index].tokens[expression_end(
                program[state.line_index].tokens,
                1,
            ) + 1].1->Number_0,
    ensures
        step_of(program, state, input) == Err::<(StateView, Option<Seq<char>>), RunErrorView>(
            RunErrorView {
                line: program[state.line_index].line_number,
                column: program[state.line_index].tokens[0].0 as u64,
                cause: CauseView::IfTarget,
            },
        ),
{
    let tokens = program[state.line_index].tokens;
    crate::expression::lemma_expression_end_bounds(tokens, 1);
    let n = tokens[expression_end(tokens, 1) + 1].1->Number_0;
    if n >= 0 {
        lemma_position_sound(program, n as u32);
    }
}

/// No statement takes a variable away: a variable that has a value before a
/// step has one after it, and only `LET` and `INPUT` change the variables at
/// all.
pub proof fn lemma_variables_stay(
    program: Seq<LineView>,
    state: StateView,
    input: Option<Seq<char>>,
    name: Seq<char>,
)
    requires
        step_of(program, state, input) is Ok,
    ensures
        state.env.contains_key(name) ==> step_of(program, state, input)->Ok_0.0.env.contains_key(
            name,
        ),
        !halted(program, state) && (program[state.line_index].tokens.len() > 0 ==> !(
        program[state.line_index].tokens[0].1 is Let) && !(program[state.line_index].tokens[0].1
            is Input)) ==> step_of(program, state, input)->Ok_0.0.env == state.env,
{
}

/// A statement that is no `GOTO` and no `IF` is followed by the line with
/// the next greater number: where it succeeds, the line that runs next is
/// the next in the order, and in a program in ascending order that line,
/// if there is one, has a greater number.
pub proof fn lemma_next_line_in_order(
    program: Seq<LineView>,
    state: StateView,
    input: Option<Seq<char>>,
)
    requires
        crate::program::ascending(program),
        !halted(program, state),
        program[state.line_index].tokens.len() > 0 ==> !(program[state.line_index].tokens[0].1
            is Goto) && !(program[state.line_index].tokens[0].1 is If),
        step_of(program, state, input) is Ok,
    ensures
        step_of(program, state, input)->Ok_0.0.line_index == state.line_index + 1,
        state.line_index + 1 < program.len() ==> program[state.line_index].line_number
            < program[state.line_index + 1].line_number,
{
}

/// An `IF` whose condition is false does not jump: the next line in the
/// order runs next, and nothing else changes.
pub proof fn lemma_false_condition_falls_through(
    program: Seq<LineView>,
    state: StateView,
    input: Option<Seq<char>>,
)
    requires
        !halted(program, state),
        program[state.line_index].tokens.len() >= 1,
        program[state.line_index].tokens[0].1 is If,
        value_of(program[state.line_index].tokens, 1, state.env) == Ok::<
            ValueView,
            ExpressionErrorView,
        >(ValueView::Bool(false)),
        expression_end(program[state.line_index].tokens, 1) + 1
            < program[state.line_index].tokens.len(),
        program[state.line_index].tokens[expression_end(program[state.line_index].tokens, 1)
            + 1].1 is Number,
    ensures
        step_of(program, state, input) == Ok::<(StateView, Option<Seq<char>>), RunErrorView>(
            (StateView { line_index: state.line_index + 1, env: state.env }, None),
        ),
{
    crate::expression::lemma_expression_end_bounds(program[state.line_index].tokens, 1);
}

/// The state of a run.
pub struct Interpreter {
    /// The place in the order of the line that runs next.
    pub line_index: usize,
    /// The variables.
    pub context: RBasicContext,
}

impl View for Interpreter {
    type V = StateView;

    open spec fn view(&self) -> StateView {
        StateView { line_index: self.line_index as int, env: self.context@ }
    }
}

/// The view of an optional text.
pub open spec fn option_text(s: Option<String>) -> Option<Seq<char>> {
    match s {
        Some(s) => Some(s@),
        None => None,
    }
}

/// The place in the order of the line that a jump to `n` leads to.
fn find_target(program: &Program, n: i32) -> (r: Option<usize>)
    ensures
        match r {
            Some(i) => target(program@, n) == Some(i as int),
            None => target(program@, n) is None,
        },
{
    if n < 0 {
        None
    } else {
        program.index_of(n as u32)
    }
}

/// The text that `PRINT` writes for a value.
pub fn render(v: &RBasicValue) -> (r: String)
    ensures
        r@ == rendered(v@),
{
    match v {
        RBasicValue::String(s) => s.clone(),
        RBasicValue::Number(n) => {
            let mut out = String::new();
            push_signed_decimal(&mut out, *n);
            assert(out@ =~= signed_decimal(*n as int));
            out
        },
        RBasicValue::Bool(b) => if *b {
            "true".to_owned()
        } else {
            "false".to_owned()
        },
    }
}

/// A line without the whitespace at its end.
pub fn trim_end(line: &str) -> (r: String)
    ensures
        r@ == trimmed(line@),
{
    let chars = chars_of(line);
    let mut k: usize = chars.len();
    proof {
        assert(line@.take(k as int) =~= line@);
    }
    while k > 0 && is_whitespace(chars[k - 1])
        invariant
            k <= chars@.len(),
            chars@ == line@,
            trimmed(line@) == trimmed(line@.take(k as int)),
        decreases k,
    {
        proof {
            assert(line@.take(k as int).drop_last() =~= line@.take(k - 1));
        }
        k = k - 1;
    }
    proof {
        assert(line@.subrange(0, k as int) =~= line@.take(k as int));
    }
    line.substring_char(0, k).to_owned()
}

/// What a statement did: the place to jump to, if it jumps, and the line to
/// print, if it prints.
struct Done {
    jump: Option<usize>,
    output: Option<String>,
}

/// Whether what a statement did, to the variables and beyond, is what
/// `expected` says.
spec fn fulfils(
    r: Result<Done, (u64, Cause)>,
    before: Map<Seq<char>, ValueView>,
    after: Map<Seq<char>, ValueView>,
    expected: Effect,
) -> bool {
    match expected {
        Effect::Done { env, jump, output } => {
            &&& r is Ok
            &&& after == env
            &&& option_text(r->Ok_0.output) == output
            &&& match jump {
                Some(i) => r->Ok_0.jump == Some(i as usize) && 0 <= i <= usize::MAX,
                None => r->Ok_0.jump is None,
            }
        },
        Effect::Failed { column, cause } => {
            &&& r is Err
            &&& after == before
            &&& r->Err_0.0 == column
            &&& r->Err_0.1@ == cause
        },
    }
}

/// Runs a `GOTO`.
fn run_goto(program: &Program, tokens: &Vec<TokenAndPos>, context: &RBasicContext) -> (r: Result<
    Done,
    (u64, Cause),
>)
    requires
        tokens@.len() > 0,
    ensures
        fulfils(r, context@, context@, goto_effect(program@, token_views(tokens@), context@)),
{
    if tokens.len() < 2 {
        return Err((tokens[0].0 as u64 + 4, Cause::GotoMissing));
    }
    assert(token_views(tokens@)[1] == tokens@[1]@);
    match tokens[1].1 {
        Token::Number(n) => match find_target(program, n) {
            Some(i) => Ok(Done { jump: Some(i), output: None }),
            None => Err((tokens[1].0 as u64, Cause::GotoTarget)),
        },
        _ => Err((tokens[1].0 as u64, Cause::GotoNotNumber)),
    }
}

/// Runs a `LET`.
fn run_let(tokens: &Vec<TokenAndPos>, context: &mut RBasicContext) -> (r: Result<
    Done,
    (u64, Cause),
>)
    requires
        tokens@.len() > 0,
    ensures
        fulfils(r, old(context)@, final(context)@, let_effect(token_views(tokens@), old(context)@)),
{
    let mut cursor: usize = if tokens.len() < 3 {
        tokens.len()
    } else {
        3
    };
    let column = tokens[0].0 as u64;
    match parse_and_eval_expression(tokens, &mut cursor, context) {
        Err(e) => Err((column, Cause::LetExpression(e))),
        Ok(value) => {
            if tokens.len() < 3 {
                return Err((column, Cause::LetSyntax));
            }
            assert(token_views(tokens@)[1] == tokens@[1]@);
            assert(token_views(tokens@)[2] == tokens@[2]@);
            match (&tokens[1].1, &tokens[2].1) {
                (Token::Variable(name), Token::Equals) => {
                    context.set(name.clone(), value);
                    Ok(Done { jump: None, output: None })
                },
                _ => Err((column, Cause::LetSyntax)),
            }
        },
    }
}

/// Runs a `PRINT`.
fn run_print(tokens: &Vec<TokenAndPos>, context: &RBasicContext) -> (r: Result<Done, (u64, Cause)>)
    requires
        tokens@.len() > 0,
    ensures
        fulfils(r, context@, context@, print_effect(token_views(tokens@), context@)),
{
    let mut cursor: usize = 1;
    match parse_and_eval_expression(tokens, &mut cursor, context) {
        Ok(value) => Ok(Done { jump: None, output: Some(render(&value)) }),
        Err(_) => Err((tokens[0].0 as u64, Cause::Print)),
    }
}

/// Runs an `INPUT` on the line of input that it is given.
fn run_input(tokens: &Vec<TokenAndPos>, context: &mut RBasicContext, input: Option<String>) -> (r:
    Result<Done, (u64, Cause)>)
    requires
        tokens@.len() > 0,
    ensures
        fulfils(
            r,
            old(context)@,
            final(context)@,
            input_effect(token_views(tokens@), old(context)@, option_text(input)),
        ),
{
    if tokens.len() < 2 {
        return Err((tokens[0].0 as u64 + 5, Cause::InputMissing));
    }
    assert(token_views(tokens@)[1] == tokens@[1]@);
    match &tokens[1].1 {
        Token::Variable(name) => match input {
            Some(line) => {
                let text = trim_end(line.as_str());
                context.set(name.clone(), RBasicValue::String(text));
                Ok(Done { jump: None, output: None })
            },
            None => Err((tokens[0].0 as u64, Cause::InputExhausted)),
        },
        _ => Err((tokens[0].0 as u64 + 5, Cause::InputMissing)),
    }
}

/// Runs an `IF`.
fn run_if(program: &Program, tokens: &Vec<TokenAndPos>, context: &RBasicContext) -> (r: Result<
    Done,
    (u64, Cause),
>)
    requires
        tokens@.len() > 0,
    ensures
        fulfils(r, context@, context@, if_effect(program@, token_views(tokens@), context@)),
{
    let mut cursor: usize = 1;
    let column = tokens[0].0 as u64;
    let condition = match parse_and_eval_expression(tokens, &mut cursor, context) {
        Ok(RBasicValue::Bool(b)) => b,
        _ => {
            return Err((column, Cause::IfSyntax));
        },
    };
    if cursor >= tokens.len() || cursor + 1 >= tokens.len() {
        return Err((column, Cause::IfSyntax));
    }
    assert(token_views(tokens@)[cursor as int] == tokens@[cursor as int]@);
    assert(token_views(tokens@)[cursor + 1] == tokens@[cursor + 1]@);
    match (&tokens[cursor].1, &tokens[cursor + 1].1) {
        (Token::Then, Token::Number(n)) => {
            if condition {
                match find_target(program, *n) {
                    Some(i) => Ok(Done { jump: Some(i), output: None }),
                    None => Err((column, Cause::IfTarget)),
                }
            } else {
                Ok(Done { jump: None, output: None })
            }
        },
        _ => Err((column, Cause::IfSyntax)),
    }
}

/// Runs the statement with the tokens `tokens`.
fn execute(
    program: &Program,
    tokens: &Vec<TokenAndPos>,
    context: &mut RBasicContext,
    input: Option<String>,
) -> (r: Result<Done, (u64, Cause)>)
    ensures
        fulfils(
            r,
            old(context)@,
            final(context)@,
            effect(program@, token_views(tokens@), old(context)@, option_text(input)),
        ),
{
    if tokens.len() == 0 {
        return Ok(Done { jump: None, output: None });
    }
    assert(token_views(tokens@)[0] == tokens@[0]@);
    match tokens[0].1 {
        Token::Rem => Ok(Done { jump: None, output: None }),
        Token::Goto => run_goto(program, tokens, context),
        Token::Let => run_let(tokens, context),
        Token::Print => run_print(tokens, context),
        Token::Input => run_input(tokens, context, input),
        Token::If => run_if(program, tokens, context),
        _ => Err((tokens[0].0 as u64, Cause::Syntax)),
    }
}

impl Interpreter {
    /// The state in which a run begins: at the first line, with no
    /// variables.
    pub fn new() -> (r: Interpreter)
        ensures
            r@ == (StateView { line_index: 0, env: Map::empty() }),
    {
        Interpreter { line_index: 0, context: RBasicContext::new() }
    }

    /// Whether the run is over.
    pub fn finished(&self, program: &Program) -> (r: bool)
        ensures
            r == halted(program@, self@),
    {
        self.line_index >= program.len()
    }

    /// Whether the statement that runs next reads a line of input.
    pub fn needs_input(&self, program: &Program) -> (r: bool)
        ensures
            r == reads_input(program@, self@),
    {
        if self.line_index >= program.len() {
            return false;
        }
        let tokens = &program.line(self.line_index).tokens;
        if tokens.len() < 2 {
            return false;
        }
        assert(token_views(tokens@)[0] == tokens@[0]@);
        assert(token_views(tokens@)[1] == tokens@[1]@);
        matches!(tokens[0].1, Token::Input) && matches!(tokens[1].1, Token::Variable(_))
    }

    /// Runs the statement that is next. `input` is the line of input for it,
    /// which only an `INPUT` reads: `None` where the input is at its end.
    ///
    /// On success the result is the line that the statement prints, if it
    /// prints one. On failure the state stays as it was.
    pub fn step(&mut self, program: &Program, input: Option<String>) -> (r: Result<
        Option<String>,
        RunError,
    >)
        ensures
            match step_of(program@, old(self)@, option_text(input)) {
                Ok((state, output)) => r is Ok && final(self)@ == state && option_text(r->Ok_0)
                    == output,
                Err(e) => r is Err && r->Err_0@ == e && final(self)@ == old(self)@,
            },
    {
        if self.line_index >= program.len() {
            return Ok(None);
        }
        let line = program.line(self.line_index);
        match execute(program, &line.tokens, &mut self.context, input) {
            Ok(done) => {
                self.line_index = match done.jump {
                    Some(i) => i,
                    None => self.line_index + 1,
                };
                Ok(done.output)
            },
            Err((column, cause)) => Err(RunError { line: line.line_number, column, cause }),
        }
    }
}

/// What a run came to: the lines that it printed, and its end.
#[derive(Debug, PartialEq)]
pub struct Run {
    /// The lines that the run printed, in order.
    pub output: Vec<String>,
    /// The message of success, or the failure.
    pub result: Result<String, RunError>,
}

/// What a `Run` is: the printed lines, and the failure if there was one.
pub struct RunView {
    pub output: Seq<Seq<char>>,
    pub failure: Option<RunErrorView>,
}

/// The views of a sequence of texts.
pub open spec fn texts_view(texts: Seq<String>) -> Seq<Seq<char>> {
    texts.map_values(|t: String| t@)
}

impl View for Run {
    type V = RunView;

    open spec fn view(&self) -> RunView {
        RunView {
            output: texts_view(self.output@),
            failure: match self.result {
                Ok(_) => None,
                Err(e) => Some(e@),
            },
        }
    }
}

/// The run of at most `steps` statements from `state` on. Each `INPUT`
/// reads the next line of `input`. The run ends after the last line, at the
/// first failure, or, with the cause `StepLimit`, before the statement for
/// which no step is left.
pub open spec fn run_of(
    program: Seq<LineView>,
    state: StateView,
    input: Seq<Seq<char>>,
    steps: nat,
    output: Seq<Seq<char>>,
) -> RunView
    decreases steps,
{
    if halted(program, state) {
        RunView { output, failure: None }
    } else if steps == 0 {
        RunView {
            output,
            failure: Some(
                RunErrorView {
                    line: program[state.line_index].line_number,
                    column: 0,
                    cause: CauseView::StepLimit,
                },
            ),
        }
    } else {
        let reads = reads_input(program, state) && input.len() > 0;
        match step_of(
            program,
            state,
            if reads {
                Some(input[0])
            } else {
                None
            },
        ) {
            Err(e) => RunView { output, failure: Some(e) },
            Ok((next, printed)) => run_of(
                program,
                next,
                if reads {
                    input.skip(1)
                } else {
                    input
                },
                (steps - 1) as nat,
                match printed {
                    Some(line) => output.push(line),
                    None => output,
                },
            ),
        }
    }
}

/// A run does not depend on the order in which the lines of the program
/// are given: two lists that hold the same lines, no two of them with the
/// same number, run alike.
pub proof fn lemma_run_order_independent(
    a: Seq<LineView>,
    b: Seq<LineView>,
    state: StateView,
    input: Seq<Seq<char>>,
    steps: nat,
)
    requires
        a.to_multiset() == b.to_multiset(),
        distinct_numbers(a),
    ensures
        run_of(loaded(a), state, input, steps, Seq::empty()) == run_of(
            loaded(b),
            state,
            input,
            steps,
            Seq::empty(),
        ),
{
    lemma_load_order_independent(a, b);
}

/// The message of a run that came to its end.
pub open spec fn success_text() -> Seq<char> {
    "Completed Successfully"@
}

/// The message of a run that came to its end.
pub fn success_message() -> (r: String)
    ensures
        r@ == success_text(),
{
    "Completed Successfully".to_owned()
}

/// Runs a program on the lines of input `input`, for at most `max_steps`
/// statements.
///
/// The lines may be given in any order: they run in ascending order of
/// their numbers. The result is what `run_of` says of the loaded program,
/// begun at its first line with no variables.
pub fn evaluate(code_lines: Vec<LineOfCode>, input: Vec<String>, max_steps: usize) -> (r: Run)
    ensures
        r@ == run_of(
            loaded(lines_view(code_lines@)),
            StateView { line_index: 0, env: Map::empty() },
            texts_view(input@),
            max_steps as nat,
            Seq::empty(),
        ),
        r.result is Ok ==> r.result->Ok_0@ == success_text(),
{
    let program = Program::load(code_lines);
    let mut state = Interpreter::new();
    let mut output: Vec<String> = Vec::new();
    let mut used: usize = 0;
    let mut steps: usize = max_steps;
    let ghost goal = run_of(
        program@,
        state@,
        texts_view(input@),
        max_steps as nat,
        Seq::empty(),
    );
    proof {
        assert(texts_view(output@) =~= Seq::empty());
        assert(texts_view(input@).skip(0) =~= texts_view(input@));
    }
    while !state.finished(&program)
        invariant
            used <= input@.len(),
            goal == run_of(
                loaded(lines_view(code_lines@)),
                StateView { line_index: 0, env: Map::empty() },
                texts_view(input@),
                max_steps as nat,
                Seq::empty(),
            ),
            goal == run_of(
                program@,
                state@,
                texts_view(input@).skip(used as int),
                steps as nat,
                texts_view(output@),
            ),
        decreases steps,
    {
        if steps == 0 {
            let line = program.line(state.line_index).line_number;
            return Run {
                output,
                result: Err(RunError { line, column: 0, cause: Cause::StepLimit }),
            };
        }
        let reads = state.needs_input(&program) && used < input.len();
        let given = if reads {
            Some(input[used].clone())
        } else {
            None
        };
        let ghost before = texts_view(output@);
        proof {
            if reads {
                assert(texts_view(input@).skip(used as int)[0] == input@[used as int]@);
                assert(texts_view(input@).skip(used as int).skip(1) =~= texts_view(input@).skip(
                    used + 1,
                ));
            }
        }
        match state.step(&program, given) {
            Err(e) => {
                return Run { output, result: Err(e) };
            },
            Ok(printed) => {
                if let Some(line) = printed {
                    output.push(line);
                    proof {
                        assert(texts_view(output@) =~= before.push(line@));
                    }
                }
            },
        }
        if reads {
            used = used + 1;
        }
        steps = steps - 1;
    }
    Run { output, result: Ok(success_message()) }
}

/// The message of a `Cause`.
pub open spec fn cause_text(c: CauseView) -> Seq<char> {
    match c {
        CauseView::GotoTarget => "invalid target line for GOTO"@,
        CauseView::GotoNotNumber => "GOTO must be followed by valid line number"@,
        CauseView::GotoMissing => "GOTO must be followed by a line number"@,
        CauseView::LetExpression(e) => "error in LET expression: "@ + expression_error_text(e),
        CauseView::LetSyntax => "invalid syntax for LET."@,
        CauseView::Print => "PRINT must be followed by valid expression"@,
        CauseView::InputMissing => "INPUT must be followed by a variable name"@,
        CauseView::InputExhausted => "INPUT found no line to read"@,
        CauseView::IfSyntax => "invalid syntax for IF."@,
        CauseView::IfTarget => "invalid target line for IF"@,
        CauseView::Syntax => "invalid syntax"@,
        CauseView::StepLimit => "step limit reached"@,
    }
}

/// The message of a `RunError`: the line, the byte offset in it, and the
/// cause.
pub open spec fn run_error_text(e: RunErrorView) -> Seq<char> {
    "At LineNumber("@ + decimal(e.line as nat) + "), "@ + decimal(e.column as nat) + " "@
        + cause_text(e.cause)
}

impl Cause {
    /// The message of the cause.
    pub fn message(&self) -> (r: String)
        ensures
            r@ == cause_text(self@),
    {
        match self {
            Cause::GotoTarget => "invalid target line for GOTO".to_owned(),
            Cause::GotoNotNumber => "GOTO must be followed by valid line number".to_owned(),
            Cause::GotoMissing => "GOTO must be followed by a line number".to_owned(),
            Cause::LetExpression(e) => {
                let mut out = "error in LET expression: ".to_owned();
                let inner = e.message();
                out.append(inner.as_str());
                out
            },
            Cause::LetSyntax => "invalid syntax for LET.".to_owned(),
            Cause::Print => "PRINT must be followed by valid expression".to_owned(),
            Cause::InputMissing => "INPUT must be followed by a variable name".to_owned(),
            Cause::InputExhausted => "INPUT found no line to read".to_owned(),
            Cause::IfSyntax => "invalid syntax for IF.".to_owned(),
            Cause::IfTarget => "invalid target line for IF".to_owned(),
            Cause::Syntax => "invalid syntax".to_owned(),
            Cause::StepLimit => "step limit reached".to_owned(),
        }
    }
}

impl RunError {
    /// The message of the failure.
    pub fn message(&self) -> (r: String)
        ensures
            r@ == run_error_text(self@),
    {
        let mut out = "At LineNumber(".to_owned();
        push_decimal(&mut out, self.line.0 as u64);
        out.append("), ");
        push_decimal(&mut out, self.column);
        out.append(" ");
        let cause = self.cause.message();
        out.append(cause.as_str());
        out
    }
}

} // verus!
