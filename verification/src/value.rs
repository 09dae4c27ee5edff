//! The values of the language and the operators on them.
//!
//! Arithmetic is exact: a result that does not fit in 32 bits is an error,
//! as is a division by zero. Text beside a number counts as the integer
//! that it spells. Comparisons go by one order of the values of a type:
//! numbers by size, texts by dictionary order, and of the truth values
//! `false` before `true`.
use crate::text::{chars_of, integer_literal, parse_integer, push_signed_decimal, signed_decimal};
use vstd::prelude::*;
use vstd::std_specs::ops::{AddSpecImpl, DivSpecImpl, MulSpecImpl, NegSpecImpl, NotSpecImpl, SubSpecImpl};
use vstd::string::StringExecFns;

verus! {

/// A value: text, a 32-bit integer, or a truth value.
#[derive(Debug)]
pub enum RBasicValue {
    String(String),
    Number(i32),
    Bool(bool),
}

/// What a value is, with text as a sequence of characters.
pub enum ValueView {
    String(Seq<char>),
    Number(i32),
    Bool(bool),
}

/// What was being done to two values when it failed.
#[derive(Debug, Clone, Copy, PartialEq, Eq, Structural)]
pub enum Operation {
    Add,
    Subtract,
    Multiply,
    Divide,
    Compare,
}

/// The six comparisons.
#[derive(Debug, Clone, Copy, PartialEq, Eq, Structural)]
pub enum Comparison {
    Equal,
    NotEqual,
    Less,
    Greater,
    LessOrEqual,
    GreaterOrEqual,
}

/// How the left of two values stands to the right.
#[derive(Debug, Clone, Copy, PartialEq, Eq, Structural)]
pub enum Relation {
    Less,
    Equal,
    Greater,
}

/// Why an operator could not be applied.
#[derive(Debug, PartialEq)]
pub enum ValueError {
    /// The operand of a unary minus is no number.
    Negate,
    /// The operand of a logical not is no truth value.
    Not,
    /// A number met text that is no integer literal. `number_first` tells
    /// whether the number was the left operand.
    Coercion { op: Operation, number: i32, text: String, number_first: bool },
    /// The operator is not defined on values of these two types.
    Incompatible { op: Operation },
    /// The divisor is zero.
    DivisionByZero,
    /// The result does not fit in 32 bits.
    Overflow,
}

/// What a `ValueError` is, with text as a sequence of characters.
pub enum ValueErrorView {
    Negate,
    Not,
    Coercion { op: Operation, number: i32, text: Seq<char>, number_first: bool },
    Incompatible { op: Operation },
    DivisionByZero,
    Overflow,
}

impl View for RBasicValue {
    type V = ValueView;

    open spec fn view(&self) -> ValueView {
        match self {
            RBasicValue::String(s) => ValueView::String(s@),
            RBasicValue::Number(n) => ValueView::Number(*n),
            RBasicValue::Bool(b) => ValueView::Bool(*b),
        }
    }
}

impl View for ValueError {
    type V = ValueErrorView;

    open spec fn view(&self) -> ValueErrorView {
        match self {
            ValueError::Negate => ValueErrorView::Negate,
            ValueError::Not => ValueErrorView::Not,
            ValueError::Coercion { op, number, text, number_first } => ValueErrorView::Coercion {
                op: *op,
                number: *number,
                text: text@,
                number_first: *number_first,
            },
            ValueError::Incompatible { op } => ValueErrorView::Incompatible { op: *op },
            ValueError::DivisionByZero => ValueErrorView::DivisionByZero,
            ValueError::Overflow => ValueErrorView::Overflow,
        }
    }
}

/// The view of the outcome of an operator that gives a value.
pub open spec fn outcome_view(r: Result<RBasicValue, ValueError>) -> Result<
    ValueView,
    ValueErrorView,
> {
    match r {
        Ok(v) => Ok(v@),
        Err(e) => Err(e@),
    }
}

/// The view of the outcome of a comparison.
pub open spec fn verdict_view<T>(r: Result<T, ValueError>) -> Result<T, ValueErrorView> {
    match r {
        Ok(b) => Ok(b),
        Err(e) => Err(e@),
    }
}

/// The quotient of `x` by `d`, rounded towards zero.
pub open spec fn quotient(x: int, d: int) -> int
    recommends
        d != 0,
{
    if x >= 0 && d > 0 {
        x / d
    } else if x < 0 && d < 0 {
        (-x) / (-d)
    } else if x < 0 {
        -((-x) / d)
    } else {
        -(x / (-d))
    }
}

/// The exact result of an arithmetic operator on two integers, where it has
/// one: a division by zero has none, and to compare is no arithmetic.
pub open spec fn exact(op: Operation, x: int, y: int) -> Option<int> {
    match op {
        Operation::Add => Some(x + y),
        Operation::Subtract => Some(x - y),
        Operation::Multiply => Some(x * y),
        Operation::Divide => if y == 0 {
            None
        } else {
            Some(quotient(x, y))
        },
        Operation::Compare => None,
    }
}

/// An arithmetic operator on two 32-bit integers: the exact result where it
/// fits in 32 bits. Division by zero and a result out of range are errors.
pub open spec fn arithmetic(op: Operation, x: i32, y: i32) -> Result<ValueView, ValueErrorView> {
    match exact(op, x as int, y as int) {
        Some(z) => if i32::MIN <= z <= i32::MAX {
            Ok(ValueView::Number(z as i32))
        } else {
            Err(ValueErrorView::Overflow)
        },
        None => if op is Divide {
            Err(ValueErrorView::DivisionByZero)
        } else {
            Err(ValueErrorView::Incompatible { op })
        },
    }
}

/// An arithmetic operator on two values. Two numbers are computed with.
/// Text beside a number stands for the integer that it spells, and is an
/// error where it spells none. Two texts can only be added, which joins
/// them. Nothing else can be combined.
pub open spec fn combine(op: Operation, a: ValueView, b: ValueView) -> Result<
    ValueView,
    ValueErrorView,
> {
    match (a, b) {
        (ValueView::Number(x), ValueView::Number(y)) => arithmetic(op, x, y),
        (ValueView::String(s), ValueView::String(t)) => if op is Add {
            Ok(ValueView::String(s + t))
        } else {
            Err(ValueErrorView::Incompatible { op })
        },
        (ValueView::Number(x), ValueView::String(t)) => match integer_literal(t) {
            Some(y) => arithmetic(op, x, y),
            None => Err(
                ValueErrorView::Coercion { op, number: x, text: t, number_first: true },
            ),
        },
        (ValueView::String(s), ValueView::Number(y)) => match integer_literal(s) {
            Some(x) => arithmetic(op, x, y),
            None => Err(
                ValueErrorView::Coercion { op, number: y, text: s, number_first: false },
            ),
        },
        _ => Err(ValueErrorView::Incompatible { op }),
    }
}

/// The negation of a number. The least 32-bit integer has none.
pub open spec fn negation(a: ValueView) -> Result<ValueView, ValueErrorView> {
    match a {
        ValueView::Number(x) => if x == i32::MIN {
            Err(ValueErrorView::Overflow)
        } else {
            Ok(ValueView::Number((-x) as i32))
        },
        _ => Err(ValueErrorView::Negate),
    }
}

/// The opposite of a truth value.
pub open spec fn inversion(a: ValueView) -> Result<ValueView, ValueErrorView> {
    match a {
        ValueView::Bool(b) => Ok(ValueView::Bool(!b)),
        _ => Err(ValueErrorView::Not),
    }
}

/// How two integers stand to each other.
pub open spec fn int_relation(x: int, y: int) -> Relation {
    if x < y {
        Relation::Less
    } else if x == y {
        Relation::Equal
    } else {
        Relation::Greater
    }
}

/// How two texts stand to each other in dictionary order by character: the
/// first character in which they differ decides, and a text comes after
/// each of its proper prefixes.
pub open spec fn text_relation(s: Seq<char>, t: Seq<char>) -> Relation
    decreases s.len(),
{
    if s.len() == 0 && t.len() == 0 {
        Relation::Equal
    } else if s.len() == 0 {
        Relation::Less
    } else if t.len() == 0 {
        Relation::Greater
    } else if s[0] != t[0] {
        int_relation(s[0] as int, t[0] as int)
    } else {
        text_relation(s.skip(1), t.skip(1))
    }
}

/// How two values stand to each other. Numbers are ordered by size, texts
/// by dictionary order, and of the truth values, false comes before true.
/// Text beside a number stands for the integer that it spells, and is an
/// error where it spells none. Other pairs cannot be compared.
pub open spec fn relation(a: ValueView, b: ValueView) -> Result<Relation, ValueErrorView> {
    match (a, b) {
        (ValueView::Number(x), ValueView::Number(y)) => Ok(int_relation(x as int, y as int)),
        (ValueView::String(s), ValueView::String(t)) => Ok(text_relation(s, t)),
        (ValueView::Bool(p), ValueView::Bool(q)) => Ok(
            int_relation(if p { 1 } else { 0 }, if q { 1 } else { 0 }),
        ),
        (ValueView::Number(x), ValueView::String(t)) => match integer_literal(t) {
            Some(y) => Ok(int_relation(x as int, y as int)),
            None => Err(
                ValueErrorView::Coercion {
                    op: Operation::Compare,
                    number: x,
                    text: t,
                    number_first: true,
                },
            ),
        },
        (ValueView::String(s), ValueView::Number(y)) => match integer_literal(s) {
            Some(x) => Ok(int_relation(x as int, y as int)),
            None => Err(
                ValueErrorView::Coercion {
                    op: Operation::Compare,
                    number: y,
                    text: s,
                    number_first: false,
                },
            ),
        },
        _ => Err(ValueErrorView::Incompatible { op: Operation::Compare }),
    }
}

/// Whether a comparison holds of two values that stand in the relation `r`.
pub open spec fn holds(which: Comparison, r: Relation) -> bool {
    match which {
        Comparison::Equal => r is Equal,
        Comparison::NotEqual => !(r is Equal),
        Comparison::Less => r is Less,
        Comparison::Greater => r is Greater,
        Comparison::LessOrEqual => !(r is Greater),
        Comparison::GreaterOrEqual => !(r is Less),
    }
}

/// The outcome of a comparison of `a` with `b`: whether it holds, where the
/// two can be compared.
pub open spec fn compare(which: Comparison, a: ValueView, b: ValueView) -> Result<
    bool,
    ValueErrorView,
> {
    match relation(a, b) {
        Ok(r) => Ok(holds(which, r)),
        Err(e) => Err(e),
    }
}

/// The integer that a text spells, if it spells one.
pub fn spelled_integer(text: &String) -> (r: Option<i32>)
    ensures
        r == integer_literal(text@),
{
    let chars = chars_of(text.as_str());
    parse_integer(&chars)
}

/// Computes an arithmetic operator on two integers.
pub fn calculate(op: Operation, x: i32, y: i32) -> (r: Result<RBasicValue, ValueError>)
    ensures
        outcome_view(r) == arithmetic(op, x, y),
{
    let z = match op {
        Operation::Add => x.checked_add(y),
        Operation::Subtract => x.checked_sub(y),
        Operation::Multiply => x.checked_mul(y),
        Operation::Divide => {
            if y == 0 {
                return Err(ValueError::DivisionByZero);
            }
            x.checked_div(y)
        },
        Operation::Compare => {
            return Err(ValueError::Incompatible { op });
        },
    };
    match z {
        Some(z) => Ok(RBasicValue::Number(z)),
        None => Err(ValueError::Overflow),
    }
}

/// Applies an arithmetic operator to two values.
pub fn apply(op: Operation, a: RBasicValue, b: RBasicValue) -> (r: Result<RBasicValue, ValueError>)
    ensures
        outcome_view(r) == combine(op, a@, b@),
{
    match (a, b) {
        (RBasicValue::Number(x), RBasicValue::Number(y)) => calculate(op, x, y),
        (RBasicValue::String(s), RBasicValue::String(t)) => match op {
            Operation::Add => Ok(RBasicValue::String(s.concat(t.as_str()))),
            _ => Err(ValueError::Incompatible { op }),
        },
        (RBasicValue::Number(x), RBasicValue::String(t)) => match spelled_integer(&t) {
            Some(y) => calculate(op, x, y),
            None => Err(ValueError::Coercion { op, number: x, text: t, number_first: true }),
        },
        (RBasicValue::String(s), RBasicValue::Number(y)) => match spelled_integer(&s) {
            Some(x) => calculate(op, x, y),
            None => Err(ValueError::Coercion { op, number: y, text: s, number_first: false }),
        },
        _ => Err(ValueError::Incompatible { op }),
    }
}

/// Orders two texts by dictionary order.
pub fn order_texts(s: &String, t: &String) -> (r: Relation)
    ensures
        r == text_relation(s@, t@),
{
    let a = chars_of(s.as_str());
    let b = chars_of(t.as_str());
    let mut i: usize = 0;
    proof {
        assert(a@.skip(0) =~= a@);
        assert(b@.skip(0) =~= b@);
    }
    while i < a.len() && i < b.len()
        invariant
            i <= a@.len(),
            i <= b@.len(),
            a@ == s@,
            b@ == t@,
            text_relation(s@, t@) == text_relation(a@.skip(i as int), b@.skip(i as int)),
        decreases a@.len() - i,
    {
        proof {
            assert(a@.skip(i as int).skip(1) =~= a@.skip(i + 1));
            assert(b@.skip(i as int).skip(1) =~= b@.skip(i + 1));
            assert(a@.skip(i as int)[0] == a@[i as int]);
            assert(b@.skip(i as int)[0] == b@[i as int]);
        }
        if a[i] < b[i] {
            return Relation::Less;
        }
        if a[i] > b[i] {
            return Relation::Greater;
        }
        i = i + 1;
    }
    if i < b.len() {
        Relation::Less
    } else if i < a.len() {
        Relation::Greater
    } else {
        Relation::Equal
    }
}

/// Orders two integers.
pub fn order_numbers(x: i32, y: i32) -> (r: Relation)
    ensures
        r == int_relation(x as int, y as int),
{
    if x < y {
        Relation::Less
    } else if x == y {
        Relation::Equal
    } else {
        Relation::Greater
    }
}

impl Clone for RBasicValue {
    fn clone(&self) -> (r: Self)
        ensures
            r == *self,
    {
        match self {
            RBasicValue::String(s) => RBasicValue::String(s.clone()),
            RBasicValue::Number(n) => RBasicValue::Number(*n),
            RBasicValue::Bool(b) => RBasicValue::Bool(*b),
        }
    }
}

impl NegSpecImpl for RBasicValue {
    open spec fn obeys_neg_spec() -> bool {
        false
    }

    open spec fn neg_req(self) -> bool {
        true
    }

    open spec fn neg_spec(self) -> Result<RBasicValue, ValueError> {
        Err(ValueError::Negate)
    }
}

impl std::ops::Neg for RBasicValue {
    type Output = Result<RBasicValue, ValueError>;

    /// Unary minus.
    fn neg(self) -> (r: Result<RBasicValue, ValueError>)
        ensures
            outcome_view(r) == negation(self@),
    {
        match self {
            RBasicValue::Number(number) => match number.checked_sub(1) {
                Some(_) => Ok(RBasicValue::Number(-number)),
                None => Err(ValueError::Overflow),
            },
            _ => Err(ValueError::Negate),
        }
    }
}

impl NotSpecImpl for RBasicValue {
    open spec fn obeys_not_spec() -> bool {
        false
    }

    open spec fn not_req(self) -> bool {
        true
    }

    open spec fn not_spec(self) -> Result<RBasicValue, ValueError> {
        Err(ValueError::Not)
    }
}

impl std::ops::Not for RBasicValue {
    type Output = Result<RBasicValue, ValueError>;

    /// Logical not.
    fn not(self) -> (r: Result<RBasicValue, ValueError>)
        ensures
            outcome_view(r) == inversion(self@),
    {
        match self {
            RBasicValue::Bool(boolean) => Ok(RBasicValue::Bool(!boolean)),
            _ => Err(ValueError::Not),
        }
    }
}

impl AddSpecImpl for RBasicValue {
    open spec fn obeys_add_spec() -> bool {
        false
    }

    open spec fn add_req(self, other: RBasicValue) -> bool {
        true
    }

    open spec fn add_spec(self, other: RBasicValue) -> Result<RBasicValue, ValueError> {
        Err(ValueError::Incompatible { op: Operation::Add })
    }
}

impl std::ops::Add for RBasicValue {
    type Output = Result<RBasicValue, ValueError>;

    /// The sum of two numbers, or two texts joined.
    fn add(self, other: RBasicValue) -> (r: Result<RBasicValue, ValueError>)
        ensures
            outcome_view(r) == combine(Operation::Add, self@, other@),
    {
        apply(Operation::Add, self, other)
    }
}

impl SubSpecImpl for RBasicValue {
    open spec fn obeys_sub_spec() -> bool {
        false
    }

    open spec fn sub_req(self, other: RBasicValue) -> bool {
        true
    }

    open spec fn sub_spec(self, other: RBasicValue) -> Result<RBasicValue, ValueError> {
        Err(ValueError::Incompatible { op: Operation::Subtract })
    }
}

impl std::ops::Sub for RBasicValue {
    type Output = Result<RBasicValue, ValueError>;

    /// The difference of two numbers.
    fn sub(self, other: RBasicValue) -> (r: Result<RBasicValue, ValueError>)
        ensures
            outcome_view(r) == combine(Operation::Subtract, self@, other@),
    {
        apply(Operation::Subtract, self, other)
    }
}

impl MulSpecImpl for RBasicValue {
    open spec fn obeys_mul_spec() -> bool {
        false
    }

    open spec fn mul_req(self, other: RBasicValue) -> bool {
        true
    }

    open spec fn mul_spec(self, other: RBasicValue) -> Result<RBasicValue, ValueError> {
        Err(ValueError::Incompatible { op: Operation::Multiply })
    }
}

impl std::ops::Mul for RBasicValue {
    type Output = Result<RBasicValue, ValueError>;

    /// The product of two numbers.
    fn mul(self, other: RBasicValue) -> (r: Result<RBasicValue, ValueError>)
        ensures
            outcome_view(r) == combine(Operation::Multiply, self@, other@),
    {
        apply(Operation::Multiply, self, other)
    }
}

impl DivSpecImpl for RBasicValue {
    open spec fn obeys_div_spec() -> bool {
        false
    }

    open spec fn div_req(self, other: RBasicValue) -> bool {
        true
    }

    open spec fn div_spec(self, other: RBasicValue) -> Result<RBasicValue, ValueError> {
        Err(ValueError::Incompatible { op: Operation::Divide })
    }
}

impl std::ops::Div for RBasicValue {
    type Output = Result<RBasicValue, ValueError>;

    /// The quotient of two numbers, rounded towards zero.
    fn div(self, other: RBasicValue) -> (r: Result<RBasicValue, ValueError>)
        ensures
            outcome_view(r) == combine(Operation::Divide, self@, other@),
    {
        apply(Operation::Divide, self, other)
    }
}

impl RBasicValue {
    /// How this value stands to `other`.
    pub fn relate(&self, other: &RBasicValue) -> (r: Result<Relation, ValueError>)
        ensures
            verdict_view(r) == relation(self@, other@),
    {
        match (self, other) {
            (RBasicValue::Number(x), RBasicValue::Number(y)) => Ok(order_numbers(*x, *y)),
            (RBasicValue::String(s), RBasicValue::String(t)) => Ok(order_texts(s, t)),
            (RBasicValue::Bool(p), RBasicValue::Bool(q)) => Ok(
                order_numbers(if *p { 1 } else { 0 }, if *q { 1 } else { 0 }),
            ),
            (RBasicValue::Number(x), RBasicValue::String(t)) => match spelled_integer(t) {
                Some(y) => Ok(order_numbers(*x, y)),
                None => Err(
                    ValueError::Coercion {
                        op: Operation::Compare,
                        number: *x,
                        text: t.clone(),
                        number_first: true,
                    },
                ),
            },
            (RBasicValue::String(s), RBasicValue::Number(y)) => match spelled_integer(s) {
                Some(x) => Ok(order_numbers(x, *y)),
                None => Err(
                    ValueError::Coercion {
                        op: Operation::Compare,
                        number: *y,
                        text: s.clone(),
                        number_first: false,
                    },
                ),
            },
            _ => Err(ValueError::Incompatible { op: Operation::Compare }),
        }
    }

    /// Decides a comparison of this value with `other`.
    pub fn decide(&self, which: Comparison, other: &RBasicValue) -> (r: Result<bool, ValueError>)
        ensures
            verdict_view(r) == compare(which, self@, other@),
    {
        match self.relate(other) {
            Ok(o) => Ok(
                match which {
                    Comparison::Equal => matches!(o, Relation::Equal),
                    Comparison::NotEqual => !matches!(o, Relation::Equal),
                    Comparison::Less => matches!(o, Relation::Less),
                    Comparison::Greater => matches!(o, Relation::Greater),
                    Comparison::LessOrEqual => !matches!(o, Relation::Greater),
                    Comparison::GreaterOrEqual => !matches!(o, Relation::Less),
                },
            ),
            Err(e) => Err(e),
        }
    }

    /// Whether the two values are equal.
    pub fn eq(&self, other: &RBasicValue) -> (r: Result<bool, ValueError>)
        ensures
            verdict_view(r) == compare(Comparison::Equal, self@, other@),
    {
        self.decide(Comparison::Equal, other)
    }

    /// Whether the two values differ.
    pub fn neq(&self, other: &RBasicValue) -> (r: Result<bool, ValueError>)
        ensures
            verdict_view(r) == compare(Comparison::NotEqual, self@, other@),
    {
        self.decide(Comparison::NotEqual, other)
    }

    /// Whether this value comes before `other`.
    pub fn lt(&self, other: &RBasicValue) -> (r: Result<bool, ValueError>)
        ensures
            verdict_view(r) == compare(Comparison::Less, self@, other@),
    {
        self.decide(Comparison::Less, other)
    }

    /// Whether this value comes after `other`.
    pub fn gt(&self, other: &RBasicValue) -> (r: Result<bool, ValueError>)
        ensures
            verdict_view(r) == compare(Comparison::Greater, self@, other@),
    {
        self.decide(Comparison::Greater, other)
    }

    /// Whether this value does not come after `other`.
    pub fn lteq(&self, other: &RBasicValue) -> (r: Result<bool, ValueError>)
        ensures
            verdict_view(r) == compare(Comparison::LessOrEqual, self@, other@),
    {
        self.decide(Comparison::LessOrEqual, other)
    }

    /// Whether this value does not come before `other`.
    pub fn gteq(&self, other: &RBasicValue) -> (r: Result<bool, ValueError>)
        ensures
            verdict_view(r) == compare(Comparison::GreaterOrEqual, self@, other@),
    {
        self.decide(Comparison::GreaterOrEqual, other)
    }
}

/// The verb for an operation.
pub open spec fn verb(op: Operation) -> Seq<char> {
    match op {
        Operation::Add => "add"@,
        Operation::Subtract => "subtract"@,
        Operation::Multiply => "multiply"@,
        Operation::Divide => "divide"@,
        Operation::Compare => "compare"@,
    }
}

/// The message of a `ValueError`.
pub open spec fn value_error_text(e: ValueErrorView) -> Seq<char> {
    match e {
        ValueErrorView::Negate => "Cannot negate non-numeric values!"@,
        ValueErrorView::Not => "Cannot apply unary not to non-Boolean values."@,
        ValueErrorView::Coercion { op, number, text, number_first } => if number_first {
            "Cannot "@ + verb(op) + " integer "@ + signed_decimal(number as int) + " and string "@
                + text
        } else {
            "Cannot "@ + verb(op) + " string "@ + text + " and integer "@ + signed_decimal(
                number as int,
            )
        },
        ValueErrorView::Incompatible { op } => "Cannot "@ + verb(op) + " values of these types."@,
        ValueErrorView::DivisionByZero => "Cannot divide by zero."@,
        ValueErrorView::Overflow => "Result does not fit in 32 bits."@,
    }
}

impl Operation {
    /// The verb for the operation.
    pub fn verb(&self) -> (r: &'static str)
        ensures
            r@ == verb(*self),
    {
        match self {
            Operation::Add => "add",
            Operation::Subtract => "subtract",
            Operation::Multiply => "multiply",
            Operation::Divide => "divide",
            Operation::Compare => "compare",
        }
    }
}

impl ValueError {
    /// The message of the error.
    pub fn message(&self) -> (r: String)
        ensures
            r@ == value_error_text(self@),
    {
        match self {
            ValueError::Negate => "Cannot negate non-numeric values!".to_owned(),
            ValueError::Not => "Cannot apply unary not to non-Boolean values.".to_owned(),
            ValueError::Coercion { op, number, text, number_first } => {
                let mut out = "Cannot ".to_owned();
                out.append(op.verb());
                if *number_first {
                    out.append(" integer ");
                    push_signed_decimal(&mut out, *number);
                    out.append(" and string ");
                    out.append(text.as_str());
                } else {
                    out.append(" string ");
                    out.append(text.as_str());
                    out.append(" and integer ");
                    push_signed_decimal(&mut out, *number);
                }
                out
            },
            ValueError::Incompatible { op } => {
                let mut out = "Cannot ".to_owned();
                out.append(op.verb());
                out.append(" values of these types.");
                out
            },
            ValueError::DivisionByZero => "Cannot divide by zero.".to_owned(),
            ValueError::Overflow => "Result does not fit in 32 bits.".to_owned(),
        }
    }
}

} // verus!
