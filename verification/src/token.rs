//! The tokens of a line of code.
use crate::text::{chars_of, spells};
use vstd::prelude::*;

verus! {

/// The smallest unit of a line: a literal, a name, an operator, a
/// parenthesis, a keyword, or the text of a comment.
#[derive(Debug, PartialEq)]
pub enum Token {
    Comment(String),
    // Variables and literals
    Variable(String),
    Number(i32),
    BString(String),
    // Binary operators
    Equals,
    LessThan,
    GreaterThan,
    LessThanEqual,
    GreaterThanEqual,
    NotEqual,
    Multiply,
    Divide,
    Minus,
    Plus,
    // Parentheses
    LParen,
    RParen,
    // Unary operators
    Bang,
    UMinus,
    // Keywords
    Goto,
    If,
    Input,
    Let,
    Print,
    Rem,
    Then,
}

/// What a token is: the same variants, with text as sequences of
/// characters.
pub enum TokenView {
    Comment(Seq<char>),
    Variable(Seq<char>),
    Number(i32),
    BString(Seq<char>),
    Equals,
    LessThan,
    GreaterThan,
    LessThanEqual,
    GreaterThanEqual,
    NotEqual,
    Multiply,
    Divide,
    Minus,
    Plus,
    LParen,
    RParen,
    Bang,
    UMinus,
    Goto,
    If,
    Input,
    Let,
    Print,
    Rem,
    Then,
}

/// The side to which operators of equal precedence group.
#[derive(Debug, Clone, Copy, PartialEq, Eq, Structural)]
pub enum Associativity {
    Left,
    Right,
}

/// The answer to a question about an operator that was asked of a token
/// that is no operator.
#[derive(Debug, Clone, Copy, PartialEq, Eq, Structural)]
pub struct NotAnOperator;

impl View for Token {
    type V = TokenView;

    open spec fn view(&self) -> TokenView {
        match self {
            Token::Comment(s) => TokenView::Comment(s@),
            Token::Variable(s) => TokenView::Variable(s@),
            Token::Number(n) => TokenView::Number(*n),
            Token::BString(s) => TokenView::BString(s@),
            Token::Equals => TokenView::Equals,
            Token::LessThan => TokenView::LessThan,
            Token::GreaterThan => TokenView::GreaterThan,
            Token::LessThanEqual => TokenView::LessThanEqual,
            Token::GreaterThanEqual => TokenView::GreaterThanEqual,
            Token::NotEqual => TokenView::NotEqual,
            Token::Multiply => TokenView::Multiply,
            Token::Divide => TokenView::Divide,
            Token::Minus => TokenView::Minus,
            Token::Plus => TokenView::Plus,
            Token::LParen => TokenView::LParen,
            Token::RParen => TokenView::RParen,
            Token::Bang => TokenView::Bang,
            Token::UMinus => TokenView::UMinus,
            Token::Goto => TokenView::Goto,
            Token::If => TokenView::If,
            Token::Input => TokenView::Input,
            Token::Let => TokenView::Let,
            Token::Print => TokenView::Print,
            Token::Rem => TokenView::Rem,
            Token::Then => TokenView::Then,
        }
    }
}

impl TokenView {
    /// One of the six comparisons.
    pub open spec fn is_comparison_operator(self) -> bool {
        self is Equals || self is LessThan || self is GreaterThan || self is LessThanEqual
            || self is GreaterThanEqual || self is NotEqual
    }

    /// One of the two operators that take one operand.
    pub open spec fn is_unary_operator(self) -> bool {
        self is UMinus || self is Bang
    }

    /// One of the four operators of arithmetic.
    pub open spec fn is_arithmetic_operator(self) -> bool {
        self is Multiply || self is Divide || self is Minus || self is Plus
    }

    /// An operator of any kind.
    pub open spec fn is_operator(self) -> bool {
        self.is_comparison_operator() || self.is_arithmetic_operator()
            || self.is_unary_operator()
    }

    /// An operator that takes two operands.
    pub open spec fn is_binary_operator(self) -> bool {
        self.is_operator() && !self.is_unary_operator()
    }

    /// A literal or a variable.
    pub open spec fn is_value(self) -> bool {
        self is Variable || self is Number || self is BString
    }

    /// How tightly an operator binds: unary operators most, then
    /// multiplication and division, then addition and subtraction, then the
    /// comparisons.
    pub open spec fn precedence(self) -> u8
        recommends
            self.is_operator(),
    {
        if self.is_unary_operator() {
            12
        } else if self is Multiply || self is Divide {
            10
        } else if self is Minus || self is Plus {
            8
        } else {
            4
        }
    }

    /// Unary operators group to the right, all others to the left.
    pub open spec fn associativity(self) -> Associativity {
        if self.is_unary_operator() {
            Associativity::Right
        } else {
            Associativity::Left
        }
    }
}

/// The token that a word of the fixed table stands for: the operators, the
/// parentheses and the keywords. The word `-` is the binary minus.
pub open spec fn table_token(word: Seq<char>) -> Option<TokenView> {
    if word == "="@ {
        Some(TokenView::Equals)
    } else if word == "<"@ {
        Some(TokenView::LessThan)
    } else if word == ">"@ {
        Some(TokenView::GreaterThan)
    } else if word == "<="@ {
        Some(TokenView::LessThanEqual)
    } else if word == ">="@ {
        Some(TokenView::GreaterThanEqual)
    } else if word == "<>"@ {
        Some(TokenView::NotEqual)
    } else if word == "*"@ {
        Some(TokenView::Multiply)
    } else if word == "/"@ {
        Some(TokenView::Divide)
    } else if word == "-"@ {
        Some(TokenView::Minus)
    } else if word == "+"@ {
        Some(TokenView::Plus)
    } else if word == "("@ {
        Some(TokenView::LParen)
    } else if word == ")"@ {
        Some(TokenView::RParen)
    } else if word == "!"@ {
        Some(TokenView::Bang)
    } else if word == "GOTO"@ {
        Some(TokenView::Goto)
    } else if word == "IF"@ {
        Some(TokenView::If)
    } else if word == "INPUT"@ {
        Some(TokenView::Input)
    } else if word == "LET"@ {
        Some(TokenView::Let)
    } else if word == "PRINT"@ {
        Some(TokenView::Print)
    } else if word == "REM"@ {
        Some(TokenView::Rem)
    } else if word == "THEN"@ {
        Some(TokenView::Then)
    } else {
        None
    }
}

/// The view of an optional token.
pub open spec fn option_view(t: Option<Token>) -> Option<TokenView> {
    match t {
        Some(t) => Some(t@),
        None => None,
    }
}

impl Clone for Token {
    fn clone(&self) -> (r: Self)
        ensures
            r == *self,
    {
        match self {
            Token::Comment(s) => Token::Comment(s.clone()),
            Token::Variable(s) => Token::Variable(s.clone()),
            Token::Number(n) => Token::Number(*n),
            Token::BString(s) => Token::BString(s.clone()),
            Token::Equals => Token::Equals,
            Token::LessThan => Token::LessThan,
            Token::GreaterThan => Token::GreaterThan,
            Token::LessThanEqual => Token::LessThanEqual,
            Token::GreaterThanEqual => Token::GreaterThanEqual,
            Token::NotEqual => Token::NotEqual,
            Token::Multiply => Token::Multiply,
            Token::Divide => Token::Divide,
            Token::Minus => Token::Minus,
            Token::Plus => Token::Plus,
            Token::LParen => Token::LParen,
            Token::RParen => Token::RParen,
            Token::Bang => Token::Bang,
            Token::UMinus => Token::UMinus,
            Token::Goto => Token::Goto,
            Token::If => Token::If,
            Token::Input => Token::Input,
            Token::Let => Token::Let,
            Token::Print => Token::Print,
            Token::Rem => Token::Rem,
            Token::Then => Token::Then,
        }
    }
}

impl Token {
    /// Looks a word up in the fixed table of operators, parentheses and
    /// keywords.
    pub fn token_for_string(token_str: &str) -> (r: Option<Token>)
        ensures
            option_view(r) == table_token(token_str@),
    {
        let word = chars_of(token_str);
        if spells(&word, "=") {
            Some(Token::Equals)
        } else if spells(&word, "<") {
            Some(Token::LessThan)
        } else if spells(&word, ">") {
            Some(Token::GreaterThan)
        } else if spells(&word, "<=") {
            Some(Token::LessThanEqual)
        } else if spells(&word, ">=") {
            Some(Token::GreaterThanEqual)
        } else if spells(&word, "<>") {
            Some(Token::NotEqual)
        } else if spells(&word, "*") {
            Some(Token::Multiply)
        } else if spells(&word, "/") {
            Some(Token::Divide)
        } else if spells(&word, "-") {
            Some(Token::Minus)
        } else if spells(&word, "+") {
            Some(Token::Plus)
        } else if spells(&word, "(") {
            Some(Token::LParen)
        } else if spells(&word, ")") {
            Some(Token::RParen)
        } else if spells(&word, "!") {
            Some(Token::Bang)
        } else if spells(&word, "GOTO") {
            Some(Token::Goto)
        } else if spells(&word, "IF") {
            Some(Token::If)
        } else if spells(&word, "INPUT") {
            Some(Token::Input)
        } else if spells(&word, "LET") {
            Some(Token::Let)
        } else if spells(&word, "PRINT") {
            Some(Token::Print)
        } else if spells(&word, "REM") {
            Some(Token::Rem)
        } else if spells(&word, "THEN") {
            Some(Token::Then)
        } else {
            None
        }
    }

    pub fn is_operator(&self) -> (r: bool)
        ensures
            r == self@.is_operator(),
    {
        match *self {
            Token::Equals
            | Token::LessThan
            | Token::GreaterThan
            | Token::LessThanEqual
            | Token::GreaterThanEqual
            | Token::NotEqual
            | Token::Multiply
            | Token::Divide
            | Token::Minus
            | Token::Plus
            | Token::UMinus
            | Token::Bang => true,
            _ => false,
        }
    }

    pub fn is_comparison_operator(&self) -> (r: bool)
        ensures
            r == self@.is_comparison_operator(),
    {
        match *self {
            Token::Equals
            | Token::LessThan
            | Token::GreaterThan
            | Token::LessThanEqual
            | Token::GreaterThanEqual
            | Token::NotEqual => true,
            _ => false,
        }
    }

    pub fn is_unary_operator(&self) -> (r: bool)
        ensures
            r == self@.is_unary_operator(),
    {
        match *self {
            Token::UMinus | Token::Bang => true,
            _ => false,
        }
    }

    pub fn is_binary_operator(&self) -> (r: bool)
        ensures
            r == self@.is_binary_operator(),
    {
        self.is_operator() && !self.is_unary_operator()
    }

    pub fn is_value(&self) -> (r: bool)
        ensures
            r == self@.is_value(),
    {
        match *self {
            Token::Variable(_) | Token::Number(_) | Token::BString(_) => true,
            _ => false,
        }
    }

    /// The precedence of an operator; of any other token, an error.
    pub fn operator_precedence(&self) -> (r: Result<u8, NotAnOperator>)
        ensures
            r == if self@.is_operator() {
                Ok::<u8, NotAnOperator>(self@.precedence())
            } else {
                Err::<u8, NotAnOperator>(NotAnOperator)
            },
    {
        if !self.is_operator() {
            return Err(NotAnOperator);
        }
        match *self {
            Token::UMinus | Token::Bang => Ok(12),
            Token::Multiply | Token::Divide => Ok(10),
            Token::Minus | Token::Plus => Ok(8),
            _ => Ok(4),
        }
    }

    /// The associativity of an operator. Every token has one: whatever is
    /// no unary operator groups to the left.
    pub fn operator_associavity(&self) -> (r: Result<Associativity, NotAnOperator>)
        ensures
            r == Ok::<Associativity, NotAnOperator>(self@.associativity()),
    {
        match *self {
            Token::UMinus | Token::Bang => Ok(Associativity::Right),
            _ => Ok(Associativity::Left),
        }
    }
}

} // verus!
