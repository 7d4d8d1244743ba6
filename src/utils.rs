//! Declared types, runtime values, and the two error taxonomies: syntax
//! errors from the parser and runtime errors from the evaluator.
use vstd::prelude::*;
use crate::text::{push_int_text, push_str, int_text};
use crate::token::{token_text, Token, TokenView};

verus! {

/// What went wrong in a statement that does not parse: the construct that
/// was expected, or an unexpected token.
#[derive(Clone, Copy, Debug, PartialEq, Eq, Structural)]
pub enum ParseErrorKind {
    UnexpectedToken,
    ExpectedColon,
    ExpectedTypeDefinition,
    ExpectedAssignment,
    ExpectedIdentifier,
    ExpectedOperand,
    ExpectedSemiColon,
    ExpectedClosingBracket,
    ExpectedLeftBracket,
    ExpectedIn,
    ExpectedDo,
    ExpectedRange,
    ExpectedFor,
    InvalidInteger,
}

/// A syntax error: what went wrong, and the token found.
#[derive(Debug, PartialEq)]
pub enum ParseError {
    UnexpectedToken(Token),
    ExpectedColon(Token),
    ExpectedTypeDefinition(Token),
    ExpectedAssignment(Token),
    ExpectedIdentifier(Token),
    ExpectedOperand(Token),
    ExpectedSemiColon(Token),
    ExpectedClosingBracket(Token),
    ExpectedLeftBracket(Token),
    ExpectedIn(Token),
    ExpectedDo(Token),
    ExpectedRange(Token),
    ExpectedFor(Token),
    /// An integer literal above `i32::MAX`.
    InvalidInteger(Token),
}

/// The mathematical value of a [`ParseError`].
pub struct ParseErrorView {
    pub kind: ParseErrorKind,
    pub token: TokenView,
}

impl View for ParseError {
    type V = ParseErrorView;

    open spec fn view(&self) -> ParseErrorView {
        match self {
            ParseError::UnexpectedToken(t) => ParseErrorView { kind: ParseErrorKind::UnexpectedToken, token: t@ },
            ParseError::ExpectedColon(t) => ParseErrorView { kind: ParseErrorKind::ExpectedColon, token: t@ },
            ParseError::ExpectedTypeDefinition(t) => ParseErrorView { kind: ParseErrorKind::ExpectedTypeDefinition, token: t@ },
            ParseError::ExpectedAssignment(t) => ParseErrorView { kind: ParseErrorKind::ExpectedAssignment, token: t@ },
            ParseError::ExpectedIdentifier(t) => ParseErrorView { kind: ParseErrorKind::ExpectedIdentifier, token: t@ },
            ParseError::ExpectedOperand(t) => ParseErrorView { kind: ParseErrorKind::ExpectedOperand, token: t@ },
            ParseError::ExpectedSemiColon(t) => ParseErrorView { kind: ParseErrorKind::ExpectedSemiColon, token: t@ },
            ParseError::ExpectedClosingBracket(t) => ParseErrorView { kind: ParseErrorKind::ExpectedClosingBracket, token: t@ },
            ParseError::ExpectedLeftBracket(t) => ParseErrorView { kind: ParseErrorKind::ExpectedLeftBracket, token: t@ },
            ParseError::ExpectedIn(t) => ParseErrorView { kind: ParseErrorKind::ExpectedIn, token: t@ },
            ParseError::ExpectedDo(t) => ParseErrorView { kind: ParseErrorKind::ExpectedDo, token: t@ },
            ParseError::ExpectedRange(t) => ParseErrorView { kind: ParseErrorKind::ExpectedRange, token: t@ },
            ParseError::ExpectedFor(t) => ParseErrorView { kind: ParseErrorKind::ExpectedFor, token: t@ },
            ParseError::InvalidInteger(t) => ParseErrorView { kind: ParseErrorKind::InvalidInteger, token: t@ },
        }
    }
}

impl Clone for ParseError {
    fn clone(&self) -> (r: ParseError)
        ensures
            r@ == self@,
    {
        let (kind, t) = self.parts();
        ParseError::new(kind, t.clone())
    }
}

/// The words naming what a syntax error expected.
pub open spec fn expected_text(kind: ParseErrorKind) -> Seq<char> {
    match kind {
        ParseErrorKind::UnexpectedToken => "token"@,
        ParseErrorKind::ExpectedColon => ":"@,
        ParseErrorKind::ExpectedTypeDefinition => "type definition"@,
        ParseErrorKind::ExpectedAssignment => ":="@,
        ParseErrorKind::ExpectedIdentifier => "identifier"@,
        ParseErrorKind::ExpectedOperand => "operand"@,
        ParseErrorKind::ExpectedSemiColon => ";"@,
        ParseErrorKind::ExpectedClosingBracket => ")"@,
        ParseErrorKind::ExpectedLeftBracket => "("@,
        ParseErrorKind::ExpectedIn => "in keyword"@,
        ParseErrorKind::ExpectedDo => "do keyword"@,
        ParseErrorKind::ExpectedRange => ".."@,
        ParseErrorKind::ExpectedFor => "for keyword"@,
        ParseErrorKind::InvalidInteger => "integer constant within 32 bits"@,
    }
}

/// The message of a syntax error.
pub open spec fn parse_error_text(e: ParseErrorView) -> Seq<char> {
    if e.kind == ParseErrorKind::UnexpectedToken {
        "Unexpected token: "@ + token_text(e.token)
    } else {
        "Expected "@ + expected_text(e.kind) + " got "@ + token_text(e.token)
    }
}

impl ParseError {
    /// The syntax error of the given kind about token `t`.
    pub fn new(kind: ParseErrorKind, t: Token) -> (r: ParseError)
        ensures
            r@ == (ParseErrorView { kind, token: t@ }),
    {
        match kind {
            ParseErrorKind::UnexpectedToken => ParseError::UnexpectedToken(t),
            ParseErrorKind::ExpectedColon => ParseError::ExpectedColon(t),
            ParseErrorKind::ExpectedTypeDefinition => ParseError::ExpectedTypeDefinition(t),
            ParseErrorKind::ExpectedAssignment => ParseError::ExpectedAssignment(t),
            ParseErrorKind::ExpectedIdentifier => ParseError::ExpectedIdentifier(t),
            ParseErrorKind::ExpectedOperand => ParseError::ExpectedOperand(t),
            ParseErrorKind::ExpectedSemiColon => ParseError::ExpectedSemiColon(t),
            ParseErrorKind::ExpectedClosingBracket => ParseError::ExpectedClosingBracket(t),
            ParseErrorKind::ExpectedLeftBracket => ParseError::ExpectedLeftBracket(t),
            ParseErrorKind::ExpectedIn => ParseError::ExpectedIn(t),
            ParseErrorKind::ExpectedDo => ParseError::ExpectedDo(t),
            ParseErrorKind::ExpectedRange => ParseError::ExpectedRange(t),
            ParseErrorKind::ExpectedFor => ParseError::ExpectedFor(t),
            ParseErrorKind::InvalidInteger => ParseError::InvalidInteger(t),
        }
    }

    /// The kind of the error and the token it names.
    pub fn parts(&self) -> (r: (ParseErrorKind, &Token))
        ensures
            r.0 == self@.kind,
            r.1@ == self@.token,
    {
        match self {
            ParseError::UnexpectedToken(t) => (ParseErrorKind::UnexpectedToken, t),
            ParseError::ExpectedColon(t) => (ParseErrorKind::ExpectedColon, t),
            ParseError::ExpectedTypeDefinition(t) => (ParseErrorKind::ExpectedTypeDefinition, t),
            ParseError::ExpectedAssignment(t) => (ParseErrorKind::ExpectedAssignment, t),
            ParseError::ExpectedIdentifier(t) => (ParseErrorKind::ExpectedIdentifier, t),
            ParseError::ExpectedOperand(t) => (ParseErrorKind::ExpectedOperand, t),
            ParseError::ExpectedSemiColon(t) => (ParseErrorKind::ExpectedSemiColon, t),
            ParseError::ExpectedClosingBracket(t) => (ParseErrorKind::ExpectedClosingBracket, t),
            ParseError::ExpectedLeftBracket(t) => (ParseErrorKind::ExpectedLeftBracket, t),
            ParseError::ExpectedIn(t) => (ParseErrorKind::ExpectedIn, t),
            ParseError::ExpectedDo(t) => (ParseErrorKind::ExpectedDo, t),
            ParseError::ExpectedRange(t) => (ParseErrorKind::ExpectedRange, t),
            ParseError::ExpectedFor(t) => (ParseErrorKind::ExpectedFor, t),
            ParseError::InvalidInteger(t) => (ParseErrorKind::InvalidInteger, t),
        }
    }

    /// The message of the error.
    pub fn to_string(&self) -> (r: String)
        ensures
            r@ == parse_error_text(self@),
    {
        let (kind, t) = self.parts();
        let mut s = String::new();
        match kind {
            ParseErrorKind::UnexpectedToken => {
                push_str(&mut s, "Unexpected token: ");
            },
            _ => {
                push_str(&mut s, "Expected ");
                push_str(&mut s, expected_words(kind));
                push_str(&mut s, " got ");
            },
        }
        let tt = t.to_string();
        push_str(&mut s, tt.as_str());
        proof {
            assert(s@ =~= parse_error_text(self@));
        }
        s
    }
}

fn expected_words(kind: ParseErrorKind) -> (r: &'static str)
    ensures
        r@ == expected_text(kind),
{
    match kind {
        ParseErrorKind::UnexpectedToken => "token",
        ParseErrorKind::ExpectedColon => ":",
        ParseErrorKind::ExpectedTypeDefinition => "type definition",
        ParseErrorKind::ExpectedAssignment => ":=",
        ParseErrorKind::ExpectedIdentifier => "identifier",
        ParseErrorKind::ExpectedOperand => "operand",
        ParseErrorKind::ExpectedSemiColon => ";",
        ParseErrorKind::ExpectedClosingBracket => ")",
        ParseErrorKind::ExpectedLeftBracket => "(",
        ParseErrorKind::ExpectedIn => "in keyword",
        ParseErrorKind::ExpectedDo => "do keyword",
        ParseErrorKind::ExpectedRange => "..",
        ParseErrorKind::ExpectedFor => "for keyword",
        ParseErrorKind::InvalidInteger => "integer constant within 32 bits",
    }
}

/// A runtime error of the evaluator.
#[derive(Debug, PartialEq)]
pub enum EvalError {
    MismatchedTypes,
    UnsupportedOperation,
    VariableNotInitialized(String),
    VariableAlreadyInitialized(String),
    SyntaxError,
    IOError(String),
    /// An integer division whose divisor is zero.
    DivisionByZero,
    /// An integer operation whose result does not fit in 32 bits.
    IntegerOverflow,
    /// A `read` found no line left in the input handed to the evaluator.
    InputExhausted,
}

/// The mathematical value of an [`EvalError`].
pub enum EvalErrorView {
    MismatchedTypes,
    UnsupportedOperation,
    VariableNotInitialized(Seq<char>),
    VariableAlreadyInitialized(Seq<char>),
    SyntaxError,
    IOError(Seq<char>),
    DivisionByZero,
    IntegerOverflow,
    InputExhausted,
}

impl View for EvalError {
    type V = EvalErrorView;

    open spec fn view(&self) -> EvalErrorView {
        match self {
            EvalError::MismatchedTypes => EvalErrorView::MismatchedTypes,
            EvalError::UnsupportedOperation => EvalErrorView::UnsupportedOperation,
            EvalError::VariableNotInitialized(s) => EvalErrorView::VariableNotInitialized(s@),
            EvalError::VariableAlreadyInitialized(s) => EvalErrorView::VariableAlreadyInitialized(s@),
            EvalError::SyntaxError => EvalErrorView::SyntaxError,
            EvalError::IOError(s) => EvalErrorView::IOError(s@),
            EvalError::DivisionByZero => EvalErrorView::DivisionByZero,
            EvalError::IntegerOverflow => EvalErrorView::IntegerOverflow,
            EvalError::InputExhausted => EvalErrorView::InputExhausted,
        }
    }
}

/// The message of a runtime error.
pub open spec fn eval_error_text(e: EvalErrorView) -> Seq<char> {
    "Failed with Error: "@ + match e {
        EvalErrorView::MismatchedTypes => "Mismatched types"@,
        EvalErrorView::UnsupportedOperation => "Unsupported operation"@,
        EvalErrorView::VariableNotInitialized(id) => "Variable "@ + id + " not initialized"@,
        EvalErrorView::VariableAlreadyInitialized(id) => "Variable "@ + id + " is already initialized"@,
        EvalErrorView::SyntaxError => "Syntax Error"@,
        EvalErrorView::IOError(msg) => msg,
        EvalErrorView::DivisionByZero => "Division by zero"@,
        EvalErrorView::IntegerOverflow => "Integer overflow"@,
        EvalErrorView::InputExhausted => "No input left to read"@,
    }
}

impl EvalError {
    /// The message of the error.
    pub fn to_string(&self) -> (r: String)
        ensures
            r@ == eval_error_text(self@),
    {
        let mut s = String::new();
        push_str(&mut s, "Failed with Error: ");
        match self {
            EvalError::MismatchedTypes => push_str(&mut s, "Mismatched types"),
            EvalError::UnsupportedOperation => push_str(&mut s, "Unsupported operation"),
            EvalError::VariableNotInitialized(id) => {
                push_str(&mut s, "Variable ");
                push_str(&mut s, id.as_str());
                push_str(&mut s, " not initialized");
            },
            EvalError::VariableAlreadyInitialized(id) => {
                push_str(&mut s, "Variable ");
                push_str(&mut s, id.as_str());
                push_str(&mut s, " is already initialized");
            },
            EvalError::SyntaxError => push_str(&mut s, "Syntax Error"),
            EvalError::IOError(msg) => push_str(&mut s, msg.as_str()),
            EvalError::DivisionByZero => push_str(&mut s, "Division by zero"),
            EvalError::IntegerOverflow => push_str(&mut s, "Integer overflow"),
            EvalError::InputExhausted => push_str(&mut s, "No input left to read"),
        }
        proof {
            assert(s@ =~= eval_error_text(self@));
        }
        s
    }
}

/// The declared type of a variable.
#[derive(Clone, Copy, Debug, PartialEq, Eq, Structural)]
pub enum Type {
    Boolean,
    String,
    Integer,
}

/// The keyword that names a declared type.
pub open spec fn type_text(t: Type) -> Seq<char> {
    match t {
        Type::Boolean => "bool"@,
        Type::String => "string"@,
        Type::Integer => "int"@,
    }
}

impl Type {
    /// The keyword that names the type.
    pub fn to_string(&self) -> (r: String)
        ensures
            r@ == type_text(*self),
    {
        match self {
            Type::Boolean => String::from_str("bool"),
            Type::String => String::from_str("string"),
            Type::Integer => String::from_str("int"),
        }
    }
}

/// A value produced by evaluation.
#[derive(Debug, PartialEq)]
pub enum Value {
    Bool(bool),
    String(String),
    Integer(i32),
}

/// The mathematical value of a [`Value`].
pub enum ValueView {
    Bool(bool),
    String(Seq<char>),
    Integer(i32),
}

impl View for Value {
    type V = ValueView;

    open spec fn view(&self) -> ValueView {
        match self {
            Value::Bool(b) => ValueView::Bool(*b),
            Value::String(s) => ValueView::String(s@),
            Value::Integer(i) => ValueView::Integer(*i),
        }
    }
}

impl Clone for Value {
    fn clone(&self) -> (r: Value)
        ensures
            r@ == self@,
    {
        match self {
            Value::Bool(b) => Value::Bool(*b),
            Value::String(s) => Value::String(s.clone()),
            Value::Integer(i) => Value::Integer(*i),
        }
    }
}

/// The printed form of a value: `true` or `false`, the decimal form of an
/// integer, the content of a string.
pub open spec fn value_text(v: ValueView) -> Seq<char> {
    match v {
        ValueView::Bool(b) => if b {
            "true"@
        } else {
            "false"@
        },
        ValueView::String(s) => s,
        ValueView::Integer(i) => int_text(i as int),
    }
}

impl Value {
    /// The printed form of the value.
    pub fn to_string(&self) -> (r: String)
        ensures
            r@ == value_text(self@),
    {
        let mut s = String::new();
        match self {
            Value::Bool(b) => {
                if *b {
                    push_str(&mut s, "true");
                } else {
                    push_str(&mut s, "false");
                }
            },
            Value::String(t) => push_str(&mut s, t.as_str()),
            Value::Integer(i) => push_int_text(&mut s, *i),
        }
        proof {
            assert(s@ =~= value_text(self@));
        }
        s
    }
}

} // verus!
