//! The lexical units of the language and the keyword table.
use vstd::prelude::*;
use crate::text::{chars_of, same_text};

verus! {

/// One lexical unit.
#[derive(Debug)]
pub enum Token {
    Identifier(String),
    IntegerConstant(String),
    StringValue(String),
    Plus,
    Minus,
    Multiplication,
    Division,
    Equals,
    LessThan,
    GreaterThan,
    Assign,
    Var,
    Print,
    Colon,
    True,
    False,
    Read,
    And,
    Not,
    For,
    In,
    Do,
    End,
    Range,
    Assert,
    LeftBracket,
    RightBracket,
    SemiColon,
    IntegerType,
    StringType,
    BooleanType,
    EOF,
    Illegal,
}

/// The mathematical value of a [`Token`]: its payload as a character
/// sequence.
pub enum TokenView {
    Identifier(Seq<char>),
    IntegerConstant(Seq<char>),
    StringValue(Seq<char>),
    Plus,
    Minus,
    Multiplication,
    Division,
    Equals,
    LessThan,
    GreaterThan,
    Assign,
    Var,
    Print,
    Colon,
    True,
    False,
    Read,
    And,
    Not,
    For,
    In,
    Do,
    End,
    Range,
    Assert,
    LeftBracket,
    RightBracket,
    SemiColon,
    IntegerType,
    StringType,
    BooleanType,
    EOF,
    Illegal,
}

impl View for Token {
    type V = TokenView;

    open spec fn view(&self) -> TokenView {
        match self {
            Token::Identifier(s) => TokenView::Identifier(s@),
            Token::IntegerConstant(s) => TokenView::IntegerConstant(s@),
            Token::StringValue(s) => TokenView::StringValue(s@),
            Token::Plus => TokenView::Plus,
            Token::Minus => TokenView::Minus,
            Token::Multiplication => TokenView::Multiplication,
            Token::Division => TokenView::Division,
            Token::Equals => TokenView::Equals,
            Token::LessThan => TokenView::LessThan,
            Token::GreaterThan => TokenView::GreaterThan,
            Token::Assign => TokenView::Assign,
            Token::Var => TokenView::Var,
            Token::Print => TokenView::Print,
            Token::Colon => TokenView::Colon,
            Token::True => TokenView::True,
            Token::False => TokenView::False,
            Token::Read => TokenView::Read,
            Token::And => TokenView::And,
            Token::Not => TokenView::Not,
            Token::For => TokenView::For,
            Token::In => TokenView::In,
            Token::Do => TokenView::Do,
            Token::End => TokenView::End,
            Token::Range => TokenView::Range,
            Token::Assert => TokenView::Assert,
            Token::LeftBracket => TokenView::LeftBracket,
            Token::RightBracket => TokenView::RightBracket,
            Token::SemiColon => TokenView::SemiColon,
            Token::IntegerType => TokenView::IntegerType,
            Token::StringType => TokenView::StringType,
            Token::BooleanType => TokenView::BooleanType,
            Token::EOF => TokenView::EOF,
            Token::Illegal => TokenView::Illegal,
        }
    }
}

impl PartialEq for Token {
    fn eq(&self, other: &Token) -> (r: bool) {
        match self {
            Token::Identifier(s) => match other {
                Token::Identifier(t) => s.eq(t),
                _ => false,
            },
            Token::IntegerConstant(s) => match other {
                Token::IntegerConstant(t) => s.eq(t),
                _ => false,
            },
            Token::StringValue(s) => match other {
                Token::StringValue(t) => s.eq(t),
                _ => false,
            },
            Token::Plus => matches!(other, Token::Plus),
            Token::Minus => matches!(other, Token::Minus),
            Token::Multiplication => matches!(other, Token::Multiplication),
            Token::Division => matches!(other, Token::Division),
            Token::Equals => matches!(other, Token::Equals),
            Token::LessThan => matches!(other, Token::LessThan),
            Token::GreaterThan => matches!(other, Token::GreaterThan),
            Token::Assign => matches!(other, Token::Assign),
            Token::Var => matches!(other, Token::Var),
            Token::Print => matches!(other, Token::Print),
            Token::Colon => matches!(other, Token::Colon),
            Token::True => matches!(other, Token::True),
            Token::False => matches!(other, Token::False),
            Token::Read => matches!(other, Token::Read),
            Token::And => matches!(other, Token::And),
            Token::Not => matches!(other, Token::Not),
            Token::For => matches!(other, Token::For),
            Token::In => matches!(other, Token::In),
            Token::Do => matches!(other, Token::Do),
            Token::End => matches!(other, Token::End),
            Token::Range => matches!(other, Token::Range),
            Token::Assert => matches!(other, Token::Assert),
            Token::LeftBracket => matches!(other, Token::LeftBracket),
            Token::RightBracket => matches!(other, Token::RightBracket),
            Token::SemiColon => matches!(other, Token::SemiColon),
            Token::IntegerType => matches!(other, Token::IntegerType),
            Token::StringType => matches!(other, Token::StringType),
            Token::BooleanType => matches!(other, Token::BooleanType),
            Token::EOF => matches!(other, Token::EOF),
            Token::Illegal => matches!(other, Token::Illegal),
        }
    }
}

impl vstd::std_specs::cmp::PartialEqSpecImpl for Token {
    open spec fn obeys_eq_spec() -> bool {
        true
    }

    open spec fn eq_spec(&self, other: &Token) -> bool {
        self@ == other@
    }
}

impl Clone for Token {
    fn clone(&self) -> (r: Token)
        ensures
            r == *self,
    {
        match self {
            Token::Identifier(s) => Token::Identifier(s.clone()),
            Token::IntegerConstant(s) => Token::IntegerConstant(s.clone()),
            Token::StringValue(s) => Token::StringValue(s.clone()),
            Token::Plus => Token::Plus,
            Token::Minus => Token::Minus,
            Token::Multiplication => Token::Multiplication,
            Token::Division => Token::Division,
            Token::Equals => Token::Equals,
            Token::LessThan => Token::LessThan,
            Token::GreaterThan => Token::GreaterThan,
            Token::Assign => Token::Assign,
            Token::Var => Token::Var,
            Token::Print => Token::Print,
            Token::Colon => Token::Colon,
            Token::True => Token::True,
            Token::False => Token::False,
            Token::Read => Token::Read,
            Token::And => Token::And,
            Token::Not => Token::Not,
            Token::For => Token::For,
            Token::In => Token::In,
            Token::Do => Token::Do,
            Token::End => Token::End,
            Token::Range => Token::Range,
            Token::Assert => Token::Assert,
            Token::LeftBracket => Token::LeftBracket,
            Token::RightBracket => Token::RightBracket,
            Token::SemiColon => Token::SemiColon,
            Token::IntegerType => Token::IntegerType,
            Token::StringType => Token::StringType,
            Token::BooleanType => Token::BooleanType,
            Token::EOF => Token::EOF,
            Token::Illegal => Token::Illegal,
        }
    }
}

/// The display form of a token: the payload of the payload-carrying tokens,
/// the lexeme of every other one, `EOF` and `Illegal Token!` for the two
/// markers.
pub open spec fn token_text(t: TokenView) -> Seq<char> {
    match t {
        TokenView::Identifier(s) => s,
        TokenView::IntegerConstant(s) => s,
        TokenView::StringValue(s) => s,
        TokenView::Plus => "+"@,
        TokenView::Minus => "-"@,
        TokenView::Multiplication => "*"@,
        TokenView::Division => "/"@,
        TokenView::Equals => "="@,
        TokenView::LessThan => "<"@,
        TokenView::GreaterThan => ">"@,
        TokenView::Assign => ":="@,
        TokenView::Var => "var"@,
        TokenView::Print => "print"@,
        TokenView::Colon => ":"@,
        TokenView::True => "true"@,
        TokenView::False => "false"@,
        TokenView::Read => "read"@,
        TokenView::And => "&"@,
        TokenView::Not => "!"@,
        TokenView::For => "for"@,
        TokenView::In => "in"@,
        TokenView::Do => "do"@,
        TokenView::End => "end"@,
        TokenView::Range => ".."@,
        TokenView::Assert => "assert"@,
        TokenView::LeftBracket => "("@,
        TokenView::RightBracket => ")"@,
        TokenView::SemiColon => ";"@,
        TokenView::IntegerType => "int"@,
        TokenView::StringType => "string"@,
        TokenView::BooleanType => "bool"@,
        TokenView::EOF => "EOF"@,
        TokenView::Illegal => "Illegal Token!"@,
    }
}

impl Token {
    /// The display form of the token.
    pub fn to_string(&self) -> (r: String)
        ensures
            r@ == token_text(self@),
    {
        match self {
            Token::Identifier(s) => s.clone(),
            Token::IntegerConstant(s) => s.clone(),
            Token::StringValue(s) => s.clone(),
            Token::Plus => String::from_str("+"),
            Token::Minus => String::from_str("-"),
            Token::Multiplication => String::from_str("*"),
            Token::Division => String::from_str("/"),
            Token::Equals => String::from_str("="),
            Token::LessThan => String::from_str("<"),
            Token::GreaterThan => String::from_str(">"),
            Token::Assign => String::from_str(":="),
            Token::Var => String::from_str("var"),
            Token::Print => String::from_str("print"),
            Token::Colon => String::from_str(":"),
            Token::True => String::from_str("true"),
            Token::False => String::from_str("false"),
            Token::Read => String::from_str("read"),
            Token::And => String::from_str("&"),
            Token::Not => String::from_str("!"),
            Token::For => String::from_str("for"),
            Token::In => String::from_str("in"),
            Token::Do => String::from_str("do"),
            Token::End => String::from_str("end"),
            Token::Range => String::from_str(".."),
            Token::Assert => String::from_str("assert"),
            Token::LeftBracket => String::from_str("("),
            Token::RightBracket => String::from_str(")"),
            Token::SemiColon => String::from_str(";"),
            Token::IntegerType => String::from_str("int"),
            Token::StringType => String::from_str("string"),
            Token::BooleanType => String::from_str("bool"),
            Token::EOF => String::from_str("EOF"),
            Token::Illegal => String::from_str("Illegal Token!"),
        }
    }
}

/// The token that a word stands for: a keyword when the word is one,
/// otherwise an identifier carrying the word.
pub open spec fn keyword_or_identifier(w: Seq<char>) -> TokenView {
    if w == "for"@ {
        TokenView::For
    } else if w == "in"@ {
        TokenView::In
    } else if w == "do"@ {
        TokenView::Do
    } else if w == "end"@ {
        TokenView::End
    } else if w == "true"@ {
        TokenView::True
    } else if w == "false"@ {
        TokenView::False
    } else if w == "var"@ {
        TokenView::Var
    } else if w == "print"@ {
        TokenView::Print
    } else if w == "bool"@ {
        TokenView::BooleanType
    } else if w == "string"@ {
        TokenView::StringType
    } else if w == "int"@ {
        TokenView::IntegerType
    } else if w == "assert"@ {
        TokenView::Assert
    } else if w == "read"@ {
        TokenView::Read
    } else {
        TokenView::Identifier(w)
    }
}

/// Whether a word is one of the keywords.
pub open spec fn is_keyword(w: Seq<char>) -> bool {
    !(keyword_or_identifier(w) is Identifier)
}

/// Looks a word up in the keyword table: a keyword token when it is one,
/// otherwise an identifier carrying the word.
pub fn get_id_or_key_token(lexeme: &str) -> (r: Token)
    ensures
        r@ == keyword_or_identifier(lexeme@),
{
    let w = chars_of(lexeme);
    if same_text(&w, "for") {
        Token::For
    } else if same_text(&w, "in") {
        Token::In
    } else if same_text(&w, "do") {
        Token::Do
    } else if same_text(&w, "end") {
        Token::End
    } else if same_text(&w, "true") {
        Token::True
    } else if same_text(&w, "false") {
        Token::False
    } else if same_text(&w, "var") {
        Token::Var
    } else if same_text(&w, "print") {
        Token::Print
    } else if same_text(&w, "bool") {
        Token::BooleanType
    } else if same_text(&w, "string") {
        Token::StringType
    } else if same_text(&w, "int") {
        Token::IntegerType
    } else if same_text(&w, "assert") {
        Token::Assert
    } else if same_text(&w, "read") {
        Token::Read
    } else {
        Token::Identifier(String::from_str(lexeme))
    }
}

} // verus!
