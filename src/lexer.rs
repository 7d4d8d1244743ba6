//! The tokenizer: a cursor over the characters of the source that hands out
//! one token per call.
use vstd::prelude::*;
use crate::text::{chars_of, push_char};
use crate::token::{get_id_or_key_token, keyword_or_identifier, Token, TokenView};

verus! {

/// Characters skipped between tokens.
pub open spec fn is_space(c: char) -> bool {
    c == ' ' || c == '\t' || c == '\n' || c == '\r'
}

/// ASCII letters: the characters that start a word.
pub open spec fn is_letter(c: char) -> bool {
    ('a' <= c && c <= 'z') || ('A' <= c && c <= 'Z')
}

/// ASCII digits: the characters of an integer literal.
pub open spec fn is_digit(c: char) -> bool {
    '0' <= c && c <= '9'
}

/// The characters that continue a word.
pub open spec fn is_word_char(c: char) -> bool {
    is_letter(c) || is_digit(c) || c == '_'
}

/// The character that an escape sequence `\c` stands for, if `c` names one.
pub open spec fn escaped(c: char) -> Option<char> {
    if c == '"' {
        Some('"')
    } else if c == '\\' {
        Some('\\')
    } else if c == 'n' {
        Some('\n')
    } else if c == 't' {
        Some('\t')
    } else {
        None
    }
}

/// The first position at or after `pos` that does not hold a space.
pub open spec fn skip_spaces(src: Seq<char>, pos: int) -> int
    decreases src.len() - pos,
{
    if 0 <= pos < src.len() && is_space(src[pos]) {
        skip_spaces(src, pos + 1)
    } else {
        pos
    }
}

/// The first position at or after `pos` that does not hold a word character.
pub open spec fn word_end(src: Seq<char>, pos: int) -> int
    decreases src.len() - pos,
{
    if 0 <= pos < src.len() && is_word_char(src[pos]) {
        word_end(src, pos + 1)
    } else {
        pos
    }
}

/// The first position at or after `pos` that does not hold a digit.
pub open spec fn digits_end(src: Seq<char>, pos: int) -> int
    decreases src.len() - pos,
{
    if 0 <= pos < src.len() && is_digit(src[pos]) {
        digits_end(src, pos + 1)
    } else {
        pos
    }
}

/// Scans the body of a string literal from `pos` (just after the opening
/// quote): the unescaped content, or `None` when an escape sequence is not
/// one of `\"`, `\\`, `\n`, `\t`; and the position of the closing quote, or
/// the end of the source when the literal is not closed.
pub open spec fn scan_string(src: Seq<char>, pos: int) -> (Option<Seq<char>>, int)
    decreases src.len() - pos,
{
    if pos < 0 || pos >= src.len() {
        (Some(Seq::empty()), src.len() as int)
    } else if src[pos] == '"' {
        (Some(Seq::empty()), pos)
    } else if src[pos] == '\\' {
        if pos + 1 >= src.len() {
            (None, src.len() as int)
        } else {
            let rest = scan_string(src, pos + 2);
            match (escaped(src[pos + 1]), rest.0) {
                (Some(c), Some(s)) => (Some(seq![c] + s), rest.1),
                _ => (None, rest.1),
            }
        }
    } else {
        let rest = scan_string(src, pos + 1);
        match rest.0 {
            Some(s) => (Some(seq![src[pos]] + s), rest.1),
            None => (None, rest.1),
        }
    }
}

/// The token of a single-character lexeme, if `c` is one.
pub open spec fn single_char_token(c: char) -> Option<TokenView> {
    if c == '+' {
        Some(TokenView::Plus)
    } else if c == '-' {
        Some(TokenView::Minus)
    } else if c == '*' {
        Some(TokenView::Multiplication)
    } else if c == '/' {
        Some(TokenView::Division)
    } else if c == ';' {
        Some(TokenView::SemiColon)
    } else if c == '&' {
        Some(TokenView::And)
    } else if c == '!' {
        Some(TokenView::Not)
    } else if c == '(' {
        Some(TokenView::LeftBracket)
    } else if c == ')' {
        Some(TokenView::RightBracket)
    } else if c == '=' {
        Some(TokenView::Equals)
    } else if c == '>' {
        Some(TokenView::GreaterThan)
    } else if c == '<' {
        Some(TokenView::LessThan)
    } else {
        None
    }
}

/// The token that starts at the first non-space position at or after `pos`,
/// and the position just after it. At the end of the source this is `EOF`
/// and the end position.
pub open spec fn next_token(src: Seq<char>, pos: int) -> (TokenView, int) {
    let p = skip_spaces(src, pos);
    if p < 0 || p >= src.len() {
        (TokenView::EOF, src.len() as int)
    } else {
        let c = src[p];
        if single_char_token(c) is Some {
            (single_char_token(c)->0, p + 1)
        } else if c == '.' {
            if p + 1 < src.len() && src[p + 1] == '.' {
                (TokenView::Range, p + 2)
            } else {
                (TokenView::Illegal, p + 1)
            }
        } else if c == ':' {
            if p + 1 < src.len() && src[p + 1] == '=' {
                (TokenView::Assign, p + 2)
            } else {
                (TokenView::Colon, p + 1)
            }
        } else if c == '"' {
            let (content, e) = scan_string(src, p + 1);
            let after = if e < src.len() { e + 1 } else { src.len() as int };
            match content {
                Some(s) => (TokenView::StringValue(s), after),
                None => (TokenView::Illegal, after),
            }
        } else if is_letter(c) {
            let e = word_end(src, p);
            (keyword_or_identifier(src.subrange(p, e)), e)
        } else if is_digit(c) {
            let e = digits_end(src, p);
            (TokenView::IntegerConstant(src.subrange(p, e)), e)
        } else {
            (TokenView::Illegal, p + 1)
        }
    }
}

pub proof fn lemma_skip_spaces_bounds(src: Seq<char>, pos: int)
    requires
        0 <= pos <= src.len(),
    ensures
        pos <= skip_spaces(src, pos) <= src.len(),
    decreases src.len() - pos,
{
    if pos < src.len() && is_space(src[pos]) {
        lemma_skip_spaces_bounds(src, pos + 1);
    }
}

pub proof fn lemma_word_end_bounds(src: Seq<char>, pos: int)
    requires
        0 <= pos <= src.len(),
    ensures
        pos <= word_end(src, pos) <= src.len(),
        forall|i: int| pos <= i < word_end(src, pos) ==> is_word_char(#[trigger] src[i]),
        word_end(src, pos) < src.len() ==> !is_word_char(src[word_end(src, pos)]),
    decreases src.len() - pos,
{
    if pos < src.len() && is_word_char(src[pos]) {
        lemma_word_end_bounds(src, pos + 1);
    }
}

pub proof fn lemma_digits_end_bounds(src: Seq<char>, pos: int)
    requires
        0 <= pos <= src.len(),
    ensures
        pos <= digits_end(src, pos) <= src.len(),
        forall|i: int| pos <= i < digits_end(src, pos) ==> is_digit(#[trigger] src[i]),
        digits_end(src, pos) < src.len() ==> !is_digit(src[digits_end(src, pos)]),
    decreases src.len() - pos,
{
    if pos < src.len() && is_digit(src[pos]) {
        lemma_digits_end_bounds(src, pos + 1);
    }
}

pub proof fn lemma_scan_string_bounds(src: Seq<char>, pos: int)
    requires
        0 <= pos <= src.len(),
    ensures
        pos <= scan_string(src, pos).1 <= src.len(),
    decreases src.len() - pos,
{
    if pos < src.len() {
        if src[pos] == '\\' {
            if pos + 1 < src.len() {
                lemma_scan_string_bounds(src, pos + 2);
            }
        } else if src[pos] != '"' {
            lemma_scan_string_bounds(src, pos + 1);
        }
    }
}

/// Every token but `EOF` consumes at least one character, and no token
/// moves past the end of the source.
pub proof fn lemma_next_token_progress(src: Seq<char>, pos: int)
    requires
        0 <= pos <= src.len(),
    ensures
        pos <= next_token(src, pos).1 <= src.len(),
        !(next_token(src, pos).0 is EOF) ==> pos < next_token(src, pos).1,
        next_token(src, pos).0 is EOF ==> next_token(src, pos).1 == src.len(),
{
    let p = skip_spaces(src, pos);
    lemma_skip_spaces_bounds(src, pos);
    if p < src.len() {
        lemma_word_end_bounds(src, p);
        lemma_digits_end_bounds(src, p);
        lemma_scan_string_bounds(src, p + 1);
        let c = src[p];
        if is_letter(c) {
            assert(is_word_char(src[p]));
        }
    }
}

/// All tokens of the source from `pos` on, up to and including `EOF`.
pub open spec fn tokens_from(src: Seq<char>, pos: int) -> Seq<TokenView>
    decreases src.len() - pos,
{
    if 0 <= pos <= src.len() {
        let (t, p) = next_token(src, pos);
        if t is EOF {
            seq![TokenView::EOF]
        } else {
            proof {
                lemma_next_token_progress(src, pos);
            }
            seq![t] + tokens_from(src, p)
        }
    } else {
        seq![TokenView::EOF]
    }
}

/// The token sequence of a source text, ending with `EOF`.
pub open spec fn tokenize(src: Seq<char>) -> Seq<TokenView> {
    tokens_from(src, 0)
}

/// The result of a string scan whose content so far is `pre` (`ok` is
/// false once a bad escape was met) and whose remainder scans to `rest`.
pub open spec fn with_prefix(ok: bool, pre: Seq<char>, rest: Option<Seq<char>>) -> Option<Seq<char>> {
    if ok {
        match rest {
            Some(s) => Some(pre + s),
            None => None,
        }
    } else {
        None
    }
}

/// Relies on `regex::Regex::new` and `regex::Regex::is_match`: the pattern
/// `[a-zA-Z0-9_]+` compiles, and it matches a one-character text exactly
/// when that character is an ASCII letter, an ASCII digit or `_`.
#[verifier::external_body]
fn word_pattern_matches(pattern: &str, c: char) -> (r: bool)
    requires
        pattern@ == "[a-zA-Z0-9_]+"@,
    ensures
        r == is_word_char(c),
{
    regex::Regex::new(pattern).unwrap().is_match(&c.to_string())
}

/// A cursor over the characters of a source text.
pub struct Lexer {
    source: Vec<char>,
    position: usize,
    current_char: Option<char>,
}

impl Lexer {
    /// The characters of the source.
    pub closed spec fn src(&self) -> Seq<char> {
        self.source@
    }

    /// The position of the cursor.
    pub closed spec fn pos(&self) -> int {
        self.position as int
    }

    /// The cursor lies within the source, and the current character is the
    /// one under it.
    pub closed spec fn wf(&self) -> bool {
        &&& self.position <= self.source@.len()
        &&& self.current_char == if self.position < self.source@.len() {
            Some(self.source@[self.position as int])
        } else {
            None
        }
    }

    /// The cursor of a well-formed lexer lies within its source.
    pub proof fn lemma_bounds(&self)
        requires
            self.wf(),
        ensures
            0 <= self.pos() <= self.src().len(),
    {
    }

    /// A lexer at the start of `source`.
    pub fn new(source: String) -> (r: Lexer)
        ensures
            r.wf(),
            r.src() == source@,
            r.pos() == 0,
    {
        let chars = chars_of(source.as_str());
        let current_char = if chars.len() > 0 {
            Some(chars[0])
        } else {
            None
        };
        Lexer { source: chars, position: 0, current_char }
    }

    fn advance(&mut self)
        requires
            old(self).wf(),
            old(self).position < old(self).source@.len(),
        ensures
            final(self).wf(),
            final(self).source@ == old(self).source@,
            final(self).position == old(self).position + 1,
    {
        let n = self.source.len();
        self.position = self.position + 1;
        if self.position < n {
            self.current_char = Some(self.source[self.position]);
        } else {
            self.current_char = None;
        }
    }

    fn peek(&self) -> (r: Option<char>)
        requires
            self.wf(),
        ensures
            r == if self.position + 1 < self.source@.len() {
                Some(self.source@[self.position + 1])
            } else {
                None
            },
    {
        let n = self.source.len();
        if self.position < n && n - self.position > 1 {
            Some(self.source[self.position + 1])
        } else {
            None
        }
    }

    fn read_identifier(&mut self) -> (r: String)
        requires
            old(self).wf(),
            old(self).position < old(self).source@.len(),
            is_word_char(old(self).source@[old(self).position as int]),
        ensures
            final(self).wf(),
            final(self).source@ == old(self).source@,
            final(self).position == word_end(old(self).source@, old(self).position as int),
            r@ == old(self).source@.subrange(old(self).position as int, final(self).position as int),
    {
        let ghost src = self.source@;
        let ghost start = self.position as int;
        let mut lexeme = String::new();
        while self.current_char.is_some() && word_pattern_matches(
            "[a-zA-Z0-9_]+",
            self.current_char.unwrap(),
        )
            invariant
                self.wf(),
                self.source@ == src,
                0 <= start <= self.position <= src.len(),
                word_end(src, start) == word_end(src, self.position as int),
                lexeme@ == src.subrange(start, self.position as int),
            decreases src.len() - self.position,
        {
            let c = self.current_char.unwrap();
            push_char(&mut lexeme, c);
            assert(lexeme@ =~= src.subrange(start, self.position + 1));
            self.advance();
        }
        lexeme
    }

    fn read_integer(&mut self) -> (r: String)
        requires
            old(self).wf(),
        ensures
            final(self).wf(),
            final(self).source@ == old(self).source@,
            final(self).position == digits_end(old(self).source@, old(self).position as int),
            r@ == old(self).source@.subrange(old(self).position as int, final(self).position as int),
    {
        let ghost src = self.source@;
        let ghost start = self.position as int;
        let mut lexeme = String::new();
        while self.current_char.is_some() && self.current_char.unwrap() >= '0'
            && self.current_char.unwrap() <= '9'
            invariant
                self.wf(),
                self.source@ == src,
                0 <= start <= self.position <= src.len(),
                digits_end(src, start) == digits_end(src, self.position as int),
                lexeme@ == src.subrange(start, self.position as int),
            decreases src.len() - self.position,
        {
            let c = self.current_char.unwrap();
            push_char(&mut lexeme, c);
            assert(lexeme@ =~= src.subrange(start, self.position + 1));
            self.advance();
        }
        lexeme
    }

    fn read_string(&mut self) -> (r: Option<String>)
        requires
            old(self).wf(),
        ensures
            final(self).wf(),
            final(self).source@ == old(self).source@,
            final(self).position == scan_string(old(self).source@, old(self).position as int).1,
            match r {
                Some(s) => scan_string(old(self).source@, old(self).position as int).0 == Some(s@),
                None => scan_string(old(self).source@, old(self).position as int).0 is None,
            },
    {
        let ghost src = self.source@;
        let ghost start = self.position as int;
        let mut lexeme = String::new();
        let mut ok = true;
        while self.current_char.is_some() && self.current_char.unwrap() != '"'
            invariant
                self.wf(),
                self.source@ == src,
                0 <= self.position <= src.len(),
                scan_string(src, start).1 == scan_string(src, self.position as int).1,
                scan_string(src, start).0 == with_prefix(
                    ok,
                    lexeme@,
                    scan_string(src, self.position as int).0,
                ),
            decreases src.len() - self.position,
        {
            let c = self.current_char.unwrap();
            let ghost p = self.position as int;
            if c == '\\' {
                let next = self.peek();
                self.advance();
                match next {
                    Some(d) => {
                        let ghost rest = scan_string(src, p + 2).0;
                        let e = if d == '"' {
                            Some('"')
                        } else if d == '\\' {
                            Some('\\')
                        } else if d == 'n' {
                            Some('\n')
                        } else if d == 't' {
                            Some('\t')
                        } else {
                            None
                        };
                        assert(e == escaped(d));
                        match e {
                            Some(ch) => {
                                let ghost before = lexeme@;
                                push_char(&mut lexeme, ch);
                                proof {
                                    if let Some(t) = rest {
                                        assert(before + (seq![ch] + t) =~= lexeme@ + t);
                                    }
                                }
                            },
                            None => {
                                ok = false;
                            },
                        }
                        self.advance();
                    },
                    None => {
                        ok = false;
                    },
                }
            } else {
                let ghost before = lexeme@;
                let ghost rest = scan_string(src, p + 1).0;
                push_char(&mut lexeme, c);
                proof {
                    if let Some(t) = rest {
                        assert(before + (seq![c] + t) =~= lexeme@ + t);
                    }
                }
                self.advance();
            }
        }
        if ok {
            proof {
                assert(lexeme@ + Seq::<char>::empty() =~= lexeme@);
            }
            Some(lexeme)
        } else {
            None
        }
    }

    fn skip_whitespace(&mut self)
        requires
            old(self).wf(),
        ensures
            final(self).wf(),
            final(self).source@ == old(self).source@,
            final(self).position == skip_spaces(old(self).source@, old(self).position as int),
    {
        let ghost src = self.source@;
        let ghost start = self.position as int;
        while self.current_char.is_some() && (self.current_char.unwrap() == ' '
            || self.current_char.unwrap() == '\t' || self.current_char.unwrap() == '\n'
            || self.current_char.unwrap() == '\r')
            invariant
                self.wf(),
                self.source@ == src,
                self.position <= src.len(),
                skip_spaces(src, start) == skip_spaces(src, self.position as int),
            decreases src.len() - self.position,
        {
            self.advance();
        }
    }

    /// The next token, and the cursor moved past it. At the end of the
    /// source this is `EOF`, on every call.
    pub fn get_next_token(&mut self) -> (t: Token)
        requires
            old(self).wf(),
        ensures
            final(self).wf(),
            final(self).src() == old(self).src(),
            (t@, final(self).pos()) == next_token(old(self).src(), old(self).pos()),
    {
        let ghost src = self.source@;
        let ghost start = self.position as int;
        self.skip_whitespace();
        proof {
            lemma_skip_spaces_bounds(src, start);
        }
        let c = match self.current_char {
            Some(c) => c,
            None => {
                return Token::EOF;
            },
        };
        let ghost p = self.position as int;
        if c == '+' {
            self.advance();
            Token::Plus
        } else if c == '-' {
            self.advance();
            Token::Minus
        } else if c == '*' {
            self.advance();
            Token::Multiplication
        } else if c == '/' {
            self.advance();
            Token::Division
        } else if c == ';' {
            self.advance();
            Token::SemiColon
        } else if c == '&' {
            self.advance();
            Token::And
        } else if c == '!' {
            self.advance();
            Token::Not
        } else if c == '(' {
            self.advance();
            Token::LeftBracket
        } else if c == ')' {
            self.advance();
            Token::RightBracket
        } else if c == '=' {
            self.advance();
            Token::Equals
        } else if c == '>' {
            self.advance();
            Token::GreaterThan
        } else if c == '<' {
            self.advance();
            Token::LessThan
        } else if c == '.' {
            let next = self.peek();
            self.advance();
            if next == Some('.') {
                self.advance();
                Token::Range
            } else {
                Token::Illegal
            }
        } else if c == ':' {
            let next = self.peek();
            self.advance();
            if next == Some('=') {
                self.advance();
                Token::Assign
            } else {
                Token::Colon
            }
        } else if c == '"' {
            self.advance();
            proof {
                lemma_scan_string_bounds(src, p + 1);
            }
            let content = self.read_string();
            if self.current_char.is_some() {
                self.advance();
            }
            match content {
                Some(s) => Token::StringValue(s),
                None => Token::Illegal,
            }
        } else if ('a' <= c && c <= 'z') || ('A' <= c && c <= 'Z') {
            let lexeme = self.read_identifier();
            get_id_or_key_token(lexeme.as_str())
        } else if '0' <= c && c <= '9' {
            let lexeme = self.read_integer();
            Token::IntegerConstant(lexeme)
        } else {
            self.advance();
            Token::Illegal
        }
    }
}

} // verus!
