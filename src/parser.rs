//! The recursive-descent parser. It pulls tokens from a [`Lexer`], keeps a
//! current and a lookahead token, and collects the syntax errors of every
//! statement that does not parse, going on at the next `;`.
//!
//! Its meaning is given by spec functions over the token sequence `ts` of
//! the source. Each takes the index `k` of the current token and yields the
//! parsed item with the number of tokens moved over until the item's last
//! token (which is then current), or the error with the number of tokens
//! moved over until the offending one.
use vstd::prelude::*;
use crate::ast::{BinaryOperator, ExprView, Expression, Program, Statement, StmtView, UnaryOperator};
use crate::lexer::{next_token, tokens_from, lemma_next_token_progress, Lexer};
use crate::text::{integer_literal, integer_literal_value};
use crate::token::{Token, TokenView};
use crate::utils::{ParseError, ParseErrorKind, ParseErrorView, Type};

verus! {

/// The outcome of a parse step in the spec functions: the item and the
/// number of tokens moved over, or the error and the number of tokens moved
/// over until the offending token.
pub type Parsed<T> = Result<(T, nat), (ParseErrorView, nat)>;

/// The token at index `k`; `EOF` outside the sequence.
pub open spec fn tok(ts: Seq<TokenView>, k: int) -> TokenView {
    if 0 <= k < ts.len() {
        ts[k]
    } else {
        TokenView::EOF
    }
}

/// How many tokens are left from `k` on: the measure that parsing reduces.
pub open spec fn rest(ts: Seq<TokenView>, k: int) -> int {
    if k < ts.len() {
        ts.len() - k
    } else {
        0
    }
}

/// The error of the given kind about the token at index `k + n`.
pub open spec fn fail<T>(kind: ParseErrorKind, ts: Seq<TokenView>, k: int, n: nat) -> Parsed<T> {
    Err((ParseErrorView { kind, token: tok(ts, k + n) }, n))
}

/// An outcome of a step that started `n` tokens later.
pub open spec fn shift<T>(r: Parsed<T>, n: nat) -> Parsed<T> {
    match r {
        Ok((v, m)) => Ok((v, n + m)),
        Err((e, m)) => Err((e, n + m)),
    }
}

/// The tokens at which an expression ends: it is followed by them.
pub open spec fn ends_expression(t: TokenView) -> bool {
    t is SemiColon || t is RightBracket || t is Range || t is Do || t is End
}

/// The binary operator that a token stands for.
pub open spec fn binary_op_of(t: TokenView) -> Option<BinaryOperator> {
    match t {
        TokenView::Plus => Some(BinaryOperator::Plus),
        TokenView::Minus => Some(BinaryOperator::Minus),
        TokenView::Multiplication => Some(BinaryOperator::Multiplication),
        TokenView::Division => Some(BinaryOperator::Division),
        TokenView::Equals => Some(BinaryOperator::Equals),
        TokenView::LessThan => Some(BinaryOperator::LessThan),
        TokenView::GreaterThan => Some(BinaryOperator::GreaterThan),
        TokenView::And => Some(BinaryOperator::And),
        _ => None,
    }
}

/// The declared type that a token names.
pub open spec fn type_of_token(t: TokenView) -> Option<Type> {
    match t {
        TokenView::BooleanType => Some(Type::Boolean),
        TokenView::IntegerType => Some(Type::Integer),
        TokenView::StringType => Some(Type::String),
        _ => None,
    }
}

/// An expression: `!` followed by a binary chain, or a binary chain.
pub open spec fn parse_expression_at(ts: Seq<TokenView>, k: int) -> Parsed<ExprView>
    decreases rest(ts, k), 2int,
{
    if tok(ts, k) is Not {
        match parse_binary_at(ts, k + 1) {
            Ok((e, n)) => Ok((ExprView::Unary(UnaryOperator::Not, Box::new(e)), n + 1)),
            Err((e, n)) => Err((e, n + 1)),
        }
    } else {
        parse_binary_at(ts, k)
    }
}

/// A binary chain: an operand, and unless the next token ends the
/// expression, an operator and the chain that follows as its right operand.
pub open spec fn parse_binary_at(ts: Seq<TokenView>, k: int) -> Parsed<ExprView>
    decreases rest(ts, k), 1int,
{
    match parse_operand_at(ts, k) {
        Err(e) => Err(e),
        Ok((left, n)) => {
            let j = k + n;
            if ends_expression(tok(ts, j + 1)) {
                Ok((left, n))
            } else {
                match binary_op_of(tok(ts, j + 1)) {
                    None => fail(ParseErrorKind::UnexpectedToken, ts, k, n + 1),
                    Some(op) => match parse_binary_at(ts, j + 2) {
                        Ok((right, m)) => Ok(
                            (ExprView::Binary(Box::new(left), op, Box::new(right)), n + 2 + m),
                        ),
                        Err((e, m)) => Err((e, n + 2 + m)),
                    },
                }
            }
        },
    }
}

/// An operand: an identifier, a literal, or an expression in parentheses.
pub open spec fn parse_operand_at(ts: Seq<TokenView>, k: int) -> Parsed<ExprView>
    decreases rest(ts, k), 0int,
{
    match tok(ts, k) {
        TokenView::Identifier(s) => Ok((ExprView::Identifier(s), 0)),
        TokenView::IntegerConstant(d) => match integer_literal_value(d) {
            Some(v) => Ok((ExprView::IntegerConstant(v), 0)),
            None => fail(ParseErrorKind::InvalidInteger, ts, k, 0),
        },
        TokenView::StringValue(s) => Ok((ExprView::StringValue(s), 0)),
        TokenView::True => Ok((ExprView::Boolean(true), 0)),
        TokenView::False => Ok((ExprView::Boolean(false), 0)),
        TokenView::LeftBracket => match parse_expression_at(ts, k + 1) {
            Ok((e, n)) => if tok(ts, k + n + 2) is RightBracket {
                Ok((e, n + 2))
            } else {
                fail(ParseErrorKind::ExpectedClosingBracket, ts, k, n + 2)
            },
            Err((e, n)) => Err((e, n + 1)),
        },
        _ => fail(ParseErrorKind::ExpectedOperand, ts, k, 0),
    }
}

/// An expression followed by `;`: the expression and the offset of the `;`.
pub open spec fn expression_then_semicolon(ts: Seq<TokenView>, k: int) -> Parsed<ExprView> {
    match parse_expression_at(ts, k) {
        Ok((e, n)) => if tok(ts, k + n + 1) is SemiColon {
            Ok((e, n + 1))
        } else {
            fail(ParseErrorKind::ExpectedSemiColon, ts, k, n + 1)
        },
        Err(e) => Err(e),
    }
}

/// `<id> := <expr> ;`
#[verifier::opaque]
pub open spec fn parse_assignment_at(ts: Seq<TokenView>, k: int) -> Parsed<StmtView> {
    match tok(ts, k) {
        TokenView::Identifier(id) => if tok(ts, k + 1) is Assign {
            match shift(expression_then_semicolon(ts, k + 2), 2) {
                Ok((e, n)) => Ok((StmtView::Assignment(id, e), n)),
                Err(e) => Err(e),
            }
        } else {
            fail(ParseErrorKind::ExpectedAssignment, ts, k, 1)
        },
        _ => fail(ParseErrorKind::ExpectedIdentifier, ts, k, 0),
    }
}

/// `var <id> : <type> ;` or `var <id> : <type> := <expr> ;`
#[verifier::opaque]
pub open spec fn parse_new_assignment_at(ts: Seq<TokenView>, k: int) -> Parsed<StmtView> {
    match tok(ts, k + 1) {
        TokenView::Identifier(id) => if !(tok(ts, k + 2) is Colon) {
            fail(ParseErrorKind::ExpectedColon, ts, k, 2)
        } else {
            match type_of_token(tok(ts, k + 3)) {
                None => fail(ParseErrorKind::ExpectedTypeDefinition, ts, k, 3),
                Some(t) => if tok(ts, k + 4) is SemiColon {
                    Ok((StmtView::VarInitialization(id, t), 4))
                } else if !(tok(ts, k + 4) is Assign) {
                    fail(ParseErrorKind::ExpectedAssignment, ts, k, 4)
                } else {
                    match shift(expression_then_semicolon(ts, k + 5), 5) {
                        Ok((e, n)) => Ok((StmtView::NewAssignment(id, t, e), n)),
                        Err(e) => Err(e),
                    }
                },
            }
        },
        _ => fail(ParseErrorKind::ExpectedIdentifier, ts, k, 1),
    }
}

/// `assert ( <expr> ) ;`
#[verifier::opaque]
pub open spec fn parse_assert_at(ts: Seq<TokenView>, k: int) -> Parsed<StmtView> {
    if !(tok(ts, k + 1) is LeftBracket) {
        fail(ParseErrorKind::ExpectedLeftBracket, ts, k, 1)
    } else {
        match parse_expression_at(ts, k + 2) {
            Ok((e, n)) => if !(tok(ts, k + n + 3) is RightBracket) {
                fail(ParseErrorKind::ExpectedClosingBracket, ts, k, n + 3)
            } else if !(tok(ts, k + n + 4) is SemiColon) {
                fail(ParseErrorKind::ExpectedSemiColon, ts, k, n + 4)
            } else {
                Ok((StmtView::Assert(e), n + 4))
            },
            Err((e, n)) => Err((e, n + 2)),
        }
    }
}

/// `print <expr> ;`
#[verifier::opaque]
pub open spec fn parse_print_at(ts: Seq<TokenView>, k: int) -> Parsed<StmtView> {
    match shift(expression_then_semicolon(ts, k + 1), 1) {
        Ok((e, n)) => Ok((StmtView::Print(e), n)),
        Err(e) => Err(e),
    }
}

/// `read <id> ;`
#[verifier::opaque]
pub open spec fn parse_read_at(ts: Seq<TokenView>, k: int) -> Parsed<StmtView> {
    match tok(ts, k + 1) {
        TokenView::Identifier(id) => if tok(ts, k + 2) is SemiColon {
            Ok((StmtView::Read(id), 2))
        } else {
            fail(ParseErrorKind::ExpectedSemiColon, ts, k, 2)
        },
        _ => fail(ParseErrorKind::ExpectedIdentifier, ts, k, 1),
    }
}

/// One statement, chosen by its first token; its last token is its `;`.
pub open spec fn parse_statement_at(ts: Seq<TokenView>, k: int) -> Parsed<StmtView>
    decreases rest(ts, k), 2int,
{
    match tok(ts, k) {
        TokenView::Identifier(_) => parse_assignment_at(ts, k),
        TokenView::Var => parse_new_assignment_at(ts, k),
        TokenView::For => parse_for_at(ts, k),
        TokenView::Assert => parse_assert_at(ts, k),
        TokenView::Print => parse_print_at(ts, k),
        TokenView::Read => parse_read_at(ts, k),
        _ => fail(ParseErrorKind::UnexpectedToken, ts, k, 0),
    }
}

/// `for <id> in <expr> .. <expr> do <stmt>* end for ;`
#[verifier::opaque]
pub open spec fn parse_for_at(ts: Seq<TokenView>, k: int) -> Parsed<StmtView>
    decreases rest(ts, k), 1int,
{
    match tok(ts, k + 1) {
        TokenView::Identifier(id) => if !(tok(ts, k + 2) is In) {
            fail(ParseErrorKind::ExpectedIn, ts, k, 2)
        } else {
            match parse_expression_at(ts, k + 3) {
                Err((e, n)) => Err((e, n + 3)),
                Ok((a, n)) => if !(tok(ts, k + n + 4) is Range) {
                    fail(ParseErrorKind::ExpectedRange, ts, k, n + 4)
                } else {
                    match parse_expression_at(ts, k + n + 5) {
                        Err((e, m)) => Err((e, n + m + 5)),
                        Ok((b, m)) => if !(tok(ts, k + n + m + 6) is Do) {
                            fail(ParseErrorKind::ExpectedDo, ts, k, n + m + 6)
                        } else {
                            match parse_body_at(ts, k + n + m + 7) {
                                Err((e, p)) => Err((e, n + m + p + 7)),
                                Ok((body, p)) => if !(tok(ts, k + n + m + p + 8) is For) {
                                    fail(ParseErrorKind::ExpectedFor, ts, k, n + m + p + 8)
                                } else if !(tok(ts, k + n + m + p + 9) is SemiColon) {
                                    fail(ParseErrorKind::ExpectedSemiColon, ts, k, n + m + p + 9)
                                } else {
                                    Ok((StmtView::For(id, a, b, body), n + m + p + 9))
                                },
                            }
                        },
                    }
                },
            }
        },
        _ => fail(ParseErrorKind::ExpectedIdentifier, ts, k, 1),
    }
}

/// The statements of a loop body, up to the `end` token (which is then
/// current). The first statement that does not parse ends the loop with its
/// error.
pub open spec fn parse_body_at(ts: Seq<TokenView>, k: int) -> Parsed<Seq<StmtView>>
    decreases rest(ts, k), 3int,
{
    if tok(ts, k) is End {
        Ok((Seq::empty(), 0))
    } else if k >= ts.len() {
        fail(ParseErrorKind::UnexpectedToken, ts, k, 0)
    } else {
        match parse_statement_at(ts, k) {
            Err(e) => Err(e),
            Ok((s, n)) => match parse_body_at(ts, k + n + 1) {
                Ok((ss, p)) => Ok((seq![s] + ss, n + 1 + p)),
                Err((e, p)) => Err((e, n + 1 + p)),
            },
        }
    }
}

/// The number of tokens from `k` to the next `;` (or to `EOF`): where the
/// parser goes on after a statement that does not parse.
pub open spec fn skip_to_terminator(ts: Seq<TokenView>, k: int) -> nat
    decreases rest(ts, k),
{
    if tok(ts, k) is SemiColon || tok(ts, k) is EOF {
        0
    } else {
        1 + skip_to_terminator(ts, k + 1)
    }
}

/// The statements that parse from `k` on, in order, and the errors of the
/// statements that do not, in order.
pub open spec fn parse_program_at(ts: Seq<TokenView>, k: int) -> (Seq<StmtView>, Seq<ParseErrorView>)
    decreases rest(ts, k),
{
    if tok(ts, k) is EOF {
        (Seq::empty(), Seq::empty())
    } else {
        match parse_statement_at(ts, k) {
            Ok((s, n)) => {
                let r = parse_program_at(ts, k + n + 1);
                (seq![s] + r.0, r.1)
            },
            Err((e, n)) => {
                let r = parse_program_at(ts, k + n + skip_to_terminator(ts, k + n) + 1);
                (r.0, seq![e] + r.1)
            },
        }
    }
}

/// What a source text parses to: its statements and its syntax errors.
pub open spec fn parse_source(src: Seq<char>) -> (Seq<StmtView>, Seq<ParseErrorView>) {
    parse_program_at(tokens_from(src, 0), 0)
}

pub(crate) proof fn lemma_statement_for(ts: Seq<TokenView>, k: int)
    requires
        tok(ts, k) is For,
    ensures
        parse_statement_at(ts, k) == parse_for_at(ts, k),
{
    reveal(parse_for_at);
}

/// An executable parse result agrees with a spec outcome, having moved
/// `moved` tokens.
pub open spec fn agrees<T: View>(r: Result<T, ParseError>, s: Parsed<T::V>, moved: int) -> bool {
    &&& moved >= 0
    &&& match r {
        Ok(v) => s == Parsed::<T::V>::Ok((v@, moved as nat)),
        Err(e) => s == Parsed::<T::V>::Err((e@, moved as nat)),
    }
}

/// The mathematical values of a sequence of boxed statements.
pub open spec fn boxed_views(v: Seq<Box<Statement>>) -> Seq<StmtView> {
    Seq::new(v.len(), |i: int| v[i]@)
}

/// The mathematical values of a sequence of statements.
pub open spec fn stmt_views(v: Seq<Statement>) -> Seq<StmtView> {
    Seq::new(v.len(), |i: int| v[i]@)
}

/// The mathematical values of a sequence of syntax errors.
pub open spec fn error_views(v: Seq<ParseError>) -> Seq<ParseErrorView> {
    Seq::new(v.len(), |i: int| v[i]@)
}

type ParseResult<T> = Result<T, ParseError>;

/// The parser: a lexer, the current and the lookahead token, and the
/// syntax errors collected so far.
pub struct Parser {
    lexer: Lexer,
    current_token: Token,
    peek_token: Token,
    errors: Vec<ParseError>,
    tokens: Ghost<Seq<TokenView>>,
    index: Ghost<int>,
}

impl Parser {
    /// The token sequence that the parser reads: that of its lexer's source
    /// from where the lexer stood when the parser was made.
    pub closed spec fn tokens(&self) -> Seq<TokenView> {
        self.tokens@
    }

    /// The index of the current token in [`Parser::tokens`].
    pub closed spec fn index(&self) -> int {
        self.index@
    }

    /// The syntax errors collected so far.
    pub closed spec fn errors(&self) -> Seq<ParseErrorView> {
        error_views(self.errors@)
    }

    /// The current and lookahead tokens are those at the index and after
    /// it, and the lexer stands just after the lookahead token.
    pub closed spec fn wf(&self) -> bool {
        let ts = self.tokens@;
        let k = self.index@;
        let j = if k + 2 < ts.len() - 1 {
            k + 2
        } else {
            ts.len() - 1
        };
        &&& self.lexer.wf()
        &&& ts.len() >= 1
        &&& k >= -2
        &&& self.current_token@ == tok(ts, k)
        &&& self.peek_token@ == tok(ts, k + 1)
        &&& tokens_from(self.lexer.src(), self.lexer.pos()) == ts.subrange(j, ts.len() as int)
    }

    /// A parser over the tokens that `lexer` has left; the first of them is
    /// current.
    pub fn new(lexer: Lexer) -> (r: Parser)
        requires
            lexer.wf(),
        ensures
            r.wf(),
            r.tokens() == tokens_from(lexer.src(), lexer.pos()),
            r.index() == 0,
            r.errors() == Seq::<ParseErrorView>::empty(),
    {
        let ghost ts = tokens_from(lexer.src(), lexer.pos());
        proof {
            lexer.lemma_bounds();
            assert(ts.subrange(0, ts.len() as int) =~= ts);
        }
        let mut parser = Parser {
            lexer,
            current_token: Token::EOF,
            peek_token: Token::EOF,
            errors: Vec::new(),
            tokens: Ghost(ts),
            index: Ghost(-2),
        };
        parser.next_token();
        parser.next_token();
        assert(parser.errors() =~= Seq::<ParseErrorView>::empty());
        parser
    }

    /// The syntax errors collected so far.
    pub fn get_errors(&self) -> (r: &[ParseError])
        ensures
            error_views(r@) == self.errors(),
    {
        self.errors.as_slice()
    }

    fn next_token(&mut self)
        requires
            old(self).wf(),
        ensures
            final(self).wf(),
            final(self).tokens() == old(self).tokens(),
            final(self).index() == old(self).index() + 1,
            final(self).errors@ == old(self).errors@,
    {
        let ghost ts = self.tokens@;
        let ghost k = self.index@;
        let ghost j = if k + 2 < ts.len() - 1 {
            k + 2
        } else {
            ts.len() - 1
        };
        let ghost src = self.lexer.src();
        let ghost pos = self.lexer.pos();
        proof {
            self.lexer.lemma_bounds();
            lemma_next_token_progress(src, pos);
        }
        let next = self.peek_token.clone();
        self.current_token = next;
        self.peek_token = self.lexer.get_next_token();
        self.index = Ghost(k + 1);
        proof {
            let (t, p) = next_token(src, pos);
            assert(tokens_from(src, pos) == ts.subrange(j, ts.len() as int));
            if t is EOF {
                assert(tokens_from(src, pos) == seq![TokenView::EOF]);
                assert(j == ts.len() - 1);
                assert(ts[j] is EOF);
                assert(next_token(src, src.len() as int).0 is EOF);
                assert(tokens_from(src, src.len() as int) == seq![TokenView::EOF]);
                assert(ts.subrange(j, ts.len() as int) =~= seq![TokenView::EOF]);
            } else {
                assert(tokens_from(src, pos) == seq![t] + tokens_from(src, p));
                assert(ts.subrange(j, ts.len() as int)[0] == t);
                assert(j < ts.len() - 1);
                assert(ts.subrange(j + 1, ts.len() as int) =~= ts.subrange(j, ts.len() as int).subrange(
                    1,
                    ts.len() - j,
                ));
                assert(tokens_from(src, p) =~= (seq![t] + tokens_from(src, p)).subrange(
                    1,
                    ts.len() - j,
                ));
            }
        }
    }

    fn get_current_token(&mut self) -> (r: Token)
        requires
            old(self).wf(),
        ensures
            *final(self) == *old(self),
            r@ == tok(old(self).tokens(), old(self).index()),
    {
        self.current_token.clone()
    }

    fn is_end_of_exp(&self) -> (r: bool)
        requires
            self.wf(),
        ensures
            r == ends_expression(tok(self.tokens(), self.index() + 1)),
    {
        match self.peek_token {
            Token::SemiColon => true,
            Token::RightBracket => true,
            Token::Range => true,
            Token::Do => true,
            Token::End => true,
            _ => false,
        }
    }

    fn expect_current_token(&mut self, expected: Token, kind: ParseErrorKind) -> (r: ParseResult<()>)
        requires
            old(self).wf(),
        ensures
            *final(self) == *old(self),
            match r {
                Ok(_) => tok(old(self).tokens(), old(self).index()) == expected@,
                Err(e) => tok(old(self).tokens(), old(self).index()) != expected@ && e@ == (
                ParseErrorView { kind, token: tok(old(self).tokens(), old(self).index()) }),
            },
    {
        if expected == self.current_token {
            Ok(())
        } else {
            Err(ParseError::new(kind, self.get_current_token()))
        }
    }

    fn expect_and_advance(&mut self, expected: Token, kind: ParseErrorKind) -> (r: ParseResult<()>)
        requires
            old(self).wf(),
        ensures
            final(self).wf(),
            final(self).tokens() == old(self).tokens(),
            final(self).errors@ == old(self).errors@,
            match r {
                Ok(_) => tok(old(self).tokens(), old(self).index()) == expected@ && final(self).index()
                    == old(self).index() + 1,
                Err(e) => tok(old(self).tokens(), old(self).index()) != expected@ && e@ == (
                ParseErrorView { kind, token: tok(old(self).tokens(), old(self).index()) })
                    && final(self).index() == old(self).index(),
            },
    {
        self.expect_current_token(expected, kind)?;
        self.next_token();
        Ok(())
    }

    fn parse_identifier(&mut self) -> (r: ParseResult<String>)
        requires
            old(self).wf(),
        ensures
            *final(self) == *old(self),
            match tok(old(self).tokens(), old(self).index()) {
                TokenView::Identifier(id) => r is Ok && r->Ok_0@ == id,
                t => r is Err && r->Err_0@ == (ParseErrorView {
                    kind: ParseErrorKind::ExpectedIdentifier,
                    token: t,
                }),
            },
    {
        match &self.current_token {
            Token::Identifier(id) => Ok(id.clone()),
            _ => Err(ParseError::new(ParseErrorKind::ExpectedIdentifier, self.get_current_token())),
        }
    }

    fn parse_op(&mut self) -> (r: ParseResult<BinaryOperator>)
        requires
            old(self).wf(),
        ensures
            *final(self) == *old(self),
            match binary_op_of(tok(old(self).tokens(), old(self).index())) {
                Some(op) => r == Ok::<BinaryOperator, ParseError>(op),
                None => r is Err && r->Err_0@ == (ParseErrorView {
                    kind: ParseErrorKind::UnexpectedToken,
                    token: tok(old(self).tokens(), old(self).index()),
                }),
            },
    {
        match self.current_token {
            Token::Plus => Ok(BinaryOperator::Plus),
            Token::Minus => Ok(BinaryOperator::Minus),
            Token::Multiplication => Ok(BinaryOperator::Multiplication),
            Token::Division => Ok(BinaryOperator::Division),
            Token::Equals => Ok(BinaryOperator::Equals),
            Token::LessThan => Ok(BinaryOperator::LessThan),
            Token::GreaterThan => Ok(BinaryOperator::GreaterThan),
            Token::And => Ok(BinaryOperator::And),
            _ => Err(ParseError::new(ParseErrorKind::UnexpectedToken, self.get_current_token())),
        }
    }

    fn parse_expression(&mut self) -> (r: ParseResult<Expression>)
        requires
            old(self).wf(),
        ensures
            final(self).wf(),
            final(self).tokens() == old(self).tokens(),
            final(self).errors@ == old(self).errors@,
            agrees(r, parse_expression_at(old(self).tokens(), old(self).index()), final(self).index() - old(self).index()),
        decreases rest(old(self).tokens(), old(self).index()), 3int,
    {
        match self.current_token {
            Token::Not => self.parse_unary(UnaryOperator::Not),
            _ => self.parse_binary(),
        }
    }

    fn parse_unary(&mut self, op: UnaryOperator) -> (r: ParseResult<Expression>)
        requires
            old(self).wf(),
            tok(old(self).tokens(), old(self).index()) is Not,
        ensures
            final(self).wf(),
            final(self).tokens() == old(self).tokens(),
            final(self).errors@ == old(self).errors@,
            agrees(r, parse_expression_at(old(self).tokens(), old(self).index()), final(self).index() - old(self).index()),
        decreases rest(old(self).tokens(), old(self).index()), 2int,
    {
        self.next_token();
        let exp = self.parse_binary()?;
        Ok(Expression::Unary(op, Box::new(exp)))
    }

    fn parse_binary(&mut self) -> (r: ParseResult<Expression>)
        requires
            old(self).wf(),
        ensures
            final(self).wf(),
            final(self).tokens() == old(self).tokens(),
            final(self).errors@ == old(self).errors@,
            agrees(r, parse_binary_at(old(self).tokens(), old(self).index()), final(self).index() - old(self).index()),
        decreases rest(old(self).tokens(), old(self).index()), 1int,
    {
        let left = self.parse_operand()?;
        if self.is_end_of_exp() {
            return Ok(left);
        }
        self.next_token();
        let op = self.parse_op()?;
        self.next_token();
        let right = self.parse_binary()?;
        Ok(Expression::Binary(Box::new(left), op, Box::new(right)))
    }

    fn parse_operand(&mut self) -> (r: ParseResult<Expression>)
        requires
            old(self).wf(),
        ensures
            final(self).wf(),
            final(self).tokens() == old(self).tokens(),
            final(self).errors@ == old(self).errors@,
            agrees(r, parse_operand_at(old(self).tokens(), old(self).index()), final(self).index() - old(self).index()),
        decreases rest(old(self).tokens(), old(self).index()), 0int,
    {
        let operand = match self.get_current_token() {
            Token::Identifier(id) => Expression::Identifier(id),
            Token::IntegerConstant(digits) => match integer_literal(digits.as_str()) {
                Some(v) => Expression::IntegerConstant(v),
                None => {
                    return Err(
                        ParseError::new(ParseErrorKind::InvalidInteger, Token::IntegerConstant(digits)),
                    );
                },
            },
            Token::StringValue(s) => Expression::StringValue(s),
            Token::True => Expression::Boolean(true),
            Token::False => Expression::Boolean(false),
            Token::LeftBracket => {
                self.next_token();
                let exp = self.parse_expression()?;
                self.next_token();
                self.expect_current_token(Token::RightBracket, ParseErrorKind::ExpectedClosingBracket)?;
                exp
            },
            invalid => {
                return Err(ParseError::new(ParseErrorKind::ExpectedOperand, invalid));
            },
        };
        Ok(operand)
    }

    fn parse_statement(&mut self) -> (r: ParseResult<Statement>)
        requires
            old(self).wf(),
        ensures
            final(self).wf(),
            final(self).tokens() == old(self).tokens(),
            final(self).errors@ == old(self).errors@,
            agrees(r, parse_statement_at(old(self).tokens(), old(self).index()), final(self).index() - old(self).index()),
        decreases rest(old(self).tokens(), old(self).index()), 2int,
    {
        let ghost ts = self.tokens@;
        let ghost k = self.index@;
        let current = self.get_current_token();
        let r = match current {
            Token::Identifier(_) => self.parse_assignment(),
            Token::Var => self.parse_new_assignment(),
            Token::For => self.parse_for(),
            Token::Assert => self.parse_assert(),
            Token::Print => self.parse_print(),
            Token::Read => self.parse_read(),
            other => Err(ParseError::new(ParseErrorKind::UnexpectedToken, other)),
        };
        proof {
            if tok(ts, k) is For {
                lemma_statement_for(ts, k);
            }
        }
        r
    }

    #[verifier::rlimit(100)]
    fn parse_for(&mut self) -> (r: ParseResult<Statement>)
        requires
            old(self).wf(),
        ensures
            final(self).wf(),
            final(self).tokens() == old(self).tokens(),
            final(self).errors@ == old(self).errors@,
            agrees(r, parse_for_at(old(self).tokens(), old(self).index()), final(self).index() - old(self).index()),
        decreases rest(old(self).tokens(), old(self).index()), 1int,
    {
        proof {
            reveal(parse_for_at);
        }
        self.next_token();
        let identifier = self.parse_identifier()?;
        self.next_token();
        self.expect_and_advance(Token::In, ParseErrorKind::ExpectedIn)?;
        let exp1 = self.parse_expression()?;
        self.next_token();
        self.expect_and_advance(Token::Range, ParseErrorKind::ExpectedRange)?;
        let exp2 = self.parse_expression()?;
        self.next_token();
        self.expect_and_advance(Token::Do, ParseErrorKind::ExpectedDo)?;
        let stmts = self.parse_body()?;
        self.next_token();
        self.expect_and_advance(Token::For, ParseErrorKind::ExpectedFor)?;
        self.expect_current_token(Token::SemiColon, ParseErrorKind::ExpectedSemiColon)?;
        let r = Statement::For(identifier, exp1, exp2, stmts);
        proof {
            assert(r@->For_3 =~= boxed_views(stmts@));
        }
        Ok(r)
    }

    fn parse_body(&mut self) -> (r: ParseResult<Vec<Box<Statement>>>)
        requires
            old(self).wf(),
        ensures
            final(self).wf(),
            final(self).tokens() == old(self).tokens(),
            final(self).errors@ == old(self).errors@,
            final(self).index() >= old(self).index(),
            match r {
                Ok(v) => parse_body_at(old(self).tokens(), old(self).index()) == Parsed::<Seq<StmtView>>::Ok(
                    (boxed_views(v@), (final(self).index() - old(self).index()) as nat),
                ),
                Err(e) => parse_body_at(old(self).tokens(), old(self).index()) == Parsed::<Seq<StmtView>>::Err(
                    (e@, (final(self).index() - old(self).index()) as nat),
                ),
            },
        decreases rest(old(self).tokens(), old(self).index()), 3int,
    {
        let ghost ts = self.tokens@;
        let ghost start = self.index@;
        let mut stmts: Vec<Box<Statement>> = Vec::new();
        assert(boxed_views(stmts@) + Seq::<StmtView>::empty() =~= Seq::<StmtView>::empty());
        while !matches!(self.current_token, Token::End)
            invariant
                self.wf(),
                self.tokens@ == ts,
                old(self).tokens@ == ts,
                old(self).index@ == start,
                self.errors@ == old(self).errors@,
                start <= self.index@,
                rest(ts, self.index@) <= rest(ts, start),
                match parse_body_at(ts, self.index@) {
                    Ok((ss, p)) => parse_body_at(ts, start) == Parsed::<Seq<StmtView>>::Ok(
                        (boxed_views(stmts@) + ss, (self.index@ - start + p) as nat),
                    ),
                    Err((e, p)) => parse_body_at(ts, start) == Parsed::<Seq<StmtView>>::Err(
                        (e, (self.index@ - start + p) as nat),
                    ),
                },
            decreases rest(ts, self.index@),
        {
            let ghost j = self.index@;
            let stmt = self.parse_statement()?;
            let ghost sv = stmt@;
            let ghost n = (self.index@ - j) as nat;
            let ghost old_views = boxed_views(stmts@);
            stmts.push(Box::new(stmt));
            self.next_token();
            proof {
                assert(parse_statement_at(ts, j) == Parsed::<StmtView>::Ok((sv, n)));
                assert(j < ts.len());
                assert(!(tok(ts, j) is End));
                assert(self.index@ == j + n + 1);
                assert(parse_body_at(ts, j) == match parse_body_at(ts, j + n + 1) {
                    Ok((ss, p)) => Parsed::<Seq<StmtView>>::Ok((seq![sv] + ss, n + 1 + p)),
                    Err((e, p)) => Parsed::<Seq<StmtView>>::Err((e, n + 1 + p)),
                });
                assert(boxed_views(stmts@) =~= old_views.push(sv));
                match parse_body_at(ts, self.index@) {
                    Ok((ss, p)) => {
                        assert(old_views + (seq![sv] + ss) =~= boxed_views(stmts@) + ss);
                    },
                    Err(_) => {},
                }
            }
        }
        proof {
            assert(boxed_views(stmts@) + Seq::<StmtView>::empty() =~= boxed_views(stmts@));
        }
        Ok(stmts)
    }

    fn parse_assignment(&mut self) -> (r: ParseResult<Statement>)
        requires
            old(self).wf(),
        ensures
            final(self).wf(),
            final(self).tokens() == old(self).tokens(),
            final(self).errors@ == old(self).errors@,
            agrees(r, parse_assignment_at(old(self).tokens(), old(self).index()), final(self).index() - old(self).index()),
    {
        proof {
            reveal(parse_assignment_at);
        }
        let identifier = self.parse_identifier()?;
        self.next_token();
        self.expect_and_advance(Token::Assign, ParseErrorKind::ExpectedAssignment)?;
        let exp = self.parse_expression()?;
        self.next_token();
        self.expect_current_token(Token::SemiColon, ParseErrorKind::ExpectedSemiColon)?;
        Ok(Statement::Assignment(identifier, exp))
    }

    fn parse_new_assignment(&mut self) -> (r: ParseResult<Statement>)
        requires
            old(self).wf(),
        ensures
            final(self).wf(),
            final(self).tokens() == old(self).tokens(),
            final(self).errors@ == old(self).errors@,
            agrees(r, parse_new_assignment_at(old(self).tokens(), old(self).index()), final(self).index() - old(self).index()),
    {
        proof {
            reveal(parse_new_assignment_at);
        }
        self.next_token();
        let identifier = self.parse_identifier()?;
        self.next_token();
        self.expect_and_advance(Token::Colon, ParseErrorKind::ExpectedColon)?;
        let type_def = match self.current_token {
            Token::BooleanType => Type::Boolean,
            Token::IntegerType => Type::Integer,
            Token::StringType => Type::String,
            _ => {
                return Err(
                    ParseError::new(ParseErrorKind::ExpectedTypeDefinition, self.get_current_token()),
                );
            },
        };
        self.next_token();
        if matches!(self.current_token, Token::SemiColon) {
            return Ok(Statement::VarInitialization(identifier, type_def));
        }
        self.expect_and_advance(Token::Assign, ParseErrorKind::ExpectedAssignment)?;
        let exp = self.parse_expression()?;
        self.next_token();
        self.expect_current_token(Token::SemiColon, ParseErrorKind::ExpectedSemiColon)?;
        Ok(Statement::NewAssignment(identifier, type_def, exp))
    }

    fn parse_print(&mut self) -> (r: ParseResult<Statement>)
        requires
            old(self).wf(),
        ensures
            final(self).wf(),
            final(self).tokens() == old(self).tokens(),
            final(self).errors@ == old(self).errors@,
            agrees(r, parse_print_at(old(self).tokens(), old(self).index()), final(self).index() - old(self).index()),
    {
        proof {
            reveal(parse_print_at);
        }
        self.next_token();
        let exp = self.parse_expression()?;
        self.next_token();
        self.expect_current_token(Token::SemiColon, ParseErrorKind::ExpectedSemiColon)?;
        Ok(Statement::Print(exp))
    }

    fn parse_read(&mut self) -> (r: ParseResult<Statement>)
        requires
            old(self).wf(),
        ensures
            final(self).wf(),
            final(self).tokens() == old(self).tokens(),
            final(self).errors@ == old(self).errors@,
            agrees(r, parse_read_at(old(self).tokens(), old(self).index()), final(self).index() - old(self).index()),
    {
        proof {
            reveal(parse_read_at);
        }
        self.next_token();
        let identifier = self.parse_identifier()?;
        self.next_token();
        self.expect_current_token(Token::SemiColon, ParseErrorKind::ExpectedSemiColon)?;
        Ok(Statement::Read(identifier))
    }

    fn parse_assert(&mut self) -> (r: ParseResult<Statement>)
        requires
            old(self).wf(),
        ensures
            final(self).wf(),
            final(self).tokens() == old(self).tokens(),
            final(self).errors@ == old(self).errors@,
            agrees(r, parse_assert_at(old(self).tokens(), old(self).index()), final(self).index() - old(self).index()),
    {
        proof {
            reveal(parse_assert_at);
        }
        self.next_token();
        self.expect_and_advance(Token::LeftBracket, ParseErrorKind::ExpectedLeftBracket)?;
        let exp = self.parse_expression()?;
        self.next_token();
        self.expect_current_token(Token::RightBracket, ParseErrorKind::ExpectedClosingBracket)?;
        self.next_token();
        self.expect_current_token(Token::SemiColon, ParseErrorKind::ExpectedSemiColon)?;
        Ok(Statement::Assert(exp))
    }

    fn skip_to_terminator(&mut self)
        requires
            old(self).wf(),
        ensures
            final(self).wf(),
            final(self).tokens() == old(self).tokens(),
            final(self).errors@ == old(self).errors@,
            final(self).index() == old(self).index() + skip_to_terminator(old(self).tokens(), old(self).index()),
    {
        let ghost ts = self.tokens@;
        while !matches!(self.current_token, Token::SemiColon) && !matches!(self.current_token, Token::EOF)
            invariant
                self.wf(),
                self.tokens@ == ts,
                old(self).tokens@ == ts,
                self.errors@ == old(self).errors@,
                old(self).index@ + skip_to_terminator(ts, old(self).index@) == self.index@
                    + skip_to_terminator(ts, self.index@),
            decreases rest(ts, self.index@),
        {
            self.next_token();
        }
    }

    /// Parses statements up to the end of the input. Each statement that
    /// parses is returned, in order; the error of each one that does not is
    /// added to the parser's errors, and parsing goes on after the next `;`.
    #[verifier::rlimit(40)]
    pub fn parse_program(&mut self) -> (r: Program)
        requires
            old(self).wf(),
        ensures
            final(self).wf(),
            final(self).tokens() == old(self).tokens(),
            stmt_views(r.statements@) == parse_program_at(old(self).tokens(), old(self).index()).0,
            final(self).errors() == old(self).errors() + parse_program_at(
                old(self).tokens(),
                old(self).index(),
            ).1,
    {
        let ghost ts = self.tokens@;
        let ghost k0 = self.index@;
        let mut statements: Vec<Statement> = Vec::new();
        proof {
            assert(stmt_views(statements@) + parse_program_at(ts, k0).0 =~= parse_program_at(ts, k0).0);
            assert(error_views(self.errors@) + parse_program_at(ts, k0).1 =~= self.errors()
                + parse_program_at(ts, k0).1);
        }
        while !matches!(self.current_token, Token::EOF)
            invariant
                self.wf(),
                self.tokens@ == ts,
                old(self).tokens@ == ts,
                old(self).index@ == k0,
                parse_program_at(ts, k0).0 == stmt_views(statements@) + parse_program_at(ts, self.index@).0,
                old(self).errors() + parse_program_at(ts, k0).1 == error_views(self.errors@)
                    + parse_program_at(ts, self.index@).1,
            decreases rest(ts, self.index@),
        {
            let ghost k = self.index@;
            let ghost sv = stmt_views(statements@);
            let ghost ev = error_views(self.errors@);
            match self.parse_statement() {
                Ok(stmt) => {
                    let ghost s1 = stmt@;
                    statements.push(stmt);
                    proof {
                        assert(stmt_views(statements@) =~= sv.push(s1));
                        let rr = parse_program_at(ts, self.index@ + 1);
                        assert(sv + (seq![s1] + rr.0) =~= stmt_views(statements@) + rr.0);
                    }
                },
                Err(err) => {
                    let ghost e1 = err@;
                    self.errors.push(err);
                    self.skip_to_terminator();
                    proof {
                        assert(error_views(self.errors@) =~= ev.push(e1));
                        let rr = parse_program_at(ts, self.index@ + 1);
                        assert(ev + (seq![e1] + rr.1) =~= error_views(self.errors@) + rr.1);
                    }
                },
            }
            self.next_token();
        }
        proof {
            assert(stmt_views(statements@) + Seq::<StmtView>::empty() =~= stmt_views(statements@));
            assert(error_views(self.errors@) + Seq::<ParseErrorView>::empty() =~= error_views(self.errors@));
        }
        Program { statements }
    }
}

} // verus!
