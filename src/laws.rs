//! Properties that relate several parts of the library, proved over their
//! specifications.
use vstd::prelude::*;
use crate::ast::{
    binary_op_text, body_text, escape_char, escape_text, expr_text, stmt_text, BinaryOperator,
    ExprView, StmtView, UnaryOperator,
};
use crate::parser::{
    binary_op_of, ends_expression, parse_assert_at, parse_assignment_at, parse_binary_at,
    parse_body_at, parse_expression_at, parse_for_at, parse_new_assignment_at, parse_operand_at,
    parse_print_at, parse_program_at, parse_read_at, parse_source, parse_statement_at,
    rest, skip_to_terminator, tok, type_of_token, Parsed,
};
use crate::text::{
    all_digits, digit_char, digits_value, int_text, integer_literal_value, lemma_digits_value_nonneg,
    nat_text,
};
use crate::utils::{type_text, Type};
use crate::lexer::{
    lemma_next_token_progress, lemma_skip_spaces_bounds, lemma_word_end_bounds, digits_end, escaped, is_digit, is_letter, is_space, is_word_char, next_token, scan_string,
    single_char_token, skip_spaces, tokens_from, word_end,
};
use crate::token::{is_keyword, keyword_or_identifier, token_text, TokenView};

verus! {

/// The tokens that carry no payload and are not end or error markers.
pub open spec fn is_plain_token(t: TokenView) -> bool {
    !(t is Identifier || t is IntegerConstant || t is StringValue || t is EOF || t is Illegal)
}

proof fn lemma_tokens_at_end(src: Seq<char>)
    ensures
        tokens_from(src, src.len() as int) == seq![TokenView::EOF],
{
    assert(skip_spaces(src, src.len() as int) == src.len());
}

proof fn lemma_word_end_all(w: Seq<char>, i: int)
    requires
        0 <= i <= w.len(),
        forall|j: int| 0 <= j < w.len() ==> is_word_char(#[trigger] w[j]),
    ensures
        word_end(w, i) == w.len(),
    decreases w.len() - i,
{
    if i < w.len() {
        lemma_word_end_all(w, i + 1);
    }
}

proof fn lemma_digits_end_all(d: Seq<char>, i: int)
    requires
        0 <= i <= d.len(),
        forall|j: int| 0 <= j < d.len() ==> is_digit(#[trigger] d[j]),
    ensures
        digits_end(d, i) == d.len(),
    decreases d.len() - i,
{
    if i < d.len() {
        lemma_digits_end_all(d, i + 1);
    }
}

/// A word (a letter followed by letters, digits and underscores) on its own
/// tokenizes to its keyword, or to an identifier carrying it, then `EOF`.
pub proof fn lemma_word_round_trip(w: Seq<char>)
    requires
        w.len() > 0,
        is_letter(w[0]),
        forall|j: int| 0 <= j < w.len() ==> is_word_char(#[trigger] w[j]),
    ensures
        tokens_from(w, 0) == seq![keyword_or_identifier(w), TokenView::EOF],
{
    lemma_word_end_all(w, 0);
    assert(skip_spaces(w, 0) == 0);
    assert(w.subrange(0, w.len() as int) =~= w);
    assert(next_token(w, 0) == (keyword_or_identifier(w), w.len() as int));
    lemma_tokens_at_end(w);
}

/// A run of digits on its own tokenizes to an integer constant carrying it,
/// then `EOF`.
pub proof fn lemma_integer_round_trip(d: Seq<char>)
    requires
        d.len() > 0,
        forall|j: int| 0 <= j < d.len() ==> is_digit(#[trigger] d[j]),
    ensures
        tokens_from(d, 0) == seq![TokenView::IntegerConstant(d), TokenView::EOF],
{
    lemma_digits_end_all(d, 0);
    assert(skip_spaces(d, 0) == 0);
    assert(d.subrange(0, d.len() as int) =~= d);
    assert(next_token(d, 0) == (TokenView::IntegerConstant(d), d.len() as int));
    lemma_tokens_at_end(d);
}

proof fn lemma_escape_text_front(s: Seq<char>)
    requires
        s.len() > 0,
    ensures
        escape_text(s) == escape_char(s[0]) + escape_text(s.drop_first()),
    decreases s.len(),
{
    if s.len() == 1 {
        assert(s.drop_last() =~= Seq::<char>::empty());
        assert(s.drop_first() =~= Seq::<char>::empty());
        assert(escape_text(s) =~= escape_char(s[0]) + escape_text(s.drop_first()));
    } else {
        lemma_escape_text_front(s.drop_last());
        assert(s.drop_last().drop_first() =~= s.drop_first().drop_last());
        assert(s.drop_first().last() == s.last());
        assert(escape_text(s) =~= escape_char(s[0]) + escape_text(s.drop_first()));
    }
}

/// The escaped form of `s` followed by a closing quote scans back to `s`.
proof fn lemma_scan_escaped(s: Seq<char>, pre: Seq<char>, post: Seq<char>)
    requires
        post.len() > 0,
        post[0] == '"',
    ensures
        scan_string(pre + escape_text(s) + post, pre.len() as int) == (
            Some(s),
            (pre.len() + escape_text(s).len()) as int,
        ),
    decreases s.len(),
{
    let src = pre + escape_text(s) + post;
    let p = pre.len() as int;
    if s.len() == 0 {
        assert(escape_text(s) =~= Seq::<char>::empty());
        assert(src[p] == '"');
        assert(s =~= Seq::<char>::empty());
    } else {
        lemma_escape_text_front(s);
        let c = s[0];
        let ec = escape_char(c);
        let pre2 = pre + ec;
        assert(src =~= pre2 + escape_text(s.drop_first()) + post);
        lemma_scan_escaped(s.drop_first(), pre2, post);
        assert(s =~= seq![c] + s.drop_first());
        if c == '"' || c == '\\' || c == '\n' || c == '\t' {
            assert(src[p] == '\\');
            assert(ec.len() == 2);
            assert(escaped(src[p + 1]) == Some(c));
        } else {
            assert(src[p] == c);
            assert(ec.len() == 1);
        }
    }
}

/// A string literal written with the escapes of [`escape_text`] tokenizes
/// to a string value carrying the unescaped content, then `EOF`.
pub proof fn lemma_string_round_trip(s: Seq<char>)
    ensures
        tokens_from(seq!['"'] + escape_text(s) + seq!['"'], 0) == seq![
            TokenView::StringValue(s),
            TokenView::EOF,
        ],
{
    let src = seq!['"'] + escape_text(s) + seq!['"'];
    lemma_scan_escaped(s, seq!['"'], seq!['"']);
    assert(skip_spaces(src, 0) == 0);
    assert(next_token(src, 0) == (TokenView::StringValue(s), src.len() as int));
    lemma_tokens_at_end(src);
}

proof fn lemma_single_char_round_trip(c: char)
    requires
        single_char_token(c) is Some,
    ensures
        tokens_from(seq![c], 0) == seq![single_char_token(c)->0, TokenView::EOF],
{
    let src = seq![c];
    assert(skip_spaces(src, 0) == 0);
    assert(next_token(src, 0) == (single_char_token(c)->0, 1int));
    lemma_tokens_at_end(src);
}

proof fn lemma_pair_round_trip(src: Seq<char>)
    requires
        src =~= seq![':', '='] || src =~= seq!['.', '.'],
    ensures
        tokens_from(src, 0) == seq![next_token(src, 0).0, TokenView::EOF],
        src[0] == ':' ==> next_token(src, 0).0 == TokenView::Assign,
        src[0] == '.' ==> next_token(src, 0).0 == TokenView::Range,
{
    assert(skip_spaces(src, 0) == 0);
    assert(next_token(src, 0).1 == 2);
    lemma_tokens_at_end(src);
}

proof fn lemma_keyword_texts()
    ensures
        "for"@ == seq!['f', 'o', 'r'],
        "in"@ == seq!['i', 'n'],
        "do"@ == seq!['d', 'o'],
        "end"@ == seq!['e', 'n', 'd'],
        "true"@ == seq!['t', 'r', 'u', 'e'],
        "false"@ == seq!['f', 'a', 'l', 's', 'e'],
        "var"@ == seq!['v', 'a', 'r'],
        "print"@ == seq!['p', 'r', 'i', 'n', 't'],
        "bool"@ == seq!['b', 'o', 'o', 'l'],
        "string"@ == seq!['s', 't', 'r', 'i', 'n', 'g'],
        "int"@ == seq!['i', 'n', 't'],
        "assert"@ == seq!['a', 's', 's', 'e', 'r', 't'],
        "read"@ == seq!['r', 'e', 'a', 'd'],
{
    reveal_strlit("for");
    reveal_strlit("in");
    reveal_strlit("do");
    reveal_strlit("end");
    reveal_strlit("true");
    reveal_strlit("false");
    reveal_strlit("var");
    reveal_strlit("print");
    reveal_strlit("bool");
    reveal_strlit("string");
    reveal_strlit("int");
    reveal_strlit("assert");
    reveal_strlit("read");
    assert("for"@ =~= seq!['f', 'o', 'r']);
    assert("in"@ =~= seq!['i', 'n']);
    assert("do"@ =~= seq!['d', 'o']);
    assert("end"@ =~= seq!['e', 'n', 'd']);
    assert("true"@ =~= seq!['t', 'r', 'u', 'e']);
    assert("false"@ =~= seq!['f', 'a', 'l', 's', 'e']);
    assert("var"@ =~= seq!['v', 'a', 'r']);
    assert("print"@ =~= seq!['p', 'r', 'i', 'n', 't']);
    assert("bool"@ =~= seq!['b', 'o', 'o', 'l']);
    assert("string"@ =~= seq!['s', 't', 'r', 'i', 'n', 'g']);
    assert("int"@ =~= seq!['i', 'n', 't']);
    assert("assert"@ =~= seq!['a', 's', 's', 'e', 'r', 't']);
    assert("read"@ =~= seq!['r', 'e', 'a', 'd']);
}

/// Every token that carries no payload is written by its display form, and
/// that text alone tokenizes to the token, then `EOF`.
pub proof fn lemma_plain_token_round_trip(t: TokenView)
    requires
        is_plain_token(t),
    ensures
        tokens_from(token_text(t), 0) == seq![t, TokenView::EOF],
{
    match t {
        TokenView::Plus => {
            reveal_strlit("+");
            assert("+"@ =~= seq!['+']);
            lemma_single_char_round_trip('+');
        },
        TokenView::Minus => {
            reveal_strlit("-");
            assert("-"@ =~= seq!['-']);
            lemma_single_char_round_trip('-');
        },
        TokenView::Multiplication => {
            reveal_strlit("*");
            assert("*"@ =~= seq!['*']);
            lemma_single_char_round_trip('*');
        },
        TokenView::Division => {
            reveal_strlit("/");
            assert("/"@ =~= seq!['/']);
            lemma_single_char_round_trip('/');
        },
        TokenView::Equals => {
            reveal_strlit("=");
            assert("="@ =~= seq!['=']);
            lemma_single_char_round_trip('=');
        },
        TokenView::LessThan => {
            reveal_strlit("<");
            assert("<"@ =~= seq!['<']);
            lemma_single_char_round_trip('<');
        },
        TokenView::GreaterThan => {
            reveal_strlit(">");
            assert(">"@ =~= seq!['>']);
            lemma_single_char_round_trip('>');
        },
        TokenView::And => {
            reveal_strlit("&");
            assert("&"@ =~= seq!['&']);
            lemma_single_char_round_trip('&');
        },
        TokenView::Not => {
            reveal_strlit("!");
            assert("!"@ =~= seq!['!']);
            lemma_single_char_round_trip('!');
        },
        TokenView::LeftBracket => {
            reveal_strlit("(");
            assert("("@ =~= seq!['(']);
            lemma_single_char_round_trip('(');
        },
        TokenView::RightBracket => {
            reveal_strlit(")");
            assert(")"@ =~= seq![')']);
            lemma_single_char_round_trip(')');
        },
        TokenView::SemiColon => {
            reveal_strlit(";");
            assert(";"@ =~= seq![';']);
            lemma_single_char_round_trip(';');
        },
        TokenView::Var => {
            lemma_keyword_texts();
            lemma_word_round_trip("var"@);
        },
        TokenView::Print => {
            lemma_keyword_texts();
            lemma_word_round_trip("print"@);
        },
        TokenView::True => {
            lemma_keyword_texts();
            lemma_word_round_trip("true"@);
        },
        TokenView::False => {
            lemma_keyword_texts();
            lemma_word_round_trip("false"@);
        },
        TokenView::Read => {
            lemma_keyword_texts();
            lemma_word_round_trip("read"@);
        },
        TokenView::For => {
            lemma_keyword_texts();
            lemma_word_round_trip("for"@);
        },
        TokenView::In => {
            lemma_keyword_texts();
            lemma_word_round_trip("in"@);
        },
        TokenView::Do => {
            lemma_keyword_texts();
            lemma_word_round_trip("do"@);
        },
        TokenView::End => {
            lemma_keyword_texts();
            lemma_word_round_trip("end"@);
        },
        TokenView::Assert => {
            lemma_keyword_texts();
            lemma_word_round_trip("assert"@);
        },
        TokenView::IntegerType => {
            lemma_keyword_texts();
            lemma_word_round_trip("int"@);
        },
        TokenView::StringType => {
            lemma_keyword_texts();
            lemma_word_round_trip("string"@);
        },
        TokenView::BooleanType => {
            lemma_keyword_texts();
            lemma_word_round_trip("bool"@);
        },
        TokenView::Assign => {
            reveal_strlit(":=");
            lemma_pair_round_trip(":="@);
        },
        TokenView::Colon => {
            reveal_strlit(":");
            let src = ":"@;
            assert(skip_spaces(src, 0) == 0);
            assert(next_token(src, 0) == (TokenView::Colon, 1int));
            lemma_tokens_at_end(src);
        },
        TokenView::Range => {
            reveal_strlit("..");
            lemma_pair_round_trip(".."@);
        },
        _ => {},
    }
}

/// The token of a binary operator.
pub open spec fn binary_op_token(op: BinaryOperator) -> TokenView {
    match op {
        BinaryOperator::Plus => TokenView::Plus,
        BinaryOperator::Minus => TokenView::Minus,
        BinaryOperator::Multiplication => TokenView::Multiplication,
        BinaryOperator::Division => TokenView::Division,
        BinaryOperator::Equals => TokenView::Equals,
        BinaryOperator::LessThan => TokenView::LessThan,
        BinaryOperator::GreaterThan => TokenView::GreaterThan,
        BinaryOperator::And => TokenView::And,
    }
}

/// The keyword token of a declared type.
pub open spec fn type_token(t: Type) -> TokenView {
    match t {
        Type::Boolean => TokenView::BooleanType,
        Type::Integer => TokenView::IntegerType,
        Type::String => TokenView::StringType,
    }
}

/// The tokens of the source text of an expression.
pub open spec fn expr_tokens(e: ExprView) -> Seq<TokenView>
    decreases e,
{
    match e {
        ExprView::Identifier(s) => seq![TokenView::Identifier(s)],
        ExprView::IntegerConstant(i) => seq![TokenView::IntegerConstant(int_text(i as int))],
        ExprView::StringValue(s) => seq![TokenView::StringValue(s)],
        ExprView::Boolean(b) => if b {
            seq![TokenView::True]
        } else {
            seq![TokenView::False]
        },
        ExprView::Unary(_, x) => seq![TokenView::LeftBracket, TokenView::Not] + expr_tokens(*x)
            + seq![TokenView::RightBracket],
        ExprView::Binary(l, op, r) => seq![TokenView::LeftBracket] + expr_tokens(*l) + seq![
            binary_op_token(op),
        ] + expr_tokens(*r) + seq![TokenView::RightBracket],
    }
}

/// The tokens of the source text of a statement.
pub open spec fn stmt_tokens(s: StmtView) -> Seq<TokenView>
    decreases s,
{
    match s {
        StmtView::VarInitialization(id, t) => seq![
            TokenView::Var,
            TokenView::Identifier(id),
            TokenView::Colon,
            type_token(t),
            TokenView::SemiColon,
        ],
        StmtView::NewAssignment(id, t, e) => seq![
            TokenView::Var,
            TokenView::Identifier(id),
            TokenView::Colon,
            type_token(t),
            TokenView::Assign,
        ] + expr_tokens(e) + seq![TokenView::SemiColon],
        StmtView::Assignment(id, e) => seq![TokenView::Identifier(id), TokenView::Assign]
            + expr_tokens(e) + seq![TokenView::SemiColon],
        StmtView::Print(e) => seq![TokenView::Print] + expr_tokens(e) + seq![TokenView::SemiColon],
        StmtView::Assert(e) => seq![TokenView::Assert, TokenView::LeftBracket] + expr_tokens(e)
            + seq![TokenView::RightBracket, TokenView::SemiColon],
        StmtView::Read(id) => seq![TokenView::Read, TokenView::Identifier(id), TokenView::SemiColon],
        StmtView::For(id, a, b, body) => seq![
            TokenView::For,
            TokenView::Identifier(id),
            TokenView::In,
        ] + expr_tokens(a) + seq![TokenView::Range] + expr_tokens(b) + seq![TokenView::Do]
            + body_tokens(body) + seq![TokenView::End, TokenView::For, TokenView::SemiColon],
    }
}

/// The tokens of a loop body.
pub open spec fn body_tokens(ss: Seq<StmtView>) -> Seq<TokenView>
    decreases ss,
{
    if ss.len() == 0 {
        Seq::empty()
    } else {
        body_tokens(ss.drop_last()) + stmt_tokens(ss.last())
    }
}

/// The words that stand for identifiers: a letter followed by letters,
/// digits and underscores, other than a keyword.
#[verifier::opaque]
pub open spec fn is_identifier(s: Seq<char>) -> bool {
    &&& s.len() > 0
    &&& is_letter(s[0])
    &&& forall|j: int| 0 <= j < s.len() ==> is_word_char(#[trigger] s[j])
    &&& !is_keyword(s)
}

/// The expressions that parsing can give back: identifiers are
/// [`is_identifier`] words and integer constants are not negative (the
/// language has no negative literals).
pub open spec fn expr_wf(e: ExprView) -> bool
    decreases e,
{
    match e {
        ExprView::Identifier(s) => is_identifier(s),
        ExprView::IntegerConstant(i) => i >= 0,
        ExprView::Unary(_, x) => expr_wf(*x),
        ExprView::Binary(l, _, r) => expr_wf(*l) && expr_wf(*r),
        _ => true,
    }
}

/// The statements whose identifiers satisfy [`is_identifier`] and whose
/// expressions satisfy [`expr_wf`].
pub open spec fn stmt_wf(s: StmtView) -> bool
    decreases s,
{
    match s {
        StmtView::VarInitialization(id, _) => is_identifier(id),
        StmtView::NewAssignment(id, _, e) => is_identifier(id) && expr_wf(e),
        StmtView::Assignment(id, e) => is_identifier(id) && expr_wf(e),
        StmtView::Print(e) => expr_wf(e),
        StmtView::Assert(e) => expr_wf(e),
        StmtView::Read(id) => is_identifier(id),
        StmtView::For(id, a, b, body) => is_identifier(id) && expr_wf(a) && expr_wf(b) && body_wf(body),
    }
}

/// The loop bodies whose statements all satisfy [`stmt_wf`].
pub open spec fn body_wf(ss: Seq<StmtView>) -> bool
    decreases ss,
{
    ss.len() == 0 || (stmt_wf(ss[0]) && body_wf(ss.drop_first()))
}

proof fn lemma_nat_text_value(n: nat)
    ensures
        nat_text(n).len() > 0,
        all_digits(nat_text(n)),
        digits_value(nat_text(n)) == n,
    decreases n,
{
    let d = (n % 10) as int;
    assert(digit_char(d) as int == d + '0' as int);
    if n < 10 {
        assert(nat_text(n).drop_last() =~= Seq::<char>::empty());
        assert(digits_value(Seq::<char>::empty()) == 0);
        assert(nat_text(n).last() == digit_char(d));
    } else {
        lemma_nat_text_value(n / 10);
        let t = nat_text(n);
        assert(t.drop_last() =~= nat_text(n / 10));
        assert(digits_value(t) == (n / 10) * 10 + d);
        assert((n / 10) * 10 + d == n);
        assert(all_digits(t)) by {
            assert forall|i: int| 0 <= i < t.len() implies '0' <= #[trigger] t[i] && t[i] <= '9' by {
                if i < t.len() - 1 {
                    assert(t[i] == nat_text(n / 10)[i]);
                }
            }
        }
    }
}

/// The first token of an expression's text is never `!`.
proof fn lemma_expr_tokens_start(e: ExprView)
    ensures
        expr_tokens(e).len() >= 1,
        !(expr_tokens(e)[0] is Not),
        !(expr_tokens(e)[0] is EOF),
{
}

#[verifier::rlimit(60)]
#[verifier::spinoff_prover]
proof fn lemma_parse_operand(e: ExprView, ts: Seq<TokenView>, k: int)
    requires
        expr_wf(e),
        0 <= k,
        k + expr_tokens(e).len() <= ts.len(),
        ts.subrange(k, k + expr_tokens(e).len()) == expr_tokens(e),
    ensures
        parse_operand_at(ts, k) == Parsed::<ExprView>::Ok((e, (expr_tokens(e).len() - 1) as nat)),
    decreases e,
{
    let et = expr_tokens(e);
    assert(ts[k] == et[0]);
    match e {
        ExprView::IntegerConstant(i) => {
            lemma_nat_text_value(i as nat);
            assert(int_text(i as int) == nat_text(i as nat));
        },
        ExprView::Unary(op, x) => {
            let ex = expr_tokens(*x);
            assert(ts[k + 1] == et[1]);
            assert(ts.subrange(k + 2, k + 2 + ex.len()) =~= ex) by {
                assert forall|j: int| 0 <= j < ex.len() implies ts.subrange(k + 2, k + 2 + ex.len())[j] == ex[j] by {
                    assert(ts[k + 2 + j] == et[2 + j]);
                }
            }
            lemma_parse_operand(*x, ts, k + 2);
            assert(ts[k + 2 + ex.len()] == et[2 + ex.len() as int]);
            assert(op == UnaryOperator::Not);
            assert(parse_binary_at(ts, k + 2) == Parsed::<ExprView>::Ok((*x, (ex.len() - 1) as nat)));
        },
        ExprView::Binary(l, op, r) => {
            let el = expr_tokens(*l);
            let er = expr_tokens(*r);
            assert(ts.subrange(k + 1, k + 1 + el.len()) =~= el) by {
                assert forall|j: int| 0 <= j < el.len() implies ts.subrange(k + 1, k + 1 + el.len())[j] == el[j] by {
                    assert(ts[k + 1 + j] == et[1 + j]);
                }
            }
            let rs = k + 2 + el.len();
            assert(ts.subrange(rs, rs + er.len()) =~= er) by {
                assert forall|j: int| 0 <= j < er.len() implies ts.subrange(rs, rs + er.len())[j] == er[j] by {
                    assert(ts[rs + j] == et[2 + el.len() + j]);
                }
            }
            assert(ts[k + 1 + el.len()] == et[1 + el.len() as int]);
            assert(ts[rs + er.len()] == et[2 + el.len() + er.len() as int]);
            lemma_parse_operand(*l, ts, k + 1);
            lemma_parse_operand(*r, ts, rs);
            lemma_expr_tokens_start(*l);
            assert(binary_op_of(binary_op_token(op)) == Some(op));
            assert(parse_binary_at(ts, rs) == Parsed::<ExprView>::Ok((*r, (er.len() - 1) as nat)));
            assert(parse_binary_at(ts, k + 1) == Parsed::<ExprView>::Ok(
                (ExprView::Binary(l, op, r), (el.len() + er.len()) as nat),
            ));
        },
        _ => {},
    }
}

proof fn lemma_at<A>(ts: Seq<A>, k: int, w: Seq<A>)
    requires
        0 <= k,
        k + w.len() <= ts.len(),
        ts.subrange(k, k + w.len()) == w,
    ensures
        forall|i: int| 0 <= i < w.len() ==> ts[k + i] == #[trigger] w[i],
{
    assert forall|i: int| 0 <= i < w.len() implies ts[k + i] == #[trigger] w[i] by {
        assert(ts.subrange(k, k + w.len())[i] == ts[k + i]);
    }
}

proof fn lemma_slice<A>(ts: Seq<A>, k: int, w: Seq<A>, off: int, part: Seq<A>)
    requires
        0 <= k,
        k + w.len() <= ts.len(),
        ts.subrange(k, k + w.len()) == w,
        0 <= off,
        off + part.len() <= w.len(),
        w.subrange(off, off + part.len()) == part,
    ensures
        ts.subrange(k + off, k + off + part.len()) == part,
{
    lemma_at(ts, k, w);
    assert forall|j: int| 0 <= j < part.len() implies ts.subrange(k + off, k + off + part.len())[j]
        == part[j] by {
        assert(w.subrange(off, off + part.len())[j] == w[off + j]);
        assert(ts[k + (off + j)] == w[off + j]);
    }
    assert(ts.subrange(k + off, k + off + part.len()) =~= part);
}

proof fn lemma_parse_expression(e: ExprView, ts: Seq<TokenView>, k: int)
    requires
        expr_wf(e),
        0 <= k,
        k + expr_tokens(e).len() < ts.len(),
        ts.subrange(k, k + expr_tokens(e).len()) == expr_tokens(e),
        ends_expression(ts[k + expr_tokens(e).len()]),
    ensures
        parse_expression_at(ts, k) == Parsed::<ExprView>::Ok((e, (expr_tokens(e).len() - 1) as nat)),
{
    lemma_expr_tokens_start(e);
    lemma_at(ts, k, expr_tokens(e));
    lemma_parse_operand(e, ts, k);
}

proof fn lemma_body_tokens_front(ss: Seq<StmtView>)
    requires
        ss.len() > 0,
    ensures
        body_tokens(ss) == stmt_tokens(ss[0]) + body_tokens(ss.drop_first()),
    decreases ss.len(),
{
    if ss.len() == 1 {
        assert(ss.drop_last() =~= Seq::<StmtView>::empty());
        assert(ss.drop_first() =~= Seq::<StmtView>::empty());
        assert(body_tokens(ss) =~= stmt_tokens(ss[0]) + body_tokens(ss.drop_first()));
    } else {
        lemma_body_tokens_front(ss.drop_last());
        assert(ss.drop_last().drop_first() =~= ss.drop_first().drop_last());
        assert(ss.drop_first().last() == ss.last());
        assert(body_tokens(ss) =~= stmt_tokens(ss[0]) + body_tokens(ss.drop_first()));
    }
}

proof fn lemma_type_token(t: Type)
    ensures
        type_of_token(type_token(t)) == Some(t),
{
}

proof fn lemma_stmt_tokens_start(s: StmtView)
    ensures
        stmt_tokens(s).len() >= 2,
        !(stmt_tokens(s)[0] is End),
        !(stmt_tokens(s)[0] is EOF),
{
}

proof fn lemma_parse_new_assignment(id: Seq<char>, t: Type, e: ExprView, ts: Seq<TokenView>, k: int)
    requires
        expr_wf(e),
        0 <= k,
        k + stmt_tokens(StmtView::NewAssignment(id, t, e)).len() <= ts.len(),
        ts.subrange(k, k + stmt_tokens(StmtView::NewAssignment(id, t, e)).len()) == stmt_tokens(
            StmtView::NewAssignment(id, t, e),
        ),
    ensures
        parse_new_assignment_at(ts, k) == Parsed::<StmtView>::Ok(
            (
                StmtView::NewAssignment(id, t, e),
                (stmt_tokens(StmtView::NewAssignment(id, t, e)).len() - 1) as nat,
            ),
        ),
{
    reveal(parse_new_assignment_at);
    let st = stmt_tokens(StmtView::NewAssignment(id, t, e));
    let et = expr_tokens(e);
    let n = et.len() as int;
    lemma_at(ts, k, st);
    assert(ts[k + 0] == st[0]);
    assert(ts[k + 1] == st[1]);
    assert(ts[k + 2] == st[2]);
    assert(ts[k + 3] == st[3]);
    assert(ts[k + 4] == st[4]);
    lemma_type_token(t);
    assert(st.subrange(5, 5 + n) =~= et);
    lemma_slice(ts, k, st, 5, et);
    assert(st[5 + n] is SemiColon);
    lemma_parse_expression(e, ts, k + 5);
}

proof fn lemma_parse_var_init(id: Seq<char>, t: Type, ts: Seq<TokenView>, k: int)
    requires
        0 <= k,
        k + 5 <= ts.len(),
        ts.subrange(k, k + 5) == stmt_tokens(StmtView::VarInitialization(id, t)),
    ensures
        parse_new_assignment_at(ts, k) == Parsed::<StmtView>::Ok((StmtView::VarInitialization(id, t), 4)),
{
    reveal(parse_new_assignment_at);
    let st = stmt_tokens(StmtView::VarInitialization(id, t));
    lemma_at(ts, k, st);
    lemma_type_token(t);
    assert(ts[k + 0] == st[0]);
    assert(ts[k + 1] == st[1]);
    assert(ts[k + 2] == st[2]);
    assert(ts[k + 3] == st[3]);
    assert(ts[k + 4] == st[4]);
}

proof fn lemma_parse_read(id: Seq<char>, ts: Seq<TokenView>, k: int)
    requires
        0 <= k,
        k + 3 <= ts.len(),
        ts.subrange(k, k + 3) == stmt_tokens(StmtView::Read(id)),
    ensures
        parse_read_at(ts, k) == Parsed::<StmtView>::Ok((StmtView::Read(id), 2)),
{
    reveal(parse_read_at);
    let st = stmt_tokens(StmtView::Read(id));
    lemma_at(ts, k, st);
    assert(ts[k + 0] == st[0]);
    assert(ts[k + 1] == st[1]);
    assert(ts[k + 2] == st[2]);
}

proof fn lemma_parse_assignment(id: Seq<char>, e: ExprView, ts: Seq<TokenView>, k: int)
    requires
        expr_wf(e),
        0 <= k,
        k + stmt_tokens(StmtView::Assignment(id, e)).len() <= ts.len(),
        ts.subrange(k, k + stmt_tokens(StmtView::Assignment(id, e)).len()) == stmt_tokens(
            StmtView::Assignment(id, e),
        ),
    ensures
        parse_assignment_at(ts, k) == Parsed::<StmtView>::Ok(
            (StmtView::Assignment(id, e), (stmt_tokens(StmtView::Assignment(id, e)).len() - 1) as nat),
        ),
{
    reveal(parse_assignment_at);
    let st = stmt_tokens(StmtView::Assignment(id, e));
    let et = expr_tokens(e);
    let n = et.len() as int;
    lemma_at(ts, k, st);
    assert(ts[k + 0] == st[0]);
    assert(ts[k + 1] == st[1]);
    assert(st.subrange(2, 2 + n) =~= et);
    lemma_slice(ts, k, st, 2, et);
    assert(st[2 + n] is SemiColon);
    lemma_parse_expression(e, ts, k + 2);
}

proof fn lemma_parse_print(e: ExprView, ts: Seq<TokenView>, k: int)
    requires
        expr_wf(e),
        0 <= k,
        k + stmt_tokens(StmtView::Print(e)).len() <= ts.len(),
        ts.subrange(k, k + stmt_tokens(StmtView::Print(e)).len()) == stmt_tokens(StmtView::Print(e)),
    ensures
        parse_print_at(ts, k) == Parsed::<StmtView>::Ok(
            (StmtView::Print(e), (stmt_tokens(StmtView::Print(e)).len() - 1) as nat),
        ),
{
    reveal(parse_print_at);
    let st = stmt_tokens(StmtView::Print(e));
    let et = expr_tokens(e);
    let n = et.len() as int;
    lemma_at(ts, k, st);
    assert(st.subrange(1, 1 + n) =~= et);
    lemma_slice(ts, k, st, 1, et);
    assert(st[1 + n] is SemiColon);
    lemma_parse_expression(e, ts, k + 1);
}

proof fn lemma_parse_assert(e: ExprView, ts: Seq<TokenView>, k: int)
    requires
        expr_wf(e),
        0 <= k,
        k + stmt_tokens(StmtView::Assert(e)).len() <= ts.len(),
        ts.subrange(k, k + stmt_tokens(StmtView::Assert(e)).len()) == stmt_tokens(StmtView::Assert(e)),
    ensures
        parse_assert_at(ts, k) == Parsed::<StmtView>::Ok(
            (StmtView::Assert(e), (stmt_tokens(StmtView::Assert(e)).len() - 1) as nat),
        ),
{
    reveal(parse_assert_at);
    let st = stmt_tokens(StmtView::Assert(e));
    let et = expr_tokens(e);
    let n = et.len() as int;
    lemma_at(ts, k, st);
    assert(ts[k + 0] == st[0]);
    assert(ts[k + 1] == st[1]);
    assert(st.subrange(2, 2 + n) =~= et);
    lemma_slice(ts, k, st, 2, et);
    assert(st[2 + n] is RightBracket);
    assert(st[3 + n] is SemiColon);
    lemma_parse_expression(e, ts, k + 2);
}

#[verifier::rlimit(90)]
#[verifier::spinoff_prover]
proof fn lemma_parse_for(id: Seq<char>, a: ExprView, b: ExprView, body: Seq<StmtView>, ts: Seq<TokenView>, k: int)
    requires
        expr_wf(a),
        expr_wf(b),
        body_wf(body),
        0 <= k,
        k + stmt_tokens(StmtView::For(id, a, b, body)).len() <= ts.len(),
        ts.subrange(k, k + stmt_tokens(StmtView::For(id, a, b, body)).len()) == stmt_tokens(
            StmtView::For(id, a, b, body),
        ),
    ensures
        parse_for_at(ts, k) == Parsed::<StmtView>::Ok(
            (
                StmtView::For(id, a, b, body),
                (stmt_tokens(StmtView::For(id, a, b, body)).len() - 1) as nat,
            ),
        ),
    decreases body, 2int,
{
    let st = stmt_tokens(StmtView::For(id, a, b, body));
    let ea = expr_tokens(a);
    let eb = expr_tokens(b);
    let bt = body_tokens(body);
    let na = ea.len() as int;
    let nb = eb.len() as int;
    let nt = bt.len() as int;
    let ob = 4 + na;
    let obody = ob + nb + 1;
    assert(st.len() == obody + nt + 3);
    assert(tok(ts, k + 1) == TokenView::Identifier(id) && tok(ts, k + 2) is In) by {
        lemma_at(ts, k, st);
        assert(ts[k + 1] == st[1]);
        assert(ts[k + 2] == st[2]);
    }
    assert(parse_expression_at(ts, k + 3) == Parsed::<ExprView>::Ok((a, (na - 1) as nat))
        && tok(ts, k + 3 + na) is Range) by {
        lemma_at(ts, k, st);
        assert(st.subrange(3, 3 + na) =~= ea);
        lemma_slice(ts, k, st, 3, ea);
        assert(ts[k + (3 + na)] == st[3 + na]);
        lemma_parse_expression(a, ts, k + 3);
    }
    assert(parse_expression_at(ts, k + ob) == Parsed::<ExprView>::Ok((b, (nb - 1) as nat))
        && tok(ts, k + ob + nb) is Do) by {
        lemma_at(ts, k, st);
        assert(st.subrange(ob, ob + nb) =~= eb);
        lemma_slice(ts, k, st, ob, eb);
        assert(ts[k + (ob + nb)] == st[ob + nb]);
        lemma_parse_expression(b, ts, k + ob);
    }
    assert(parse_body_at(ts, k + obody) == Parsed::<Seq<StmtView>>::Ok((body, nt as nat))
        && tok(ts, k + obody + nt + 1) is For && tok(ts, k + obody + nt + 2) is SemiColon) by {
        lemma_at(ts, k, st);
        assert(st.subrange(obody, obody + nt) =~= bt);
        lemma_slice(ts, k, st, obody, bt);
        assert(ts[k + (obody + nt)] == st[obody + nt]);
        assert(ts[k + (obody + nt + 1)] == st[obody + nt + 1]);
        assert(ts[k + (obody + nt + 2)] == st[obody + nt + 2]);
        lemma_parse_body(body, ts, k + obody);
    }
    assert(parse_for_at(ts, k) == Parsed::<StmtView>::Ok(
        (StmtView::For(id, a, b, body), (st.len() - 1) as nat),
    )) by {
        reveal(parse_for_at);
    }
}

proof fn lemma_parse_statement(s: StmtView, ts: Seq<TokenView>, k: int)
    requires
        stmt_wf(s),
        0 <= k,
        k + stmt_tokens(s).len() <= ts.len(),
        ts.subrange(k, k + stmt_tokens(s).len()) == stmt_tokens(s),
    ensures
        parse_statement_at(ts, k) == Parsed::<StmtView>::Ok((s, (stmt_tokens(s).len() - 1) as nat)),
    decreases s, 0int,
{
    let st = stmt_tokens(s);
    lemma_at(ts, k, st);
    assert(ts[k + 0] == st[0]);
    match s {
        StmtView::VarInitialization(id, t) => lemma_parse_var_init(id, t, ts, k),
        StmtView::NewAssignment(id, t, e) => lemma_parse_new_assignment(id, t, e, ts, k),
        StmtView::Assignment(id, e) => lemma_parse_assignment(id, e, ts, k),
        StmtView::Print(e) => lemma_parse_print(e, ts, k),
        StmtView::Assert(e) => lemma_parse_assert(e, ts, k),
        StmtView::Read(id) => lemma_parse_read(id, ts, k),
        StmtView::For(id, a, b, body) => {
            assert(decreases_to!(s => body));
            lemma_parse_for(id, a, b, body, ts, k);
            crate::parser::lemma_statement_for(ts, k);
        },
    }
}

proof fn lemma_parse_body(ss: Seq<StmtView>, ts: Seq<TokenView>, k: int)
    requires
        body_wf(ss),
        0 <= k,
        k + body_tokens(ss).len() < ts.len(),
        ts.subrange(k, k + body_tokens(ss).len()) == body_tokens(ss),
        ts[k + body_tokens(ss).len()] is End,
    ensures
        parse_body_at(ts, k) == Parsed::<Seq<StmtView>>::Ok((ss, body_tokens(ss).len())),
    decreases ss, 1int,
{
    if ss.len() == 0 {
        assert(body_tokens(ss).len() == 0);
        assert(ss =~= Seq::<StmtView>::empty());
    } else {
        lemma_body_tokens_front(ss);
        let bt = body_tokens(ss);
        let s0 = stmt_tokens(ss[0]);
        let rest = body_tokens(ss.drop_first());
        assert(bt.subrange(0, s0.len() as int) =~= s0);
        lemma_slice(ts, k, bt, 0, s0);
        assert(bt.subrange(s0.len() as int, (s0.len() as int) + (rest.len() as int)) =~= rest);
        lemma_slice(ts, k, bt, s0.len() as int, rest);
        lemma_parse_statement(ss[0], ts, k);
        lemma_stmt_tokens_start(ss[0]);
        lemma_at(ts, k, bt);
        assert(ts[k] == s0[0]);
        lemma_parse_body(ss.drop_first(), ts, k + (s0.len() as int));
        assert(ss =~= seq![ss[0]] + ss.drop_first());
    }
}

/// The token form of a statement parses back to the statement: a program
/// made of those tokens alone has that one statement and no syntax error.
proof fn lemma_statement_tokens_parse_back(s: StmtView)
    requires
        stmt_wf(s),
    ensures
        parse_program_at(stmt_tokens(s) + seq![TokenView::EOF], 0) == (
            seq![s],
            Seq::<crate::utils::ParseErrorView>::empty(),
        ),
{
    let st = stmt_tokens(s);
    let ts = st + seq![TokenView::EOF];
    assert(ts.subrange(0, st.len() as int) =~= st);
    lemma_parse_statement(s, ts, 0);
    lemma_stmt_tokens_start(s);
    assert(tok(ts, 0) == st[0]);
    assert(tok(ts, st.len() as int) is EOF);
    assert(parse_program_at(ts, st.len() as int) == (Seq::<StmtView>::empty(), Seq::<crate::utils::ParseErrorView>::empty()));
    assert(seq![s] + Seq::<StmtView>::empty() =~= seq![s]);
}

/// Position `q` ends a word or a number: the source ends there or holds a
/// character that cannot continue one.
pub open spec fn boundary(src: Seq<char>, q: int) -> bool {
    q >= src.len() || !is_word_char(src[q])
}

proof fn lemma_tokens_step(src: Seq<char>, p: int)
    requires
        0 <= p <= src.len(),
        !(next_token(src, p).0 is EOF),
    ensures
        tokens_from(src, p) == seq![next_token(src, p).0] + tokens_from(src, next_token(src, p).1),
{
}

proof fn lemma_lex_space(src: Seq<char>, p: int)
    requires
        0 <= p < src.len(),
        is_space(src[p]),
    ensures
        tokens_from(src, p) == tokens_from(src, p + 1),
{
    assert(skip_spaces(src, p) == skip_spaces(src, p + 1));
    assert(next_token(src, p) == next_token(src, p + 1));
}

proof fn lemma_lex_single(src: Seq<char>, p: int)
    requires
        0 <= p < src.len(),
        single_char_token(src[p]) is Some,
    ensures
        tokens_from(src, p) == seq![single_char_token(src[p])->0] + tokens_from(src, p + 1),
{
    assert(skip_spaces(src, p) == p);
    assert(next_token(src, p) == (single_char_token(src[p])->0, p + 1));
}

proof fn lemma_word_end_at(src: Seq<char>, i: int, e: int)
    requires
        0 <= i <= e <= src.len(),
        forall|j: int| i <= j < e ==> is_word_char(#[trigger] src[j]),
        boundary(src, e),
    ensures
        word_end(src, i) == e,
    decreases e - i,
{
    if i < e {
        lemma_word_end_at(src, i + 1, e);
    }
}

proof fn lemma_digits_end_at(src: Seq<char>, i: int, e: int)
    requires
        0 <= i <= e <= src.len(),
        forall|j: int| i <= j < e ==> is_digit(#[trigger] src[j]),
        boundary(src, e),
    ensures
        digits_end(src, i) == e,
    decreases e - i,
{
    if i < e {
        lemma_digits_end_at(src, i + 1, e);
    }
}

/// A word in the source, followed by a boundary, is one token.
proof fn lemma_lex_word(src: Seq<char>, p: int, w: Seq<char>)
    requires
        0 <= p,
        p + w.len() <= src.len(),
        src.subrange(p, p + w.len()) == w,
        w.len() > 0,
        is_letter(w[0]),
        forall|j: int| 0 <= j < w.len() ==> is_word_char(#[trigger] w[j]),
        boundary(src, p + w.len()),
    ensures
        tokens_from(src, p) == seq![keyword_or_identifier(w)] + tokens_from(src, p + w.len()),
{
    lemma_at(src, p, w);
    assert(src[p + 0] == w[0]);
    assert forall|j: int| p <= j < p + w.len() implies is_word_char(#[trigger] src[j]) by {
        assert(src[p + (j - p)] == w[j - p]);
    }
    lemma_word_end_at(src, p, p + w.len());
    assert(skip_spaces(src, p) == p);
    assert(next_token(src, p) == (keyword_or_identifier(w), p + w.len()));
    lemma_tokens_step(src, p);
}

/// Decimal digits in the source, followed by a boundary, are one token.
proof fn lemma_lex_digits(src: Seq<char>, p: int, d: Seq<char>)
    requires
        0 <= p,
        p + d.len() <= src.len(),
        src.subrange(p, p + d.len()) == d,
        d.len() > 0,
        forall|j: int| 0 <= j < d.len() ==> is_digit(#[trigger] d[j]),
        boundary(src, p + d.len()),
    ensures
        tokens_from(src, p) == seq![TokenView::IntegerConstant(d)] + tokens_from(src, p + d.len()),
{
    lemma_at(src, p, d);
    assert(src[p + 0] == d[0]);
    assert forall|j: int| p <= j < p + d.len() implies is_digit(#[trigger] src[j]) by {
        assert(src[p + (j - p)] == d[j - p]);
    }
    lemma_digits_end_at(src, p, p + d.len());
    assert(skip_spaces(src, p) == p);
    assert(next_token(src, p) == (TokenView::IntegerConstant(d), p + d.len()));
    lemma_tokens_step(src, p);
}

/// A string literal in the source is one token.
proof fn lemma_lex_string(src: Seq<char>, p: int, s: Seq<char>)
    requires
        0 <= p,
        p + escape_text(s).len() + 2 <= src.len(),
        src.subrange(p, p + escape_text(s).len() + 2) == seq!['"'] + escape_text(s) + seq!['"'],
    ensures
        tokens_from(src, p) == seq![TokenView::StringValue(s)] + tokens_from(
            src,
            p + escape_text(s).len() + 2,
        ),
{
    let q = seq!['"'] + escape_text(s) + seq!['"'];
    let n = escape_text(s).len() as int;
    lemma_at(src, p, q);
    assert(src[p + 0] == q[0]);
    assert(src[p + n + 1] == q[n + 1]);
    let pre = src.subrange(0, p + 1);
    let post = src.subrange(p + 1 + n, src.len() as int);
    assert forall|j: int| 0 <= j < n implies src[p + 1 + j] == #[trigger] escape_text(s)[j] by {
        assert(src[p + (1 + j)] == q[1 + j]);
    }
    assert(src =~= pre + escape_text(s) + post);
    lemma_scan_escaped(s, pre, post);
    assert(skip_spaces(src, p) == p);
    assert(next_token(src, p) == (TokenView::StringValue(s), p + n + 2));
    lemma_tokens_step(src, p);
}

proof fn lemma_nat_text_digits(n: nat)
    ensures
        nat_text(n).len() > 0,
        forall|j: int| 0 <= j < nat_text(n).len() ==> is_digit(#[trigger] nat_text(n)[j]),
{
    lemma_nat_text_value(n);
}

/// The text of a well-formed expression, followed by a boundary,
/// tokenizes to the expression's tokens.
proof fn lemma_lex_expr(e: ExprView, src: Seq<char>, p: int)
    requires
        expr_wf(e),
        0 <= p,
        p + expr_text(e).len() <= src.len(),
        src.subrange(p, p + expr_text(e).len()) == expr_text(e),
        boundary(src, p + expr_text(e).len()),
    ensures
        tokens_from(src, p) == expr_tokens(e) + tokens_from(src, p + expr_text(e).len()),
    decreases e, 1int,
{
    let t = expr_text(e);
    let end = p + t.len();
    match e {
        ExprView::Identifier(s) => {
            reveal(is_identifier);
            lemma_lex_word(src, p, s);
            assert(keyword_or_identifier(s) == TokenView::Identifier(s));
        },
        ExprView::IntegerConstant(i) => {
            assert(int_text(i as int) == nat_text(i as nat));
            lemma_nat_text_digits(i as nat);
            lemma_lex_digits(src, p, nat_text(i as nat));
        },
        ExprView::StringValue(s) => {
            lemma_lex_string(src, p, s);
        },
        ExprView::Boolean(b) => {
            lemma_keyword_texts();
            if b {
                lemma_lex_word(src, p, "true"@);
            } else {
                lemma_lex_word(src, p, "false"@);
            }
        },
        ExprView::Unary(op, x) => lemma_lex_unary(op, *x, src, p),
        ExprView::Binary(l, op, r) => lemma_lex_binary(*l, op, *r, src, p),
    }
}

proof fn lemma_lex_unary(op: UnaryOperator, x: ExprView, src: Seq<char>, p: int)
    requires
        expr_wf(x),
        0 <= p,
        p + expr_text(ExprView::Unary(op, Box::new(x))).len() <= src.len(),
        src.subrange(p, p + expr_text(ExprView::Unary(op, Box::new(x))).len()) == expr_text(
            ExprView::Unary(op, Box::new(x)),
        ),
    ensures
        tokens_from(src, p) == expr_tokens(ExprView::Unary(op, Box::new(x))) + tokens_from(
            src,
            p + expr_text(ExprView::Unary(op, Box::new(x))).len(),
        ),
    decreases ExprView::Unary(op, Box::new(x)), 0int,
{
    let e = ExprView::Unary(op, Box::new(x));
    let t = expr_text(e);
    let end = p + t.len();
    reveal_strlit("(!");
    reveal_strlit(")");
    let xt = expr_text(x);
    let n = xt.len() as int;
    lemma_at(src, p, t);
    assert(t[0] == '(');
    assert(t[1] == '!');
    assert(t[n + 2] == ')');
    assert(src[p + 0] == t[0]);
    assert(src[p + 1] == t[1]);
    assert(src[p + (n + 2)] == t[n + 2]);
    assert(t.subrange(2, 2 + n) =~= xt);
    lemma_slice(src, p, t, 2, xt);
    lemma_lex_single(src, p);
    lemma_lex_single(src, p + 1);
    lemma_lex_expr(x, src, p + 2);
    lemma_lex_single(src, p + 2 + n);
    assert(tokens_from(src, p) =~= expr_tokens(e) + tokens_from(src, end));
}

#[verifier::rlimit(40)]
proof fn lemma_lex_binary(l: ExprView, op: BinaryOperator, r: ExprView, src: Seq<char>, p: int)
    requires
        expr_wf(l),
        expr_wf(r),
        0 <= p,
        p + expr_text(ExprView::Binary(Box::new(l), op, Box::new(r))).len() <= src.len(),
        src.subrange(p, p + expr_text(ExprView::Binary(Box::new(l), op, Box::new(r))).len())
            == expr_text(ExprView::Binary(Box::new(l), op, Box::new(r))),
    ensures
        tokens_from(src, p) == expr_tokens(ExprView::Binary(Box::new(l), op, Box::new(r)))
            + tokens_from(src, p + expr_text(ExprView::Binary(Box::new(l), op, Box::new(r))).len()),
    decreases ExprView::Binary(Box::new(l), op, Box::new(r)), 0int,
{
    let e = ExprView::Binary(Box::new(l), op, Box::new(r));
    let t = expr_text(e);
    let end = p + t.len();
    reveal_strlit("(");
    reveal_strlit(" ");
    reveal_strlit(")");
    reveal_strlit("+");
    reveal_strlit("-");
    reveal_strlit("*");
    reveal_strlit("/");
    reveal_strlit("=");
    reveal_strlit("<");
    reveal_strlit(">");
    reveal_strlit("&");
    let lt = expr_text(l);
    let rt = expr_text(r);
    let nl = lt.len() as int;
    let nr = rt.len() as int;
    let ot = binary_op_text(op);
    assert(ot.len() == 1);
    assert(single_char_token(ot[0]) == Some(binary_op_token(op)));
    lemma_at(src, p, t);
    assert(t[0] == '(');
    assert(t[nl + 1] == ' ');
    assert(t[nl + 2] == ot[0]);
    assert(t[nl + 3] == ' ');
    assert(t[nl + nr + 4] == ')');
    assert(src[p + 0] == t[0]);
    assert(src[p + (nl + 1)] == t[nl + 1]);
    assert(src[p + (nl + 2)] == t[nl + 2]);
    assert(src[p + (nl + 3)] == t[nl + 3]);
    assert(src[p + (nl + nr + 4)] == t[nl + nr + 4]);
    assert(t.subrange(1, 1 + nl) =~= lt);
    assert(t.subrange(nl + 4, nl + 4 + nr) =~= rt);
    lemma_slice(src, p, t, 1, lt);
    lemma_slice(src, p, t, nl + 4, rt);
    lemma_lex_single(src, p);
    lemma_lex_expr(l, src, p + 1);
    lemma_lex_space(src, p + 1 + nl);
    lemma_lex_single(src, p + 2 + nl);
    lemma_lex_space(src, p + 3 + nl);
    lemma_lex_expr(r, src, p + 4 + nl);
    lemma_lex_single(src, p + 4 + nl + nr);
    assert(tokens_from(src, p) =~= expr_tokens(e) + tokens_from(src, end));
}

proof fn lemma_char_at(src: Seq<char>, p: int, t: Seq<char>, i: int)
    requires
        0 <= p,
        p + t.len() <= src.len(),
        src.subrange(p, p + t.len()) == t,
        0 <= i < t.len(),
    ensures
        src[p + i] == t[i],
{
    lemma_at(src, p, t);
}

proof fn lemma_space_at(src: Seq<char>, p: int, t: Seq<char>, i: int)
    requires
        0 <= p,
        p + t.len() <= src.len(),
        src.subrange(p, p + t.len()) == t,
        0 <= i < t.len(),
        is_space(t[i]),
    ensures
        tokens_from(src, p + i) == tokens_from(src, p + i + 1),
{
    lemma_char_at(src, p, t, i);
    lemma_lex_space(src, p + i);
}

proof fn lemma_single_at(src: Seq<char>, p: int, t: Seq<char>, i: int)
    requires
        0 <= p,
        p + t.len() <= src.len(),
        src.subrange(p, p + t.len()) == t,
        0 <= i < t.len(),
        single_char_token(t[i]) is Some,
    ensures
        tokens_from(src, p + i) == seq![single_char_token(t[i])->0] + tokens_from(src, p + i + 1),
{
    lemma_char_at(src, p, t, i);
    lemma_lex_single(src, p + i);
}

proof fn lemma_pair_at(src: Seq<char>, p: int, t: Seq<char>, i: int)
    requires
        0 <= p,
        p + t.len() <= src.len(),
        src.subrange(p, p + t.len()) == t,
        0 <= i,
        i + 1 < t.len(),
        (t[i] == ':' && t[i + 1] == '=') || (t[i] == '.' && t[i + 1] == '.'),
    ensures
        tokens_from(src, p + i) == seq![
            if t[i] == ':' {
                TokenView::Assign
            } else {
                TokenView::Range
            },
        ] + tokens_from(src, p + i + 2),
{
    lemma_char_at(src, p, t, i);
    lemma_char_at(src, p, t, i + 1);
    assert(skip_spaces(src, p + i) == p + i);
    lemma_tokens_step(src, p + i);
}

proof fn lemma_colon_at(src: Seq<char>, p: int, t: Seq<char>, i: int)
    requires
        0 <= p,
        p + t.len() <= src.len(),
        src.subrange(p, p + t.len()) == t,
        0 <= i,
        i + 1 < t.len(),
        t[i] == ':',
        t[i + 1] != '=',
    ensures
        tokens_from(src, p + i) == seq![TokenView::Colon] + tokens_from(src, p + i + 1),
{
    lemma_char_at(src, p, t, i);
    lemma_char_at(src, p, t, i + 1);
    assert(skip_spaces(src, p + i) == p + i);
    lemma_tokens_step(src, p + i);
}

proof fn lemma_word_at(src: Seq<char>, p: int, t: Seq<char>, off: int, w: Seq<char>)
    requires
        0 <= p,
        p + t.len() <= src.len(),
        src.subrange(p, p + t.len()) == t,
        0 <= off,
        off + w.len() < t.len(),
        t.subrange(off, off + w.len()) == w,
        w.len() > 0,
        is_letter(w[0]),
        forall|j: int| 0 <= j < w.len() ==> is_word_char(#[trigger] w[j]),
        !is_word_char(t[off + w.len()]),
    ensures
        tokens_from(src, p + off) == seq![keyword_or_identifier(w)] + tokens_from(
            src,
            p + off + w.len(),
        ),
{
    lemma_slice(src, p, t, off, w);
    lemma_char_at(src, p, t, off + w.len());
    lemma_lex_word(src, p + off, w);
}

proof fn lemma_identifier_at(src: Seq<char>, p: int, t: Seq<char>, off: int, w: Seq<char>)
    requires
        0 <= p,
        p + t.len() <= src.len(),
        src.subrange(p, p + t.len()) == t,
        0 <= off,
        off + w.len() < t.len(),
        t.subrange(off, off + w.len()) == w,
        is_identifier(w),
        !is_word_char(t[off + w.len()]),
    ensures
        tokens_from(src, p + off) == seq![TokenView::Identifier(w)] + tokens_from(
            src,
            p + off + w.len(),
        ),
{
    reveal(is_identifier);
    lemma_word_at(src, p, t, off, w);
}

proof fn lemma_expr_at(src: Seq<char>, p: int, t: Seq<char>, off: int, e: ExprView)
    requires
        0 <= p,
        p + t.len() <= src.len(),
        src.subrange(p, p + t.len()) == t,
        0 <= off,
        off + expr_text(e).len() < t.len(),
        t.subrange(off, off + expr_text(e).len()) == expr_text(e),
        expr_wf(e),
        !is_word_char(t[off + expr_text(e).len()]),
    ensures
        tokens_from(src, p + off) == expr_tokens(e) + tokens_from(src, p + off + expr_text(e).len()),
{
    lemma_slice(src, p, t, off, expr_text(e));
    lemma_char_at(src, p, t, off + expr_text(e).len());
    lemma_lex_expr(e, src, p + off);
}

proof fn lemma_type_text(t: Type)
    ensures
        type_text(t).len() > 0,
        is_letter(type_text(t)[0]),
        forall|j: int| 0 <= j < type_text(t).len() ==> is_word_char(#[trigger] type_text(t)[j]),
        keyword_or_identifier(type_text(t)) == type_token(t),
{
    lemma_keyword_texts();
    let w = type_text(t);
    assert(w != "for"@ && w != "in"@ && w != "do"@ && w != "end"@ && w != "true"@ && w != "false"@
        && w != "var"@ && w != "print"@) by {
        assert(w[0] != 'f' && w[0] != 'd' && w[0] != 'e' && w[0] != 't' && w[0] != 'v' && w[0] != 'p');
        assert(w[0] == 'i' ==> w.len() == 3);
    }
    match t {
        Type::Boolean => {},
        Type::String => {
            assert(w != "bool"@);
        },
        Type::Integer => {
            assert(w != "bool"@);
            assert(w != "string"@);
        },
    }
}

proof fn lemma_lex_var_init(id: Seq<char>, ty: Type, src: Seq<char>, p: int)
    requires
        0 <= p,
        p + stmt_text(StmtView::VarInitialization(id, ty)).len() <= src.len(),
        src.subrange(p, p + stmt_text(StmtView::VarInitialization(id, ty)).len()) == stmt_text(StmtView::VarInitialization(id, ty)),
        is_identifier(id),
    ensures
        tokens_from(src, p) == stmt_tokens(StmtView::VarInitialization(id, ty)) + tokens_from(src, p + stmt_text(StmtView::VarInitialization(id, ty)).len()),
{
    let t = stmt_text(StmtView::VarInitialization(id, ty));
    let tt = type_text(ty);
    let n = id.len() as int;
    let m = tt.len() as int;
    reveal_strlit("var ");
    reveal_strlit(" : ");
    reveal_strlit(";");
    lemma_keyword_texts();
    lemma_type_text(ty);
    assert(t.len() == 8 + n + m);
    assert(t.subrange(0, 3) =~= "var"@);
    assert(t.subrange(4, 4 + n) =~= id);
    assert(t.subrange(7 + n, 7 + n + m) =~= tt);
    assert(t[3] == ' ' && t[4 + n] == ' ' && t[5 + n] == ':' && t[6 + n] == ' ' && t[7 + n + m] == ';');
    lemma_word_at(src, p, t, 0, "var"@);
    lemma_space_at(src, p, t, 3);
    lemma_identifier_at(src, p, t, 4, id);
    lemma_space_at(src, p, t, 4 + n);
    lemma_colon_at(src, p, t, 5 + n);
    lemma_space_at(src, p, t, 6 + n);
    lemma_word_at(src, p, t, 7 + n, tt);
    lemma_single_at(src, p, t, 7 + n + m);
    assert(tokens_from(src, p) =~= stmt_tokens(StmtView::VarInitialization(id, ty)) + tokens_from(
        src,
        p + t.len(),
    ));
}

#[verifier::rlimit(80)]
#[verifier::spinoff_prover]
proof fn lemma_lex_new_assignment(id: Seq<char>, ty: Type, e: ExprView, src: Seq<char>, p: int)
    requires
        0 <= p,
        p + stmt_text(StmtView::NewAssignment(id, ty, e)).len() <= src.len(),
        src.subrange(p, p + stmt_text(StmtView::NewAssignment(id, ty, e)).len()) == stmt_text(StmtView::NewAssignment(id, ty, e)),
        is_identifier(id),
        expr_wf(e),
    ensures
        tokens_from(src, p) == stmt_tokens(StmtView::NewAssignment(id, ty, e)) + tokens_from(src, p + stmt_text(StmtView::NewAssignment(id, ty, e)).len()),
{
    let t = stmt_text(StmtView::NewAssignment(id, ty, e));
    let tt = type_text(ty);
    let et = expr_text(e);
    let n = id.len() as int;
    let m = tt.len() as int;
    let q = et.len() as int;
    reveal_strlit("var ");
    reveal_strlit(" : ");
    reveal_strlit(" := ");
    reveal_strlit(";");
    lemma_keyword_texts();
    lemma_type_text(ty);
    assert(t.len() == 12 + n + m + q);
    assert(t.subrange(0, 3) =~= "var"@);
    assert(t.subrange(4, 4 + n) =~= id);
    assert(t.subrange(7 + n, 7 + n + m) =~= tt);
    assert(t.subrange(11 + n + m, 11 + n + m + q) =~= et);
    assert(t[3] == ' ' && t[4 + n] == ' ' && t[5 + n] == ':' && t[6 + n] == ' ');
    assert(t[7 + n + m] == ' ' && t[8 + n + m] == ':' && t[9 + n + m] == '=' && t[10 + n + m] == ' ');
    assert(t[11 + n + m + q] == ';');
    lemma_word_at(src, p, t, 0, "var"@);
    lemma_space_at(src, p, t, 3);
    lemma_identifier_at(src, p, t, 4, id);
    lemma_space_at(src, p, t, 4 + n);
    lemma_colon_at(src, p, t, 5 + n);
    lemma_space_at(src, p, t, 6 + n);
    lemma_word_at(src, p, t, 7 + n, tt);
    lemma_space_at(src, p, t, 7 + n + m);
    lemma_pair_at(src, p, t, 8 + n + m);
    lemma_space_at(src, p, t, 10 + n + m);
    lemma_expr_at(src, p, t, 11 + n + m, e);
    lemma_single_at(src, p, t, 11 + n + m + q);
    assert(tokens_from(src, p) =~= stmt_tokens(StmtView::NewAssignment(id, ty, e)) + tokens_from(
        src,
        p + t.len(),
    ));
}

proof fn lemma_lex_assignment(id: Seq<char>, e: ExprView, src: Seq<char>, p: int)
    requires
        0 <= p,
        p + stmt_text(StmtView::Assignment(id, e)).len() <= src.len(),
        src.subrange(p, p + stmt_text(StmtView::Assignment(id, e)).len()) == stmt_text(StmtView::Assignment(id, e)),
        is_identifier(id),
        expr_wf(e),
    ensures
        tokens_from(src, p) == stmt_tokens(StmtView::Assignment(id, e)) + tokens_from(src, p + stmt_text(StmtView::Assignment(id, e)).len()),
{
    let t = stmt_text(StmtView::Assignment(id, e));
    let et = expr_text(e);
    let n = id.len() as int;
    let q = et.len() as int;
    reveal_strlit(" := ");
    reveal_strlit(";");
    assert(t.len() == 5 + n + q);
    assert(t.subrange(0, n) =~= id);
    assert(t.subrange(4 + n, 4 + n + q) =~= et);
    assert(t[n] == ' ' && t[1 + n] == ':' && t[2 + n] == '=' && t[3 + n] == ' ' && t[4 + n + q] == ';');
    lemma_identifier_at(src, p, t, 0, id);
    lemma_space_at(src, p, t, n);
    lemma_pair_at(src, p, t, 1 + n);
    lemma_space_at(src, p, t, 3 + n);
    lemma_expr_at(src, p, t, 4 + n, e);
    lemma_single_at(src, p, t, 4 + n + q);
    assert(tokens_from(src, p) =~= stmt_tokens(StmtView::Assignment(id, e)) + tokens_from(
        src,
        p + t.len(),
    ));
}

proof fn lemma_lex_print(e: ExprView, src: Seq<char>, p: int)
    requires
        0 <= p,
        p + stmt_text(StmtView::Print(e)).len() <= src.len(),
        src.subrange(p, p + stmt_text(StmtView::Print(e)).len()) == stmt_text(StmtView::Print(e)),
        expr_wf(e),
    ensures
        tokens_from(src, p) == stmt_tokens(StmtView::Print(e)) + tokens_from(src, p + stmt_text(StmtView::Print(e)).len()),
{
    let t = stmt_text(StmtView::Print(e));
    let et = expr_text(e);
    let q = et.len() as int;
    reveal_strlit("print ");
    reveal_strlit(";");
    lemma_keyword_texts();
    assert(t.len() == 7 + q);
    assert(t.subrange(0, 5) =~= "print"@);
    assert(t.subrange(6, 6 + q) =~= et);
    assert(t[5] == ' ' && t[6 + q] == ';');
    lemma_word_at(src, p, t, 0, "print"@);
    lemma_space_at(src, p, t, 5);
    lemma_expr_at(src, p, t, 6, e);
    lemma_single_at(src, p, t, 6 + q);
    assert(tokens_from(src, p) =~= stmt_tokens(StmtView::Print(e)) + tokens_from(src, p + t.len()));
}

proof fn lemma_lex_assert(e: ExprView, src: Seq<char>, p: int)
    requires
        0 <= p,
        p + stmt_text(StmtView::Assert(e)).len() <= src.len(),
        src.subrange(p, p + stmt_text(StmtView::Assert(e)).len()) == stmt_text(StmtView::Assert(e)),
        expr_wf(e),
    ensures
        tokens_from(src, p) == stmt_tokens(StmtView::Assert(e)) + tokens_from(src, p + stmt_text(StmtView::Assert(e)).len()),
{
    let t = stmt_text(StmtView::Assert(e));
    let et = expr_text(e);
    let q = et.len() as int;
    reveal_strlit("assert (");
    reveal_strlit(");");
    lemma_keyword_texts();
    assert(t.len() == 10 + q);
    assert(t.subrange(0, 6) =~= "assert"@);
    assert(t.subrange(8, 8 + q) =~= et);
    assert(t[6] == ' ' && t[7] == '(' && t[8 + q] == ')' && t[9 + q] == ';');
    lemma_word_at(src, p, t, 0, "assert"@);
    lemma_space_at(src, p, t, 6);
    lemma_single_at(src, p, t, 7);
    lemma_expr_at(src, p, t, 8, e);
    lemma_single_at(src, p, t, 8 + q);
    lemma_single_at(src, p, t, 9 + q);
    assert(tokens_from(src, p) =~= stmt_tokens(StmtView::Assert(e)) + tokens_from(src, p + t.len()));
}

proof fn lemma_lex_read(id: Seq<char>, src: Seq<char>, p: int)
    requires
        0 <= p,
        p + stmt_text(StmtView::Read(id)).len() <= src.len(),
        src.subrange(p, p + stmt_text(StmtView::Read(id)).len()) == stmt_text(StmtView::Read(id)),
        is_identifier(id),
    ensures
        tokens_from(src, p) == stmt_tokens(StmtView::Read(id)) + tokens_from(src, p + stmt_text(StmtView::Read(id)).len()),
{
    let t = stmt_text(StmtView::Read(id));
    let n = id.len() as int;
    reveal_strlit("read ");
    reveal_strlit(";");
    lemma_keyword_texts();
    assert(t.len() == 6 + n);
    assert(t.subrange(0, 4) =~= "read"@);
    assert(t.subrange(5, 5 + n) =~= id);
    assert(t[4] == ' ' && t[5 + n] == ';');
    lemma_word_at(src, p, t, 0, "read"@);
    lemma_space_at(src, p, t, 4);
    lemma_identifier_at(src, p, t, 5, id);
    lemma_single_at(src, p, t, 5 + n);
    assert(tokens_from(src, p) =~= stmt_tokens(StmtView::Read(id)) + tokens_from(src, p + t.len()));
}

proof fn lemma_body_text_front(ss: Seq<StmtView>)
    requires
        ss.len() > 0,
    ensures
        body_text(ss) == "\t"@ + stmt_text(ss[0]) + "\n"@ + body_text(ss.drop_first()),
    decreases ss.len(),
{
    if ss.len() == 1 {
        assert(ss.drop_last() =~= Seq::<StmtView>::empty());
        assert(ss.drop_first() =~= Seq::<StmtView>::empty());
        assert(body_text(ss) =~= "\t"@ + stmt_text(ss[0]) + "\n"@ + body_text(ss.drop_first()));
    } else {
        lemma_body_text_front(ss.drop_last());
        assert(ss.drop_last().drop_first() =~= ss.drop_first().drop_last());
        assert(ss.drop_first().last() == ss.last());
        assert(body_text(ss) =~= "\t"@ + stmt_text(ss[0]) + "\n"@ + body_text(ss.drop_first()));
    }
}

#[verifier::rlimit(80)]
#[verifier::spinoff_prover]
proof fn lemma_lex_for(id: Seq<char>, a: ExprView, b: ExprView, body: Seq<StmtView>, src: Seq<char>, p: int)
    requires
        0 <= p,
        p + stmt_text(StmtView::For(id, a, b, body)).len() <= src.len(),
        src.subrange(p, p + stmt_text(StmtView::For(id, a, b, body)).len()) == stmt_text(
            StmtView::For(id, a, b, body),
        ),
        is_identifier(id),
        expr_wf(a),
        expr_wf(b),
        body_wf(body),
    ensures
        tokens_from(src, p) == stmt_tokens(StmtView::For(id, a, b, body)) + tokens_from(
            src,
            p + stmt_text(StmtView::For(id, a, b, body)).len(),
        ),
    decreases body, 2int,
{
    let t = stmt_text(StmtView::For(id, a, b, body));
    let at = expr_text(a);
    let bt = expr_text(b);
    let yt = body_text(body);
    let n = id.len() as int;
    let qa = at.len() as int;
    let qb = bt.len() as int;
    let nt = yt.len() as int;
    let o = 10 + n + qa + qb;
    reveal_strlit("for ");
    reveal_strlit(" in ");
    reveal_strlit("..");
    reveal_strlit(" do\n");
    reveal_strlit("end for;");
    lemma_keyword_texts();
    assert(t.len() == o + 12 + nt);
    assert(t.subrange(0, 3) =~= "for"@);
    assert(t.subrange(4, 4 + n) =~= id);
    assert(t.subrange(5 + n, 7 + n) =~= "in"@);
    assert(t.subrange(8 + n, 8 + n + qa) =~= at);
    assert(t.subrange(10 + n + qa, o) =~= bt);
    assert(t.subrange(o + 1, o + 3) =~= "do"@);
    assert(t.subrange(o + 4, o + 4 + nt) =~= yt);
    assert(t.subrange(o + 4 + nt, o + 7 + nt) =~= "end"@);
    assert(t.subrange(o + 8 + nt, o + 11 + nt) =~= "for"@);
    assert(t[3] == ' ' && t[4 + n] == ' ' && t[7 + n] == ' ');
    assert(t[8 + n + qa] == '.' && t[9 + n + qa] == '.');
    assert(t[o] == ' ' && t[o + 3] == '\n' && t[o + 7 + nt] == ' ' && t[o + 11 + nt] == ';');
    lemma_word_at(src, p, t, 0, "for"@);
    lemma_space_at(src, p, t, 3);
    lemma_identifier_at(src, p, t, 4, id);
    lemma_space_at(src, p, t, 4 + n);
    lemma_word_at(src, p, t, 5 + n, "in"@);
    lemma_space_at(src, p, t, 7 + n);
    lemma_expr_at(src, p, t, 8 + n, a);
    lemma_pair_at(src, p, t, 8 + n + qa);
    lemma_expr_at(src, p, t, 10 + n + qa, b);
    lemma_space_at(src, p, t, o);
    lemma_word_at(src, p, t, o + 1, "do"@);
    lemma_space_at(src, p, t, o + 3);
    lemma_slice(src, p, t, o + 4, yt);
    lemma_lex_body(body, src, p + o + 4);
    lemma_word_at(src, p, t, o + 4 + nt, "end"@);
    lemma_space_at(src, p, t, o + 7 + nt);
    lemma_word_at(src, p, t, o + 8 + nt, "for"@);
    lemma_single_at(src, p, t, o + 11 + nt);
    assert(tokens_from(src, p) =~= stmt_tokens(StmtView::For(id, a, b, body)) + tokens_from(
        src,
        p + t.len(),
    ));
}

proof fn lemma_lex_body(ss: Seq<StmtView>, src: Seq<char>, p: int)
    requires
        0 <= p,
        p + body_text(ss).len() <= src.len(),
        src.subrange(p, p + body_text(ss).len()) == body_text(ss),
        body_wf(ss),
    ensures
        tokens_from(src, p) == body_tokens(ss) + tokens_from(src, p + body_text(ss).len()),
    decreases ss, 1int,
{
    if ss.len() == 0 {
        assert(body_tokens(ss) =~= Seq::<TokenView>::empty());
        assert(body_text(ss).len() == 0);
        assert(tokens_from(src, p) =~= body_tokens(ss) + tokens_from(src, p));
    } else {
        let t = body_text(ss);
        let st = stmt_text(ss[0]);
        let rt = body_text(ss.drop_first());
        let n = st.len() as int;
        lemma_body_text_front(ss);
        lemma_body_tokens_front(ss);
        reveal_strlit("\t");
        reveal_strlit("\n");
        assert(t.len() == 2 + n + rt.len());
        assert(t[0] == '\t' && t[1 + n] == '\n');
        assert(t.subrange(1, 1 + n) =~= st);
        assert(t.subrange(2 + n, 2 + n + rt.len()) =~= rt);
        lemma_space_at(src, p, t, 0);
        lemma_slice(src, p, t, 1, st);
        lemma_lex_stmt(ss[0], src, p + 1);
        lemma_space_at(src, p, t, 1 + n);
        lemma_slice(src, p, t, 2 + n, rt);
        lemma_lex_body(ss.drop_first(), src, p + 2 + n);
        assert(tokens_from(src, p) =~= body_tokens(ss) + tokens_from(src, p + t.len()));
    }
}

/// The text of a well-formed statement tokenizes to the statement's tokens.
proof fn lemma_lex_stmt(s: StmtView, src: Seq<char>, p: int)
    requires
        stmt_wf(s),
        0 <= p,
        p + stmt_text(s).len() <= src.len(),
        src.subrange(p, p + stmt_text(s).len()) == stmt_text(s),
    ensures
        tokens_from(src, p) == stmt_tokens(s) + tokens_from(src, p + stmt_text(s).len()),
    decreases s, 0int,
{
    match s {
        StmtView::VarInitialization(id, ty) => lemma_lex_var_init(id, ty, src, p),
        StmtView::NewAssignment(id, ty, e) => lemma_lex_new_assignment(id, ty, e, src, p),
        StmtView::Assignment(id, e) => lemma_lex_assignment(id, e, src, p),
        StmtView::Print(e) => lemma_lex_print(e, src, p),
        StmtView::Assert(e) => lemma_lex_assert(e, src, p),
        StmtView::Read(id) => lemma_lex_read(id, src, p),
        StmtView::For(id, a, b, body) => {
            assert(decreases_to!(s => body));
            lemma_lex_for(id, a, b, body, src, p);
        },
    }
}

/// Rendering a statement to source text and parsing that text gives back
/// the statement, with no syntax error. This holds of every statement whose
/// identifiers are words other than keywords and whose integer constants
/// are not negative (see [`stmt_wf`]).
pub proof fn lemma_render_parse_round_trip(s: StmtView)
    requires
        stmt_wf(s),
    ensures
        parse_source(stmt_text(s)) == (seq![s], Seq::<crate::utils::ParseErrorView>::empty()),
{
    let src = stmt_text(s);
    assert(src.subrange(0, src.len() as int) =~= src);
    lemma_lex_stmt(s, src, 0);
    lemma_tokens_at_end(src);
    lemma_statement_tokens_parse_back(s);
}

proof fn lemma_skip_to(ts: Seq<TokenView>, f: int, m: int)
    requires
        0 <= f <= m < ts.len(),
        ts[m] is SemiColon,
        forall|i: int| f <= i < m ==> !(#[trigger] ts[i] is SemiColon) && !(ts[i] is EOF),
    ensures
        f + skip_to_terminator(ts, f) == m,
    decreases m - f,
{
    if f < m {
        lemma_skip_to(ts, f + 1, m);
    }
}

/// A statement that does not parse, written as a token segment ending with
/// its only `;`, where parsing fails inside the segment.
pub open spec fn malformed_at(ts: Seq<TokenView>, k: int, n: int) -> bool {
    &&& n > 0
    &&& 0 <= k
    &&& k + n <= ts.len()
    &&& ts[k + n - 1] is SemiColon
    &&& forall|i: int| k <= i < k + n - 1 ==> !(#[trigger] ts[i] is SemiColon) && !(ts[i] is EOF)
    &&& parse_statement_at(ts, k) is Err
    &&& parse_statement_at(ts, k)->Err_0.1 < n
}

/// Error accumulation: two malformed statements one after the other give
/// exactly their two syntax errors, in order, and no statement; parsing
/// goes on after the first one.
#[verifier::rlimit(60)]
#[verifier::spinoff_prover]
pub proof fn lemma_two_errors(ts: Seq<TokenView>, n1: int, n2: int)
    requires
        malformed_at(ts, 0, n1),
        malformed_at(ts, n1, n2),
        ts.len() == n1 + n2 + 1,
        ts.last() is EOF,
    ensures
        parse_program_at(ts, 0) == (
            Seq::<StmtView>::empty(),
            seq![parse_statement_at(ts, 0)->Err_0.0, parse_statement_at(ts, n1)->Err_0.0],
        ),
{
    let e1 = parse_statement_at(ts, 0)->Err_0.0;
    let e2 = parse_statement_at(ts, n1)->Err_0.0;
    let f1 = parse_statement_at(ts, 0)->Err_0.1 as int;
    let f2 = n1 + parse_statement_at(ts, n1)->Err_0.1 as int;
    assert(f1 + skip_to_terminator(ts, f1) == n1 - 1) by {
        lemma_skip_to(ts, f1, n1 - 1);
    }
    assert(f2 + skip_to_terminator(ts, f2) == n1 + n2 - 1) by {
        lemma_skip_to(ts, f2, n1 + n2 - 1);
    }
    let r2 = parse_program_at(ts, n1 + n2);
    assert(r2 == (Seq::<StmtView>::empty(), Seq::<crate::utils::ParseErrorView>::empty())) by {
        assert(tok(ts, n1 + n2) is EOF);
    }
    let r1 = parse_program_at(ts, n1);
    assert(r1 == (Seq::<StmtView>::empty(), seq![e2])) by {
        assert(!(tok(ts, n1) is EOF)) by {
            if n2 > 1 {
                assert(!(ts[n1] is EOF));
            }
        }
        assert(seq![e2] + r2.1 =~= seq![e2]);
    }
    assert(parse_program_at(ts, 0) == (Seq::<StmtView>::empty(), seq![e1, e2])) by {
        assert(!(tok(ts, 0) is EOF)) by {
            if n1 > 1 {
                assert(!(ts[0] is EOF));
            }
        }
        assert(seq![e1] + r1.1 =~= seq![e1, e2]);
    }
}

/// Every identifier token of the sequence carries an [`is_identifier`] word.
pub open spec fn identifiers_wf(ts: Seq<TokenView>) -> bool {
    forall|i: int| 0 <= i < ts.len() && (#[trigger] ts[i]) is Identifier ==> is_identifier(
        ts[i]->Identifier_0,
    )
}

proof fn lemma_next_token_identifier(src: Seq<char>, pos: int)
    requires
        0 <= pos <= src.len(),
    ensures
        next_token(src, pos).0 is Identifier ==> is_identifier(next_token(src, pos).0->Identifier_0),
{
    reveal(is_identifier);
    let p = skip_spaces(src, pos);
    lemma_skip_spaces_bounds(src, pos);
    if p < src.len() && is_letter(src[p]) {
        lemma_word_end_bounds(src, p);
        let w = src.subrange(p, word_end(src, p));
        assert(is_word_char(src[p]));
        if keyword_or_identifier(w) is Identifier {
            assert(keyword_or_identifier(w) == TokenView::Identifier(w));
            assert(w[0] == src[p]);
            assert forall|j: int| 0 <= j < w.len() implies is_word_char(#[trigger] w[j]) by {
                assert(w[j] == src[p + j]);
            }
        }
    }
}

proof fn lemma_tokens_identifiers(src: Seq<char>, pos: int)
    requires
        0 <= pos <= src.len(),
    ensures
        identifiers_wf(tokens_from(src, pos)),
    decreases src.len() - pos,
{
    let (t, p) = next_token(src, pos);
    lemma_next_token_identifier(src, pos);
    lemma_next_token_progress(src, pos);
    if !(t is EOF) {
        lemma_tokens_identifiers(src, p);
        let ts = tokens_from(src, pos);
        assert(ts == seq![t] + tokens_from(src, p));
        assert forall|i: int| 0 <= i < ts.len() && (#[trigger] ts[i]) is Identifier implies is_identifier(
            ts[i]->Identifier_0,
        ) by {
            if i > 0 {
                assert(ts[i] == tokens_from(src, p)[i - 1]);
            }
        }
    }
}

proof fn lemma_tok_identifier(ts: Seq<TokenView>, k: int)
    requires
        identifiers_wf(ts),
        tok(ts, k) is Identifier,
    ensures
        is_identifier(tok(ts, k)->Identifier_0),
{
    assert(ts[k] is Identifier);
}

proof fn lemma_parsed_expression_wf(ts: Seq<TokenView>, k: int)
    requires
        identifiers_wf(ts),
    ensures
        parse_expression_at(ts, k) is Ok ==> expr_wf(parse_expression_at(ts, k)->Ok_0.0),
    decreases rest(ts, k), 2int,
{
    if tok(ts, k) is Not {
        lemma_parsed_binary_wf(ts, k + 1);
    } else {
        lemma_parsed_binary_wf(ts, k);
    }
}

proof fn lemma_parsed_binary_wf(ts: Seq<TokenView>, k: int)
    requires
        identifiers_wf(ts),
    ensures
        parse_binary_at(ts, k) is Ok ==> expr_wf(parse_binary_at(ts, k)->Ok_0.0),
    decreases rest(ts, k), 1int,
{
    lemma_parsed_operand_wf(ts, k);
    if let Ok((left, n)) = parse_operand_at(ts, k) {
        let j = k + n;
        if !ends_expression(tok(ts, j + 1)) && binary_op_of(tok(ts, j + 1)) is Some {
            lemma_parsed_binary_wf(ts, j + 2);
        }
    }
}

proof fn lemma_parsed_operand_wf(ts: Seq<TokenView>, k: int)
    requires
        identifiers_wf(ts),
    ensures
        parse_operand_at(ts, k) is Ok ==> expr_wf(parse_operand_at(ts, k)->Ok_0.0),
    decreases rest(ts, k), 0int,
{
    match tok(ts, k) {
        TokenView::Identifier(_) => lemma_tok_identifier(ts, k),
        TokenView::IntegerConstant(d) => {
            if integer_literal_value(d) is Some {
                lemma_digits_value_nonneg(d);
            }
        },
        TokenView::LeftBracket => lemma_parsed_expression_wf(ts, k + 1),
        _ => {},
    }
}

proof fn lemma_parsed_statement_wf(ts: Seq<TokenView>, k: int)
    requires
        identifiers_wf(ts),
    ensures
        parse_statement_at(ts, k) is Ok ==> stmt_wf(parse_statement_at(ts, k)->Ok_0.0),
    decreases rest(ts, k), 2int,
{
    match tok(ts, k) {
        TokenView::Identifier(_) => {
            reveal(parse_assignment_at);
            lemma_tok_identifier(ts, k);
            lemma_parsed_expression_wf(ts, k + 2);
        },
        TokenView::Var => {
            reveal(parse_new_assignment_at);
            if tok(ts, k + 1) is Identifier {
                lemma_tok_identifier(ts, k + 1);
            }
            lemma_parsed_expression_wf(ts, k + 5);
        },
        TokenView::For => {
            lemma_parsed_for_wf(ts, k);
            crate::parser::lemma_statement_for(ts, k);
        },
        TokenView::Assert => {
            reveal(parse_assert_at);
            lemma_parsed_expression_wf(ts, k + 2);
        },
        TokenView::Print => {
            reveal(parse_print_at);
            lemma_parsed_expression_wf(ts, k + 1);
        },
        TokenView::Read => {
            reveal(parse_read_at);
            if tok(ts, k + 1) is Identifier {
                lemma_tok_identifier(ts, k + 1);
            }
        },
        _ => {},
    }
}

#[verifier::rlimit(60)]
#[verifier::spinoff_prover]
proof fn lemma_parsed_for_wf(ts: Seq<TokenView>, k: int)
    requires
        identifiers_wf(ts),
    ensures
        parse_for_at(ts, k) is Ok ==> stmt_wf(parse_for_at(ts, k)->Ok_0.0),
    decreases rest(ts, k), 1int,
{
    reveal(parse_for_at);
    if tok(ts, k + 1) is Identifier && tok(ts, k + 2) is In {
        lemma_tok_identifier(ts, k + 1);
        lemma_parsed_expression_wf(ts, k + 3);
        if let Ok((a, n)) = parse_expression_at(ts, k + 3) {
            if tok(ts, k + n + 4) is Range {
                lemma_parsed_expression_wf(ts, k + n + 5);
                if let Ok((b, m)) = parse_expression_at(ts, k + n + 5) {
                    if tok(ts, k + n + m + 6) is Do {
                        lemma_parsed_body_wf(ts, k + n + m + 7);
                    }
                }
            }
        }
    }
}

proof fn lemma_parsed_body_wf(ts: Seq<TokenView>, k: int)
    requires
        identifiers_wf(ts),
    ensures
        parse_body_at(ts, k) is Ok ==> body_wf(parse_body_at(ts, k)->Ok_0.0),
    decreases rest(ts, k), 3int,
{
    if !(tok(ts, k) is End) && k < ts.len() {
        lemma_parsed_statement_wf(ts, k);
        if let Ok((s, n)) = parse_statement_at(ts, k) {
            lemma_parsed_body_wf(ts, k + n + 1);
            if let Ok((ss, p)) = parse_body_at(ts, k + n + 1) {
                let all = seq![s] + ss;
                assert(all.drop_first() =~= ss);
                assert(all[0] == s);
            }
        }
    }
}

proof fn lemma_parsed_program_wf(ts: Seq<TokenView>, k: int)
    requires
        identifiers_wf(ts),
    ensures
        forall|i: int| 0 <= i < parse_program_at(ts, k).0.len() ==> #[trigger] stmt_wf(
            parse_program_at(ts, k).0[i],
        ),
    decreases rest(ts, k),
{
    if !(tok(ts, k) is EOF) {
        lemma_parsed_statement_wf(ts, k);
        match parse_statement_at(ts, k) {
            Ok((s, n)) => {
                lemma_parsed_program_wf(ts, k + n + 1);
                let r = parse_program_at(ts, k + n + 1);
                assert(parse_program_at(ts, k).0 == seq![s] + r.0);
                assert(stmt_wf(s));
                assert forall|i: int| 0 <= i < parse_program_at(ts, k).0.len() implies #[trigger] stmt_wf(
                    parse_program_at(ts, k).0[i],
                ) by {
                    if i > 0 {
                        assert(parse_program_at(ts, k).0[i] == r.0[i - 1]);
                    } else {
                        assert(parse_program_at(ts, k).0[i] == s);
                    }
                }
            },
            Err((e, n)) => {
                let next = k + n + skip_to_terminator(ts, k + n) + 1;
                lemma_parsed_program_wf(ts, next);
                assert(parse_program_at(ts, k).0 == parse_program_at(ts, next).0);
            },
        }
    }
}

/// Parser/printer round trip: every statement parsed from a source text,
/// rendered back to source text and parsed again, gives that statement and
/// no syntax error.
pub proof fn lemma_parsed_statements_round_trip(src: Seq<char>)
    ensures
        forall|i: int| 0 <= i < parse_source(src).0.len() ==> parse_source(
            stmt_text(#[trigger] parse_source(src).0[i]),
        ) == (seq![parse_source(src).0[i]], Seq::<crate::utils::ParseErrorView>::empty()),
{
    lemma_tokens_identifiers(src, 0);
    lemma_parsed_program_wf(tokens_from(src, 0), 0);
    assert forall|i: int| 0 <= i < parse_source(src).0.len() implies parse_source(
        stmt_text(#[trigger] parse_source(src).0[i]),
    ) == (seq![parse_source(src).0[i]], Seq::<crate::utils::ParseErrorView>::empty()) by {
        lemma_render_parse_round_trip(parse_source(src).0[i]);
    }
}

} // verus!
