//! The meaning of programs: expression values and statement effects over a
//! state made of the variable environment, the output written so far, and
//! the input lines not yet read.
use vstd::prelude::*;
use crate::ast::{expr_text, BinaryOperator, ExprView, StmtView};
use crate::text::{all_digits, digits_value, integer_literal_value};
use crate::utils::{value_text, EvalErrorView, Type, ValueView};

verus! {

/// What the environment holds for a variable: its declared type, and its
/// value once it has one.
pub struct VarView {
    pub type_def: Type,
    pub value: Option<ValueView>,
}

/// The state that statements change.
pub struct EvalState {
    /// The variables declared so far.
    pub env: Map<Seq<char>, VarView>,
    /// Everything printed so far.
    pub output: Seq<char>,
    /// The input lines not yet read.
    pub input: Seq<Seq<char>>,
    /// Whether the input has ended after those lines; a `read` past the end
    /// of an ended input yields an empty line.
    pub input_closed: bool,
}

/// Whether a value has the declared type.
pub open spec fn conforms(t: Type, v: ValueView) -> bool {
    match v {
        ValueView::Bool(_) => t == Type::Boolean,
        ValueView::Integer(_) => t == Type::Integer,
        ValueView::String(_) => t == Type::String,
    }
}

/// An integer result, or `IntegerOverflow` when it does not fit in 32 bits.
pub open spec fn checked_integer(v: int) -> Result<ValueView, EvalErrorView> {
    if i32::MIN <= v <= i32::MAX {
        Ok(ValueView::Integer(v as i32))
    } else {
        Err(EvalErrorView::IntegerOverflow)
    }
}

/// Integer division rounding toward zero.
pub open spec fn truncating_div(x: int, y: int) -> int {
    let q = (if x < 0 { -x } else { x }) / (if y < 0 { -y } else { y });
    if (x < 0) == (y < 0) {
        q
    } else {
        -q
    }
}

/// Lexicographic order on character sequences: `a` comes strictly before `b`.
pub open spec fn seq_less(a: Seq<char>, b: Seq<char>) -> bool
    decreases a.len(),
{
    if a.len() == 0 {
        b.len() > 0
    } else if b.len() == 0 {
        false
    } else if a[0] != b[0] {
        a[0] < b[0]
    } else {
        seq_less(a.drop_first(), b.drop_first())
    }
}

/// A binary operator applied to two values.
pub open spec fn apply_binary(op: BinaryOperator, a: ValueView, b: ValueView) -> Result<ValueView, EvalErrorView> {
    match (a, b) {
        (ValueView::Integer(x), ValueView::Integer(y)) => match op {
            BinaryOperator::Plus => checked_integer(x + y),
            BinaryOperator::Minus => checked_integer(x - y),
            BinaryOperator::Multiplication => checked_integer(x * y),
            BinaryOperator::Division => if y == 0 {
                Err(EvalErrorView::DivisionByZero)
            } else {
                checked_integer(truncating_div(x as int, y as int))
            },
            BinaryOperator::Equals => Ok(ValueView::Bool(x == y)),
            BinaryOperator::LessThan => Ok(ValueView::Bool(x < y)),
            BinaryOperator::GreaterThan => Ok(ValueView::Bool(x > y)),
            BinaryOperator::And => Err(EvalErrorView::UnsupportedOperation),
        },
        (ValueView::Bool(x), ValueView::Bool(y)) => match op {
            BinaryOperator::And => Ok(ValueView::Bool(x && y)),
            BinaryOperator::Equals => Ok(ValueView::Bool(x == y)),
            BinaryOperator::LessThan => Ok(ValueView::Bool(!x && y)),
            BinaryOperator::GreaterThan => Ok(ValueView::Bool(x && !y)),
            _ => Err(EvalErrorView::UnsupportedOperation),
        },
        (ValueView::String(x), ValueView::String(y)) => match op {
            BinaryOperator::Plus => Ok(ValueView::String(x + y)),
            BinaryOperator::Equals => Ok(ValueView::Bool(x == y)),
            BinaryOperator::LessThan => Ok(ValueView::Bool(seq_less(x, y))),
            BinaryOperator::GreaterThan => Ok(ValueView::Bool(seq_less(y, x))),
            _ => Err(EvalErrorView::UnsupportedOperation),
        },
        _ => Err(EvalErrorView::MismatchedTypes),
    }
}

/// The value of an expression in an environment. Operands are evaluated
/// left to right; the first error ends the evaluation.
pub open spec fn eval_expr(env: Map<Seq<char>, VarView>, e: ExprView) -> Result<ValueView, EvalErrorView>
    decreases e,
{
    match e {
        ExprView::Identifier(id) => if env.contains_key(id) && env[id].value is Some {
            Ok(env[id].value->0)
        } else {
            Err(EvalErrorView::VariableNotInitialized(id))
        },
        ExprView::IntegerConstant(i) => Ok(ValueView::Integer(i)),
        ExprView::StringValue(s) => Ok(ValueView::String(s)),
        ExprView::Boolean(b) => Ok(ValueView::Bool(b)),
        ExprView::Unary(_, x) => match eval_expr(env, *x) {
            Ok(ValueView::Bool(b)) => Ok(ValueView::Bool(!b)),
            Ok(_) => Err(EvalErrorView::MismatchedTypes),
            Err(err) => Err(err),
        },
        ExprView::Binary(l, op, r) => match eval_expr(env, *l) {
            Err(err) => Err(err),
            Ok(a) => match eval_expr(env, *r) {
                Err(err) => Err(err),
                Ok(b) => apply_binary(op, a, b),
            },
        },
    }
}

/// The characters with the Unicode `White_Space` property: tab, line feed,
/// vertical tab, form feed, carriage return, space, next line, no-break
/// space, Ogham space mark, the spaces U+2000 to U+200A, line and paragraph
/// separators, narrow no-break space, medium mathematical space, and
/// ideographic space.
pub open spec fn unicode_white_space(c: char) -> bool {
    let u = c as u32;
    (0x09 <= u && u <= 0x0D) || u == 0x20 || u == 0x85 || u == 0xA0 || u == 0x1680
        || (0x2000 <= u && u <= 0x200A) || u == 0x2028 || u == 0x2029 || u == 0x202F || u == 0x205F
        || u == 0x3000
}

/// A line without its leading whitespace.
pub open spec fn trim_start(s: Seq<char>) -> Seq<char>
    decreases s.len(),
{
    if s.len() > 0 && unicode_white_space(s[0]) {
        trim_start(s.drop_first())
    } else {
        s
    }
}

/// A line without its trailing whitespace.
pub open spec fn trim_end(s: Seq<char>) -> Seq<char>
    decreases s.len(),
{
    if s.len() > 0 && unicode_white_space(s.last()) {
        trim_end(s.drop_last())
    } else {
        s
    }
}

/// The `i32` that a text denotes: an optional sign followed by decimal
/// digits, within the range of `i32`.
pub open spec fn signed_value(s: Seq<char>) -> Option<i32> {
    if s.len() > 0 && s[0] == '-' {
        let d = s.drop_first();
        if d.len() > 0 && all_digits(d) && digits_value(d) <= 2147483648 {
            Some((-digits_value(d)) as i32)
        } else {
            None
        }
    } else if s.len() > 0 && s[0] == '+' {
        integer_literal_value(s.drop_first())
    } else {
        integer_literal_value(s)
    }
}

/// The value that a line read into a variable of type `t` gives: the line
/// itself for a string, the integer it denotes once trimmed for an integer.
pub open spec fn read_value(t: Type, line: Seq<char>) -> Result<ValueView, EvalErrorView> {
    match t {
        Type::String => Ok(ValueView::String(line)),
        Type::Integer => match signed_value(trim_end(trim_start(line))) {
            Some(v) => Ok(ValueView::Integer(v)),
            None => Err(EvalErrorView::MismatchedTypes),
        },
        Type::Boolean => Err(EvalErrorView::MismatchedTypes),
    }
}

/// The state with `id` bound to `v` under type `t`.
pub open spec fn bind(st: EvalState, id: Seq<char>, t: Type, v: Option<ValueView>) -> EvalState {
    EvalState { env: st.env.insert(id, VarView { type_def: t, value: v }), ..st }
}

/// Takes the next input line: the first line left, or an empty line when
/// the input has ended; `InputExhausted` when no line is left and the input
/// has not ended.
pub open spec fn take_line(st: EvalState) -> Result<(EvalState, Seq<char>), EvalErrorView> {
    if st.input.len() > 0 {
        Ok((EvalState { input: st.input.drop_first(), ..st }, st.input[0]))
    } else if st.input_closed {
        Ok((st, Seq::empty()))
    } else {
        Err(EvalErrorView::InputExhausted)
    }
}

/// The outcome of running statements: the state reached, and whether they
/// all ran or which error stopped them.
pub type Outcome = (EvalState, Result<(), EvalErrorView>);

/// The effect of one statement.
pub open spec fn exec_stmt(st: EvalState, s: StmtView) -> Outcome
    decreases s, 0int, 0int,
{
    match s {
        StmtView::VarInitialization(id, t) => if st.env.contains_key(id) {
            (st, Err(EvalErrorView::VariableAlreadyInitialized(id)))
        } else {
            (bind(st, id, t, None), Ok(()))
        },
        StmtView::NewAssignment(id, t, e) => match eval_expr(st.env, e) {
            Err(err) => (st, Err(err)),
            Ok(v) => if !conforms(t, v) {
                (st, Err(EvalErrorView::MismatchedTypes))
            } else if st.env.contains_key(id) {
                (st, Err(EvalErrorView::VariableAlreadyInitialized(id)))
            } else {
                (bind(st, id, t, Some(v)), Ok(()))
            },
        },
        StmtView::Assignment(id, e) => if !st.env.contains_key(id) {
            (st, Err(EvalErrorView::VariableNotInitialized(id)))
        } else {
            match eval_expr(st.env, e) {
                Err(err) => (st, Err(err)),
                Ok(v) => if !conforms(st.env[id].type_def, v) {
                    (st, Err(EvalErrorView::MismatchedTypes))
                } else {
                    (bind(st, id, st.env[id].type_def, Some(v)), Ok(()))
                },
            }
        },
        StmtView::Print(e) => match eval_expr(st.env, e) {
            Err(err) => (st, Err(err)),
            Ok(v) => (EvalState { output: st.output + value_text(v), ..st }, Ok(())),
        },
        StmtView::Assert(e) => match eval_expr(st.env, e) {
            Err(err) => (st, Err(err)),
            Ok(ValueView::Bool(true)) => (st, Ok(())),
            Ok(ValueView::Bool(false)) => (
                EvalState {
                    output: st.output + "Assertion failed: "@ + expr_text(e) + "\n"@,
                    ..st
                },
                Ok(()),
            ),
            Ok(_) => (st, Err(EvalErrorView::MismatchedTypes)),
        },
        StmtView::Read(id) => if !st.env.contains_key(id) {
            (st, Err(EvalErrorView::VariableNotInitialized(id)))
        } else {
            match take_line(st) {
                Err(err) => (st, Err(err)),
                Ok((st1, line)) => match read_value(st.env[id].type_def, line) {
                    Err(err) => (st1, Err(err)),
                    Ok(v) => (bind(st1, id, st.env[id].type_def, Some(v)), Ok(())),
                },
            }
        },
        StmtView::For(id, a, b, body) => match eval_expr(st.env, a) {
            Err(err) => (st, Err(err)),
            Ok(ValueView::Integer(start)) => match eval_expr(st.env, b) {
                Err(err) => (st, Err(err)),
                Ok(ValueView::Integer(end)) => if !st.env.contains_key(id) {
                    (st, Err(EvalErrorView::VariableNotInitialized(id)))
                } else if st.env[id].type_def != Type::Integer {
                    (st, Err(EvalErrorView::MismatchedTypes))
                } else {
                    exec_loop(st, id, start as int, end as int, body)
                },
                Ok(_) => (st, Err(EvalErrorView::MismatchedTypes)),
            },
            Ok(_) => (st, Err(EvalErrorView::MismatchedTypes)),
        },
    }
}

/// The iterations of a loop from `i` to `end` inclusive: each binds the
/// loop variable to its number and runs the whole body.
pub open spec fn exec_loop(st: EvalState, id: Seq<char>, i: int, end: int, body: Seq<StmtView>) -> Outcome
    decreases body, 1int, end + 1 - i,
{
    if i > end {
        (st, Ok(()))
    } else {
        let r = exec_stmts(bind(st, id, Type::Integer, Some(ValueView::Integer(i as i32))), body);
        if r.1 is Err {
            r
        } else {
            exec_loop(r.0, id, i + 1, end, body)
        }
    }
}

/// The effect of statements run in order, up to the first error.
pub open spec fn exec_stmts(st: EvalState, ss: Seq<StmtView>) -> Outcome
    decreases ss, 0int, 0int,
{
    if ss.len() == 0 {
        (st, Ok(()))
    } else {
        let r = exec_stmt(st, ss[0]);
        if r.1 is Err {
            r
        } else {
            exec_stmts(r.0, ss.drop_first())
        }
    }
}

} // verus!
