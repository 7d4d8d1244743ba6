//! The tree-walking evaluator: runs statements against one global typed
//! environment, writes printed text to an output buffer, and takes `read`
//! lines from the input handed to it.
use vstd::prelude::*;
use crate::ast::{BinaryOperator, ExprView, Expression, Program, Statement, StmtView, UnaryOperator};
use crate::parser::{boxed_views, stmt_views};
use crate::semantics::{
    apply_binary, bind, conforms, eval_expr, exec_loop, exec_stmt, exec_stmts, seq_less,
    signed_value, take_line, trim_end, trim_start, unicode_white_space, EvalState, VarView,
};
use crate::text::{all_digits, chars_of, digits_within, lemma_digits_value_nonneg, push_str};
use crate::utils::{EvalError, EvalErrorView, Type, Value, ValueView};

verus! {

type EvalResult<T> = Result<T, EvalError>;

/// The mathematical value of an optional value.
pub open spec fn opt_view(o: Option<Value>) -> Option<ValueView> {
    match o {
        Some(v) => Some(v@),
        None => None,
    }
}

/// The mathematical value of an evaluation result.
pub open spec fn value_result(r: Result<Value, EvalError>) -> Result<ValueView, EvalErrorView> {
    match r {
        Ok(v) => Ok(v@),
        Err(e) => Err(e@),
    }
}

/// The mathematical value of a statement result.
pub open spec fn unit_result(r: Result<(), EvalError>) -> Result<(), EvalErrorView> {
    match r {
        Ok(_) => Ok(()),
        Err(e) => Err(e@),
    }
}

/// The number of nodes of an expression tree.
spec fn expr_size(e: ExprView) -> nat
    decreases e,
{
    match e {
        ExprView::Unary(_, x) => 1 + expr_size(*x),
        ExprView::Binary(l, _, r) => 1 + expr_size(*l) + expr_size(*r),
        _ => 1,
    }
}

/// One variable of the environment.
struct Binding {
    name: String,
    type_def: Type,
    value: Option<Value>,
}

spec fn var_of(b: Binding) -> VarView {
    VarView { type_def: b.type_def, value: opt_view(b.value) }
}

/// The environment that a list of bindings stands for.
spec fn env_of(bs: Seq<Binding>) -> Map<Seq<char>, VarView>
    decreases bs.len(),
{
    if bs.len() == 0 {
        Map::empty()
    } else {
        env_of(bs.drop_last()).insert(bs.last().name@, var_of(bs.last()))
    }
}

spec fn names_unique(bs: Seq<Binding>) -> bool {
    forall|i: int, j: int| 0 <= i < j < bs.len() ==> bs[i].name@ != bs[j].name@
}

proof fn lemma_env_absent(bs: Seq<Binding>, n: Seq<char>)
    requires
        forall|i: int| 0 <= i < bs.len() ==> bs[i].name@ != n,
    ensures
        !env_of(bs).contains_key(n),
    decreases bs.len(),
{
    if bs.len() > 0 {
        lemma_env_absent(bs.drop_last(), n);
    }
}

proof fn lemma_env_lookup(bs: Seq<Binding>, i: int)
    requires
        names_unique(bs),
        0 <= i < bs.len(),
    ensures
        env_of(bs).contains_key(bs[i].name@),
        env_of(bs)[bs[i].name@] == var_of(bs[i]),
    decreases bs.len(),
{
    if i < bs.len() - 1 {
        lemma_env_lookup(bs.drop_last(), i);
    }
}

proof fn lemma_env_update(bs: Seq<Binding>, i: int, b: Binding)
    requires
        names_unique(bs),
        0 <= i < bs.len(),
        b.name@ == bs[i].name@,
    ensures
        env_of(bs.update(i, b)) =~= env_of(bs).insert(b.name@, var_of(b)),
        names_unique(bs.update(i, b)),
    decreases bs.len(),
{
    let u = bs.update(i, b);
    if i == bs.len() - 1 {
        assert(u.drop_last() =~= bs.drop_last());
        lemma_env_absent(bs.drop_last(), b.name@);
    } else {
        assert(u.drop_last() =~= bs.drop_last().update(i, b));
        lemma_env_update(bs.drop_last(), i, b);
    }
}

/// The running state of a program: the environment, the output buffer and
/// the input lines.
struct Runtime {
    global_scope: Vec<Binding>,
    output: String,
    input: Vec<String>,
    next_input: usize,
    input_closed: bool,
}

impl Runtime {
    spec fn wf(&self) -> bool {
        &&& names_unique(self.global_scope@)
        &&& self.next_input <= self.input@.len()
    }

    spec fn state(&self) -> EvalState {
        EvalState {
            env: env_of(self.global_scope@),
            output: self.output@,
            input: self.input@.subrange(self.next_input as int, self.input@.len() as int).map_values(
                |s: String| s@,
            ),
            input_closed: self.input_closed,
        }
    }

    fn lookup(&self, id: &String) -> (r: Option<usize>)
        requires
            self.wf(),
        ensures
            match r {
                Some(i) => i < self.global_scope@.len() && self.global_scope@[i as int].name@ == id@
                    && env_of(self.global_scope@).contains_key(id@)
                    && env_of(self.global_scope@)[id@] == var_of(self.global_scope@[i as int]),
                None => !env_of(self.global_scope@).contains_key(id@),
            },
    {
        let mut i: usize = 0;
        while i < self.global_scope.len()
            invariant
                names_unique(self.global_scope@),
                i <= self.global_scope@.len(),
                forall|j: int| 0 <= j < i ==> self.global_scope@[j].name@ != id@,
            decreases self.global_scope@.len() - i,
        {
            if self.global_scope[i].name.eq(id) {
                proof {
                    lemma_env_lookup(self.global_scope@, i as int);
                }
                return Some(i);
            }
            i = i + 1;
        }
        proof {
            lemma_env_absent(self.global_scope@, id@);
        }
        None
    }

    /// Binds `id` to `value` under `type_def`, replacing what it held.
    fn set_variable(&mut self, id: String, type_def: Type, value: Option<Value>)
        requires
            old(self).wf(),
        ensures
            final(self).wf(),
            final(self).state() == bind(old(self).state(), id@, type_def, opt_view(value)),
    {
        let ghost n = id@;
        let ghost v = opt_view(value);
        let b = Binding { name: id, type_def, value };
        match self.lookup(&b.name) {
            Some(i) => {
                proof {
                    lemma_env_update(self.global_scope@, i as int, b);
                }
                self.global_scope[i] = b;
            },
            None => {
                proof {
                    assert forall|j: int| 0 <= j < self.global_scope@.len() implies self.global_scope@[j].name@
                        != n by {
                        if self.global_scope@[j].name@ == n {
                            lemma_env_lookup(self.global_scope@, j);
                        }
                    }
                }
                self.global_scope.push(b);
                proof {
                    assert(self.global_scope@.drop_last() =~= old(self).global_scope@);
                }
            },
        }
        assert(self.state().env =~= bind(old(self).state(), n, type_def, v).env);
    }

    fn find_assigned_variable(&self, id: &String) -> (r: EvalResult<(Type, Option<Value>)>)
        requires
            self.wf(),
        ensures
            match r {
                Ok((t, v)) => self.state().env.contains_key(id@) && self.state().env[id@] == (VarView {
                    type_def: t,
                    value: opt_view(v),
                }),
                Err(e) => !self.state().env.contains_key(id@) && e@
                    == EvalErrorView::VariableNotInitialized(id@),
            },
    {
        match self.lookup(id) {
            Some(i) => {
                let b = &self.global_scope[i];
                let v = match &b.value {
                    Some(x) => Some(x.clone()),
                    None => None,
                };
                Ok((b.type_def, v))
            },
            None => Err(EvalError::VariableNotInitialized(id.clone())),
        }
    }

    fn add_new_variable(&mut self, id: String, type_def: Type, value: Option<Value>) -> (r: EvalResult<()>)
        requires
            old(self).wf(),
        ensures
            final(self).wf(),
            if old(self).state().env.contains_key(id@) {
                *final(self) == *old(self) && unit_result(r) == Err::<(), EvalErrorView>(
                    EvalErrorView::VariableAlreadyInitialized(id@),
                )
            } else {
                r is Ok && final(self).state() == bind(old(self).state(), id@, type_def, opt_view(value))
            },
    {
        match self.lookup(&id) {
            Some(_) => Err(EvalError::VariableAlreadyInitialized(id)),
            None => {
                self.set_variable(id, type_def, value);
                Ok(())
            },
        }
    }
}

/// Relies on `char::is_whitespace`: whether the character has the Unicode
/// `White_Space` property.
#[verifier::external_body]
fn is_white_space(c: char) -> (r: bool)
    ensures
        r == unicode_white_space(c),
{
    c.is_whitespace()
}

/// Whether `a` comes strictly before `b` in lexicographic order.
fn string_less(a: &String, b: &String) -> (r: bool)
    ensures
        r == seq_less(a@, b@),
{
    let x = chars_of(a.as_str());
    let y = chars_of(b.as_str());
    let mut i: usize = 0;
    assert(x@.subrange(0, x@.len() as int) =~= a@);
    assert(y@.subrange(0, y@.len() as int) =~= b@);
    while i < x.len() && i < y.len() && x[i] == y[i]
        invariant
            x@ == a@,
            y@ == b@,
            i <= x@.len(),
            i <= y@.len(),
            seq_less(a@, b@) == seq_less(x@.subrange(i as int, x@.len() as int), y@.subrange(
                i as int,
                y@.len() as int,
            )),
        decreases x@.len() - i,
    {
        proof {
            let xs = x@.subrange(i as int, x@.len() as int);
            let ys = y@.subrange(i as int, y@.len() as int);
            assert(xs.drop_first() =~= x@.subrange(i + 1, x@.len() as int));
            assert(ys.drop_first() =~= y@.subrange(i + 1, y@.len() as int));
        }
        i = i + 1;
    }
    if i == x.len() {
        i < y.len()
    } else if i == y.len() {
        false
    } else {
        x[i] < y[i]
    }
}

/// A binary operator applied to two values, as [`apply_binary`] states.
fn apply_binary_op(op: BinaryOperator, a: Value, b: Value) -> (r: EvalResult<Value>)
    ensures
        value_result(r) == apply_binary(op, a@, b@),
{
    match (a, b) {
        (Value::Integer(x), Value::Integer(y)) => {
            let x = x as i64;
            let y = y as i64;
            let v: i64 = match op {
                BinaryOperator::Plus => x + y,
                BinaryOperator::Minus => x - y,
                BinaryOperator::Multiplication => {
                    assert(-2147483648 * 2147483648 <= x * y <= 2147483648 * 2147483648)
                        by (nonlinear_arith)
                        requires
                            -2147483648 <= x <= 2147483647,
                            -2147483648 <= y <= 2147483647,
                    ;
                    x * y
                },
                BinaryOperator::Division => {
                    if y == 0 {
                        return Err(EvalError::DivisionByZero);
                    }
                    let ux: u64 = if x < 0 { (-x) as u64 } else { x as u64 };
                    let uy: u64 = if y < 0 { (-y) as u64 } else { y as u64 };
                    let q = (ux / uy) as i64;
                    if (x < 0) == (y < 0) {
                        q
                    } else {
                        -q
                    }
                },
                BinaryOperator::Equals => {
                    return Ok(Value::Bool(x == y));
                },
                BinaryOperator::LessThan => {
                    return Ok(Value::Bool(x < y));
                },
                BinaryOperator::GreaterThan => {
                    return Ok(Value::Bool(x > y));
                },
                BinaryOperator::And => {
                    return Err(EvalError::UnsupportedOperation);
                },
            };
            if v < -2147483648 || v > 2147483647 {
                Err(EvalError::IntegerOverflow)
            } else {
                Ok(Value::Integer(v as i32))
            }
        },
        (Value::Bool(x), Value::Bool(y)) => match op {
            BinaryOperator::And => Ok(Value::Bool(x && y)),
            BinaryOperator::Equals => Ok(Value::Bool(x == y)),
            BinaryOperator::LessThan => Ok(Value::Bool(!x && y)),
            BinaryOperator::GreaterThan => Ok(Value::Bool(x && !y)),
            _ => Err(EvalError::UnsupportedOperation),
        },
        (Value::String(x), Value::String(y)) => match op {
            BinaryOperator::Plus => {
                let mut s = x;
                push_str(&mut s, y.as_str());
                Ok(Value::String(s))
            },
            BinaryOperator::Equals => Ok(Value::Bool(x.eq(&y))),
            BinaryOperator::LessThan => Ok(Value::Bool(string_less(&x, &y))),
            BinaryOperator::GreaterThan => Ok(Value::Bool(string_less(&y, &x))),
            _ => Err(EvalError::UnsupportedOperation),
        },
        _ => Err(EvalError::MismatchedTypes),
    }
}

/// Whether a value has the declared type: `MismatchedTypes` when it does
/// not.
fn check_type_conformance(type_def: Type, val: &Value) -> (r: EvalResult<()>)
    ensures
        r is Ok <==> conforms(type_def, val@),
        r is Err ==> r->Err_0@ == EvalErrorView::MismatchedTypes,
{
    match val {
        Value::Bool(_) => match type_def {
            Type::Boolean => Ok(()),
            _ => Err(EvalError::MismatchedTypes),
        },
        Value::Integer(_) => match type_def {
            Type::Integer => Ok(()),
            _ => Err(EvalError::MismatchedTypes),
        },
        Value::String(_) => match type_def {
            Type::String => Ok(()),
            _ => Err(EvalError::MismatchedTypes),
        },
    }
}

impl Runtime {
    fn evaluate_expression(&self, exp: &Expression) -> (r: EvalResult<Value>)
        requires
            self.wf(),
        ensures
            value_result(r) == eval_expr(self.state().env, exp@),
        decreases expr_size(exp@) * 2 + 1,
    {
        match exp {
            Expression::IntegerConstant(val) => Ok(Value::Integer(*val)),
            Expression::StringValue(string) => Ok(Value::String(string.clone())),
            Expression::Boolean(boolean) => Ok(Value::Bool(*boolean)),
            Expression::Binary(l, op, r) => self.evaluate_binary(l, *op, r),
            Expression::Unary(op, x) => self.evaluate_unary(*op, x),
            Expression::Identifier(id) => {
                let (_, opt) = self.find_assigned_variable(id)?;
                match opt {
                    Some(val) => Ok(val),
                    None => Err(EvalError::VariableNotInitialized(id.clone())),
                }
            },
        }
    }

    fn evaluate_binary(&self, left: &Expression, op: BinaryOperator, right: &Expression) -> (r: EvalResult<Value>)
        requires
            self.wf(),
        ensures
            value_result(r) == match eval_expr(self.state().env, left@) {
                Err(err) => Err(err),
                Ok(a) => match eval_expr(self.state().env, right@) {
                    Err(err) => Err(err),
                    Ok(b) => apply_binary(op, a, b),
                },
            },
        decreases (expr_size(left@) + expr_size(right@) + 1) * 2,
    {
        let a = self.evaluate_expression(left)?;
        let b = self.evaluate_expression(right)?;
        apply_binary_op(op, a, b)
    }

    fn evaluate_unary(&self, op: UnaryOperator, exp: &Expression) -> (r: EvalResult<Value>)
        requires
            self.wf(),
        ensures
            value_result(r) == match eval_expr(self.state().env, exp@) {
                Ok(ValueView::Bool(b)) => Ok(ValueView::Bool(!b)),
                Ok(_) => Err(EvalErrorView::MismatchedTypes),
                Err(err) => Err(err),
            },
        decreases (expr_size(exp@) + 1) * 2,
    {
        let val = self.evaluate_expression(exp)?;
        match val {
            Value::Bool(boolean) => match op {
                UnaryOperator::Not => Ok(Value::Bool(!boolean)),
            },
            _ => Err(EvalError::MismatchedTypes),
        }
    }
}

/// The integer that a line read into an integer variable denotes: the
/// line without its surrounding whitespace, as [`signed_value`] states.
fn parse_integer_line(line: &String) -> (r: Option<i32>)
    ensures
        r == signed_value(trim_end(trim_start(line@))),
{
    let cs = chars_of(line.as_str());
    let n = cs.len();
    let mut a: usize = 0;
    assert(cs@.subrange(0, n as int) =~= cs@);
    while a < n && is_white_space(cs[a])
        invariant
            n == cs@.len(),
            cs@ == line@,
            a <= n,
            trim_start(line@) == trim_start(cs@.subrange(a as int, n as int)),
        decreases n - a,
    {
        assert(cs@.subrange(a as int, n as int).drop_first() =~= cs@.subrange(a + 1, n as int));
        a = a + 1;
    }
    let ghost front = cs@.subrange(a as int, n as int);
    assert(trim_start(line@) == front);
    let mut b: usize = n;
    while b > a && is_white_space(cs[b - 1])
        invariant
            n == cs@.len(),
            a <= b <= n,
            front == cs@.subrange(a as int, n as int),
            trim_end(front) == trim_end(cs@.subrange(a as int, b as int)),
        decreases b,
    {
        assert(cs@.subrange(a as int, b as int).drop_last() =~= cs@.subrange(a as int, b - 1));
        b = b - 1;
    }
    let mut t: Vec<char> = Vec::new();
    let mut j: usize = a;
    while j < b
        invariant
            n == cs@.len(),
            a <= j <= b <= n,
            t@ == cs@.subrange(a as int, j as int),
        decreases b - j,
    {
        t.push(cs[j]);
        j = j + 1;
        assert(t@ =~= cs@.subrange(a as int, j as int));
    }
    assert(t@ == trim_end(trim_start(line@)));
    proof {
        if t@.len() > 1 && all_digits(t@.drop_first()) {
            lemma_digits_value_nonneg(t@.drop_first());
        }
        if all_digits(t@) {
            lemma_digits_value_nonneg(t@);
        }
    }
    if t.len() > 0 && t[0] == '-' {
        assert(t@.subrange(1, t@.len() as int) =~= t@.drop_first());
        match digits_within(&t, 1, 2147483648) {
            Some(v) => Some((-(v as i64)) as i32),
            None => None,
        }
    } else if t.len() > 0 && t[0] == '+' {
        assert(t@.subrange(1, t@.len() as int) =~= t@.drop_first());
        match digits_within(&t, 1, 2147483647) {
            Some(v) => Some(v as i32),
            None => None,
        }
    } else {
        assert(t@.subrange(0, t@.len() as int) =~= t@);
        match digits_within(&t, 0, 2147483647) {
            Some(v) => Some(v as i32),
            None => None,
        }
    }
}

impl Runtime {
    fn get_input(&mut self) -> (r: EvalResult<String>)
        requires
            old(self).wf(),
        ensures
            final(self).wf(),
            match take_line(old(self).state()) {
                Ok((st, line)) => r is Ok && r->Ok_0@ == line && final(self).state() == st,
                Err(err) => r is Err && r->Err_0@ == err && *final(self) == *old(self),
            },
    {
        if self.next_input < self.input.len() {
            let line = self.input[self.next_input].clone();
            let ghost old_input = self.state().input;
            self.next_input = self.next_input + 1;
            assert(self.state().input =~= old_input.drop_first());
            Ok(line)
        } else if self.input_closed {
            Ok(String::new())
        } else {
            Err(EvalError::InputExhausted)
        }
    }

    fn evaluate_statement(&mut self, statement: &Statement) -> (r: EvalResult<()>)
        requires
            old(self).wf(),
        ensures
            final(self).wf(),
            (final(self).state(), unit_result(r)) == exec_stmt(old(self).state(), statement@),
        decreases statement@, 0int,
    {
        match statement {
            Statement::NewAssignment(id, type_def, exp) => self.evaluate_new_assignment(id, *type_def, exp),
            Statement::VarInitialization(id, type_def) => self.evaluate_var_init(id, *type_def),
            Statement::Assignment(id, exp) => self.evaluate_assignment(id, exp),
            Statement::Print(exp) => self.evaluate_print(exp),
            Statement::Assert(exp) => self.evaluate_assert(exp),
            Statement::Read(id) => self.evaluate_read(id),
            Statement::For(id, start, end, stmts) => {
                proof {
                    assert(statement@->For_3 =~= boxed_views(stmts@));
                    assert(decreases_to!(statement@ => statement@->For_3));
                }
                self.evaluate_for(id, start, end, stmts)
            },
        }
    }

    fn evaluate_new_assignment(&mut self, id: &String, type_def: Type, exp: &Expression) -> (r: EvalResult<()>)
        requires
            old(self).wf(),
        ensures
            final(self).wf(),
            (final(self).state(), unit_result(r)) == exec_stmt(
                old(self).state(),
                StmtView::NewAssignment(id@, type_def, exp@),
            ),
    {
        let val = self.evaluate_expression(exp)?;
        check_type_conformance(type_def, &val)?;
        self.add_new_variable(id.clone(), type_def, Some(val))
    }

    fn evaluate_var_init(&mut self, id: &String, type_def: Type) -> (r: EvalResult<()>)
        requires
            old(self).wf(),
        ensures
            final(self).wf(),
            (final(self).state(), unit_result(r)) == exec_stmt(
                old(self).state(),
                StmtView::VarInitialization(id@, type_def),
            ),
    {
        self.add_new_variable(id.clone(), type_def, None)
    }

    fn evaluate_assignment(&mut self, id: &String, exp: &Expression) -> (r: EvalResult<()>)
        requires
            old(self).wf(),
        ensures
            final(self).wf(),
            (final(self).state(), unit_result(r)) == exec_stmt(
                old(self).state(),
                StmtView::Assignment(id@, exp@),
            ),
    {
        let (type_def, _) = self.find_assigned_variable(id)?;
        let val = self.evaluate_expression(exp)?;
        check_type_conformance(type_def, &val)?;
        self.set_variable(id.clone(), type_def, Some(val));
        Ok(())
    }

    fn evaluate_print(&mut self, exp: &Expression) -> (r: EvalResult<()>)
        requires
            old(self).wf(),
        ensures
            final(self).wf(),
            (final(self).state(), unit_result(r)) == exec_stmt(old(self).state(), StmtView::Print(exp@)),
    {
        let val = self.evaluate_expression(exp)?;
        let text = val.to_string();
        push_str(&mut self.output, text.as_str());
        Ok(())
    }

    fn evaluate_assert(&mut self, exp: &Expression) -> (r: EvalResult<()>)
        requires
            old(self).wf(),
        ensures
            final(self).wf(),
            (final(self).state(), unit_result(r)) == exec_stmt(old(self).state(), StmtView::Assert(exp@)),
    {
        let val = self.evaluate_expression(exp)?;
        match val {
            Value::Bool(boolean) => {
                if !boolean {
                    push_str(&mut self.output, "Assertion failed: ");
                    let text = exp.to_string();
                    push_str(&mut self.output, text.as_str());
                    push_str(&mut self.output, "\n");
                }
                Ok(())
            },
            _ => Err(EvalError::MismatchedTypes),
        }
    }

    fn evaluate_read(&mut self, id: &String) -> (r: EvalResult<()>)
        requires
            old(self).wf(),
        ensures
            final(self).wf(),
            (final(self).state(), unit_result(r)) == exec_stmt(old(self).state(), StmtView::Read(id@)),
    {
        let (type_def, _) = self.find_assigned_variable(id)?;
        let input = self.get_input()?;
        match type_def {
            Type::String => {
                self.set_variable(id.clone(), type_def, Some(Value::String(input)));
                Ok(())
            },
            Type::Integer => match parse_integer_line(&input) {
                Some(n) => {
                    self.set_variable(id.clone(), type_def, Some(Value::Integer(n)));
                    Ok(())
                },
                None => Err(EvalError::MismatchedTypes),
            },
            Type::Boolean => Err(EvalError::MismatchedTypes),
        }
    }

    fn evaluate_for(
        &mut self,
        id: &String,
        exp1: &Expression,
        exp2: &Expression,
        stmts: &Vec<Box<Statement>>,
    ) -> (r: EvalResult<()>)
        requires
            old(self).wf(),
        ensures
            final(self).wf(),
            (final(self).state(), unit_result(r)) == exec_stmt(
                old(self).state(),
                StmtView::For(id@, exp1@, exp2@, boxed_views(stmts@)),
            ),
        decreases boxed_views(stmts@), 2int,
    {
        let start = match self.evaluate_expression(exp1)? {
            Value::Integer(n) => n,
            _ => {
                return Err(EvalError::MismatchedTypes);
            },
        };
        let end = match self.evaluate_expression(exp2)? {
            Value::Integer(n) => n,
            _ => {
                return Err(EvalError::MismatchedTypes);
            },
        };
        let (type_def, _) = self.find_assigned_variable(id)?;
        if type_def != Type::Integer {
            return Err(EvalError::MismatchedTypes);
        }
        let ghost body = boxed_views(stmts@);
        let ghost st0 = self.state();
        assert(exec_stmt(old(self).state(), StmtView::For(id@, exp1@, exp2@, body)) == exec_loop(
            st0,
            id@,
            start as int,
            end as int,
            body,
        ));
        let mut i: i64 = start as i64;
        while i <= end as i64
            invariant
                self.wf(),
                start <= i,
                start <= end ==> i <= end as i64 + 1,
                exec_stmt(old(self).state(), StmtView::For(id@, exp1@, exp2@, body)) == exec_loop(
                    st0,
                    id@,
                    start as int,
                    end as int,
                    body,
                ),
                body == boxed_views(stmts@),
                exec_loop(st0, id@, start as int, end as int, body) == exec_loop(
                    self.state(),
                    id@,
                    i as int,
                    end as int,
                    body,
                ),
            decreases end as i64 + 1 - i,
        {
            let ghost st_i = self.state();
            self.set_variable(id.clone(), Type::Integer, Some(Value::Integer(i as i32)));
            let r = self.evaluate_block(stmts);
            match r {
                Err(e) => {
                    assert(exec_loop(st_i, id@, i as int, end as int, body) == (
                        self.state(),
                        Err::<(), EvalErrorView>(e@),
                    ));
                    return Err(e);
                },
                Ok(()) => {},
            }
            i = i + 1;
        }
        Ok(())
    }

    fn evaluate_block(&mut self, stmts: &Vec<Box<Statement>>) -> (r: EvalResult<()>)
        requires
            old(self).wf(),
        ensures
            final(self).wf(),
            (final(self).state(), unit_result(r)) == exec_stmts(old(self).state(), boxed_views(stmts@)),
        decreases boxed_views(stmts@), 1int,
    {
        let ghost body = boxed_views(stmts@);
        let mut i: usize = 0;
        assert(body.subrange(0, body.len() as int) =~= body);
        while i < stmts.len()
            invariant
                self.wf(),
                i <= stmts@.len(),
                body == boxed_views(stmts@),
                exec_stmts(old(self).state(), body) == exec_stmts(
                    self.state(),
                    body.subrange(i as int, body.len() as int),
                ),
            decreases stmts@.len() - i,
        {
            proof {
                assert(decreases_to!(body => body[i as int]));
                let rest = body.subrange(i as int, body.len() as int);
                assert(rest[0] == body[i as int]);
                assert(rest.drop_first() =~= body.subrange(i + 1, body.len() as int));
            }
            self.evaluate_statement(&stmts[i])?;
            i = i + 1;
        }
        Ok(())
    }
}

/// Runs a parsed program against one global environment. Printed text goes
/// to an output buffer; `read` takes its lines from the input handed over.
pub struct Evaluator {
    program: Program,
    runtime: Runtime,
}

impl Evaluator {
    /// The statements of the program.
    pub closed spec fn statements(&self) -> Seq<StmtView> {
        stmt_views(self.program.statements@)
    }

    /// The environment, the output written and the input left.
    pub closed spec fn state(&self) -> EvalState {
        self.runtime.state()
    }

    /// The variable names of the environment are unique and the input
    /// cursor lies within the input.
    pub closed spec fn wf(&self) -> bool {
        self.runtime.wf()
    }

    /// An evaluator of `program` with an empty environment and no input
    /// (a `read` fails with `InputExhausted`).
    pub fn new(program: Program) -> (r: Evaluator)
        ensures
            r.wf(),
            r.statements() == stmt_views(program.statements@),
            r.state() == (EvalState {
                env: Map::empty(),
                output: Seq::empty(),
                input: Seq::empty(),
                input_closed: false,
            }),
    {
        let r = Evaluator::with_input(program, Vec::new(), false);
        assert(r.state().input =~= Seq::<Seq<char>>::empty());
        r
    }

    /// An evaluator of `program` with an empty environment whose `read`
    /// statements take the given lines in order; once they are used up, a
    /// `read` yields an empty line if `input_closed` and fails with
    /// `InputExhausted` otherwise.
    pub fn with_input(program: Program, lines: Vec<String>, input_closed: bool) -> (r: Evaluator)
        ensures
            r.wf(),
            r.statements() == stmt_views(program.statements@),
            r.state() == (EvalState {
                env: Map::empty(),
                output: Seq::empty(),
                input: lines@.map_values(|s: String| s@),
                input_closed,
            }),
    {
        let runtime = Runtime {
            global_scope: Vec::new(),
            output: String::new(),
            input: lines,
            next_input: 0,
            input_closed,
        };
        proof {
            assert(runtime.global_scope@ =~= Seq::<Binding>::empty());
            assert(env_of(runtime.global_scope@) =~= Map::empty());
            assert(runtime.input@.subrange(0, runtime.input@.len() as int) =~= runtime.input@);
            assert(runtime.state().input =~= lines@.map_values(|s: String| s@));
        }
        Evaluator { program, runtime }
    }

    /// Runs the statements of the program in order, up to the first runtime
    /// error, which is returned.
    pub fn evaluate_program(&mut self) -> (r: EvalResult<()>)
        requires
            old(self).wf(),
        ensures
            final(self).wf(),
            final(self).statements() == old(self).statements(),
            (final(self).state(), unit_result(r)) == exec_stmts(old(self).state(), old(self).statements()),
    {
        let ghost body = stmt_views(self.program.statements@);
        let mut i: usize = 0;
        assert(body.subrange(0, body.len() as int) =~= body);
        while i < self.program.statements.len()
            invariant
                self.runtime.wf(),
                i <= self.program.statements@.len(),
                self.program.statements@ == old(self).program.statements@,
                body == stmt_views(self.program.statements@),
                exec_stmts(old(self).runtime.state(), body) == exec_stmts(
                    self.runtime.state(),
                    body.subrange(i as int, body.len() as int),
                ),
            decreases self.program.statements@.len() - i,
        {
            proof {
                let rest = body.subrange(i as int, body.len() as int);
                assert(rest[0] == body[i as int]);
                assert(rest.drop_first() =~= body.subrange(i + 1, body.len() as int));
            }
            self.runtime.evaluate_statement(&self.program.statements[i])?;
            i = i + 1;
        }
        Ok(())
    }

    /// Everything printed so far.
    pub fn output(&self) -> (r: &str)
        ensures
            r@ == self.state().output,
    {
        self.runtime.output.as_str()
    }
}

} // verus!
