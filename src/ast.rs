//! The syntax tree: programs, statements and expressions, their
//! mathematical values, and their rendering as source text.
use vstd::prelude::*;
use crate::text::{chars_of, int_text, push_char, push_int_text, push_str};
use crate::utils::{type_text, Type};

verus! {

/// A parsed program: its statements, in order.
#[derive(Debug, PartialEq)]
pub struct Program {
    pub statements: Vec<Statement>,
}

/// One statement.
#[derive(Debug, PartialEq)]
pub enum Statement {
    /// `var <id> : <type>;`
    VarInitialization(String, Type),
    /// `var <id> : <type> := <expr>;`
    NewAssignment(String, Type, Expression),
    /// `<id> := <expr>;`
    Assignment(String, Expression),
    /// `print <expr>;`
    Print(Expression),
    /// `assert (<expr>);`
    Assert(Expression),
    /// `read <id>;`
    Read(String),
    /// `for <id> in <expr>..<expr> do <stmt>* end for;`
    For(String, Expression, Expression, Vec<Box<Statement>>),
}

/// One expression.
#[derive(Debug, PartialEq)]
pub enum Expression {
    Identifier(String),
    IntegerConstant(i32),
    StringValue(String),
    Boolean(bool),
    Unary(UnaryOperator, Box<Expression>),
    Binary(Box<Expression>, BinaryOperator, Box<Expression>),
}

#[derive(Clone, Copy, Debug, PartialEq, Eq, Structural)]
pub enum UnaryOperator {
    Not,
}

#[derive(Clone, Copy, Debug, PartialEq, Eq, Structural)]
pub enum BinaryOperator {
    Plus,
    Minus,
    Multiplication,
    Division,
    Equals,
    LessThan,
    GreaterThan,
    And,
}

/// The mathematical value of an [`Expression`].
pub enum ExprView {
    Identifier(Seq<char>),
    IntegerConstant(i32),
    StringValue(Seq<char>),
    Boolean(bool),
    Unary(UnaryOperator, Box<ExprView>),
    Binary(Box<ExprView>, BinaryOperator, Box<ExprView>),
}

/// The mathematical value of a [`Statement`].
pub enum StmtView {
    VarInitialization(Seq<char>, Type),
    NewAssignment(Seq<char>, Type, ExprView),
    Assignment(Seq<char>, ExprView),
    Print(ExprView),
    Assert(ExprView),
    Read(Seq<char>),
    For(Seq<char>, ExprView, ExprView, Seq<StmtView>),
}

pub open spec fn expr_view(e: &Expression) -> ExprView
    decreases e,
{
    match e {
        Expression::Identifier(s) => ExprView::Identifier(s@),
        Expression::IntegerConstant(i) => ExprView::IntegerConstant(*i),
        Expression::StringValue(s) => ExprView::StringValue(s@),
        Expression::Boolean(b) => ExprView::Boolean(*b),
        Expression::Unary(op, x) => ExprView::Unary(*op, Box::new(expr_view(x))),
        Expression::Binary(l, op, r) => ExprView::Binary(
            Box::new(expr_view(l)),
            *op,
            Box::new(expr_view(r)),
        ),
    }
}

impl View for Expression {
    type V = ExprView;

    open spec fn view(&self) -> ExprView {
        expr_view(self)
    }
}

pub open spec fn stmt_view(s: &Statement) -> StmtView
    decreases s,
{
    match s {
        Statement::VarInitialization(id, t) => StmtView::VarInitialization(id@, *t),
        Statement::NewAssignment(id, t, e) => StmtView::NewAssignment(id@, *t, e@),
        Statement::Assignment(id, e) => StmtView::Assignment(id@, e@),
        Statement::Print(e) => StmtView::Print(e@),
        Statement::Assert(e) => StmtView::Assert(e@),
        Statement::Read(id) => StmtView::Read(id@),
        Statement::For(id, a, b, body) => StmtView::For(
            id@,
            a@,
            b@,
            Seq::new(
                body@.len(),
                |i: int|
                    if 0 <= i < body@.len() {
                        proof {
                            assert(decreases_to!(body => body@));
                            assert(decreases_to!(body@ => body@[i]));
                        }
                        stmt_view(&body@[i])
                    } else {
                        // never used: `Seq::new` reads indices below the length only
                        StmtView::Read(Seq::empty())
                    },
            ),
        ),
    }
}

impl View for Statement {
    type V = StmtView;

    open spec fn view(&self) -> StmtView {
        stmt_view(self)
    }
}

/// The escape sequence that stands for `c` inside a string literal, or `c`
/// itself.
pub open spec fn escape_char(c: char) -> Seq<char> {
    if c == '"' {
        seq!['\\', '"']
    } else if c == '\\' {
        seq!['\\', '\\']
    } else if c == '\n' {
        seq!['\\', 'n']
    } else if c == '\t' {
        seq!['\\', 't']
    } else {
        seq![c]
    }
}

/// The content of a string literal that denotes `s`.
pub open spec fn escape_text(s: Seq<char>) -> Seq<char>
    decreases s.len(),
{
    if s.len() == 0 {
        Seq::empty()
    } else {
        escape_text(s.drop_last()) + escape_char(s.last())
    }
}

/// The lexeme of a binary operator.
pub open spec fn binary_op_text(op: BinaryOperator) -> Seq<char> {
    match op {
        BinaryOperator::Plus => "+"@,
        BinaryOperator::Minus => "-"@,
        BinaryOperator::Multiplication => "*"@,
        BinaryOperator::Division => "/"@,
        BinaryOperator::Equals => "="@,
        BinaryOperator::LessThan => "<"@,
        BinaryOperator::GreaterThan => ">"@,
        BinaryOperator::And => "&"@,
    }
}

/// The source text of an expression. Every compound expression stands in
/// parentheses, so the text parses back to the same tree.
pub open spec fn expr_text(e: ExprView) -> Seq<char>
    decreases e,
{
    match e {
        ExprView::Identifier(s) => s,
        ExprView::IntegerConstant(i) => int_text(i as int),
        ExprView::StringValue(s) => seq!['"'] + escape_text(s) + seq!['"'],
        ExprView::Boolean(b) => if b {
            "true"@
        } else {
            "false"@
        },
        ExprView::Unary(_, x) => "(!"@ + expr_text(*x) + ")"@,
        ExprView::Binary(l, op, r) => "("@ + expr_text(*l) + " "@ + binary_op_text(op) + " "@
            + expr_text(*r) + ")"@,
    }
}

/// The source text of a statement.
pub open spec fn stmt_text(s: StmtView) -> Seq<char>
    decreases s,
{
    match s {
        StmtView::VarInitialization(id, t) => "var "@ + id + " : "@ + type_text(t) + ";"@,
        StmtView::NewAssignment(id, t, e) => "var "@ + id + " : "@ + type_text(t) + " := "@
            + expr_text(e) + ";"@,
        StmtView::Assignment(id, e) => id + " := "@ + expr_text(e) + ";"@,
        StmtView::Print(e) => "print "@ + expr_text(e) + ";"@,
        StmtView::Assert(e) => "assert ("@ + expr_text(e) + ");"@,
        StmtView::Read(id) => "read "@ + id + ";"@,
        StmtView::For(id, a, b, body) => "for "@ + id + " in "@ + expr_text(a) + ".."@
            + expr_text(b) + " do\n"@ + body_text(body) + "end for;"@,
    }
}

/// The source text of a loop body: each statement on a line of its own,
/// indented by a tab.
pub open spec fn body_text(ss: Seq<StmtView>) -> Seq<char>
    decreases ss,
{
    if ss.len() == 0 {
        Seq::empty()
    } else {
        body_text(ss.drop_last()) + "\t"@ + stmt_text(ss.last()) + "\n"@
    }
}

fn push_escaped(out: &mut String, s: &str)
    ensures
        final(out)@ == old(out)@ + escape_text(s@),
{
    let cs = chars_of(s);
    let mut i: usize = 0;
    while i < cs.len()
        invariant
            cs@ == s@,
            i <= cs@.len(),
            out@ == old(out)@ + escape_text(cs@.subrange(0, i as int)),
        decreases cs@.len() - i,
    {
        let c = cs[i];
        let ghost before = out@;
        if c == '"' {
            push_char(out, '\\');
            push_char(out, '"');
        } else if c == '\\' {
            push_char(out, '\\');
            push_char(out, '\\');
        } else if c == '\n' {
            push_char(out, '\\');
            push_char(out, 'n');
        } else if c == '\t' {
            push_char(out, '\\');
            push_char(out, 't');
        } else {
            push_char(out, c);
        }
        proof {
            let pre = cs@.subrange(0, i as int);
            let next = cs@.subrange(0, i + 1);
            assert(next.drop_last() =~= pre);
            assert(out@ =~= before + escape_char(c));
            assert(out@ =~= old(out)@ + escape_text(next));
        }
        i = i + 1;
    }
    assert(cs@.subrange(0, cs@.len() as int) =~= s@);
}

fn binary_op_lexeme(op: BinaryOperator) -> (r: &'static str)
    ensures
        r@ == binary_op_text(op),
{
    match op {
        BinaryOperator::Plus => "+",
        BinaryOperator::Minus => "-",
        BinaryOperator::Multiplication => "*",
        BinaryOperator::Division => "/",
        BinaryOperator::Equals => "=",
        BinaryOperator::LessThan => "<",
        BinaryOperator::GreaterThan => ">",
        BinaryOperator::And => "&",
    }
}

impl Expression {
    fn push_source(&self, out: &mut String)
        ensures
            final(out)@ == old(out)@ + expr_text(self@),
        decreases self,
    {
        let ghost before = out@;
        match self {
            Expression::Identifier(s) => push_str(out, s.as_str()),
            Expression::IntegerConstant(i) => push_int_text(out, *i),
            Expression::StringValue(s) => {
                push_char(out, '"');
                push_escaped(out, s.as_str());
                push_char(out, '"');
            },
            Expression::Boolean(b) => {
                if *b {
                    push_str(out, "true");
                } else {
                    push_str(out, "false");
                }
            },
            Expression::Unary(_, x) => {
                push_str(out, "(!");
                x.push_source(out);
                push_str(out, ")");
            },
            Expression::Binary(l, op, r) => {
                push_str(out, "(");
                l.push_source(out);
                push_str(out, " ");
                push_str(out, binary_op_lexeme(*op));
                push_str(out, " ");
                r.push_source(out);
                push_str(out, ")");
            },
        }
        proof {
            assert(out@ =~= before + expr_text(self@));
        }
    }

    /// The source text of the expression.
    pub fn to_string(&self) -> (r: String)
        ensures
            r@ == expr_text(self@),
    {
        let mut s = String::new();
        self.push_source(&mut s);
        assert(s@ =~= expr_text(self@));
        s
    }
}

fn type_keyword(t: Type) -> (r: &'static str)
    ensures
        r@ == type_text(t),
{
    match t {
        Type::Boolean => "bool",
        Type::String => "string",
        Type::Integer => "int",
    }
}

impl Statement {
    fn push_source(&self, out: &mut String)
        ensures
            final(out)@ == old(out)@ + stmt_text(self@),
        decreases self,
    {
        let ghost before = out@;
        match self {
            Statement::VarInitialization(id, t) => {
                push_str(out, "var ");
                push_str(out, id.as_str());
                push_str(out, " : ");
                push_str(out, type_keyword(*t));
                push_str(out, ";");
            },
            Statement::NewAssignment(id, t, e) => {
                push_str(out, "var ");
                push_str(out, id.as_str());
                push_str(out, " : ");
                push_str(out, type_keyword(*t));
                push_str(out, " := ");
                e.push_source(out);
                push_str(out, ";");
            },
            Statement::Assignment(id, e) => {
                push_str(out, id.as_str());
                push_str(out, " := ");
                e.push_source(out);
                push_str(out, ";");
            },
            Statement::Print(e) => {
                push_str(out, "print ");
                e.push_source(out);
                push_str(out, ";");
            },
            Statement::Assert(e) => {
                push_str(out, "assert (");
                e.push_source(out);
                push_str(out, ");");
            },
            Statement::Read(id) => {
                push_str(out, "read ");
                push_str(out, id.as_str());
                push_str(out, ";");
            },
            Statement::For(id, a, b, body) => {
                push_str(out, "for ");
                push_str(out, id.as_str());
                push_str(out, " in ");
                a.push_source(out);
                push_str(out, "..");
                b.push_source(out);
                push_str(out, " do\n");
                let ghost head = out@;
                let ghost views = self@->For_3;
                let mut i: usize = 0;
                assert(decreases_to!(*self => *body));
                assert(decreases_to!(*body => body@));
                while i < body.len()
                    invariant
                        decreases_to!(*self => body@),
                        i <= body@.len(),
                        views.len() == body@.len(),
                        forall|j: int| 0 <= j < body@.len() ==> views[j] == body@[j]@,
                        out@ == head + body_text(views.subrange(0, i as int)),
                    decreases body@.len() - i,
                {
                    let ghost prev = out@;
                    push_str(out, "\t");
                    proof {
                        assert(decreases_to!(body@ => body@[i as int]));
                    }
                    body[i].push_source(out);
                    push_str(out, "\n");
                    proof {
                        let next = views.subrange(0, i + 1);
                        assert(next.drop_last() =~= views.subrange(0, i as int));
                        assert(out@ =~= head + body_text(next));
                    }
                    i = i + 1;
                }
                assert(views.subrange(0, body@.len() as int) =~= views);
                push_str(out, "end for;");
            },
        }
        proof {
            assert(out@ =~= before + stmt_text(self@));
        }
    }

    /// The source text of the statement.
    pub fn to_string(&self) -> (r: String)
        ensures
            r@ == stmt_text(self@),
    {
        let mut s = String::new();
        self.push_source(&mut s);
        assert(s@ =~= stmt_text(self@));
        s
    }
}

} // verus!
