//! The whole pipeline on a source text: tokenize, parse, and evaluate when
//! the source has no syntax error.
use vstd::prelude::*;
use crate::evaluator::{unit_result, Evaluator};
use crate::lexer::Lexer;
use crate::parser::{error_views, parse_source, Parser};
use crate::semantics::{exec_stmts, EvalState, Outcome};
use crate::text::push_str;
use crate::utils::{EvalError, EvalErrorView};

verus! {

/// What running a source text gave.
pub struct Interpretation {
    /// The syntax errors of the source, in order.
    pub syntax_errors: Vec<crate::utils::ParseError>,
    /// Everything the program printed.
    pub output: String,
    /// `SyntaxError` when the source has syntax errors (the program is then
    /// not run), otherwise how the run ended.
    pub result: Result<(), EvalError>,
}

/// The state a run starts from: no variables, no output, the given input.
pub open spec fn initial_state(lines: Seq<Seq<char>>, input_closed: bool) -> EvalState {
    EvalState { env: Map::empty(), output: Seq::empty(), input: lines, input_closed }
}

/// What running a source text gives: `None` when it has syntax errors,
/// otherwise the outcome of its statements from the initial state.
pub open spec fn run_source(src: Seq<char>, lines: Seq<Seq<char>>, input_closed: bool) -> Option<Outcome> {
    if parse_source(src).1.len() > 0 {
        None
    } else {
        Some(exec_stmts(initial_state(lines, input_closed), parse_source(src).0))
    }
}

/// Tokenizes and parses `source`; when it has no syntax error, runs it with
/// the given input lines (see [`Evaluator::with_input`]).
pub fn interpret(source: String, lines: Vec<String>, input_closed: bool) -> (r: Interpretation)
    ensures
        error_views(r.syntax_errors@) == parse_source(source@).1,
        match run_source(source@, lines@.map_values(|s: String| s@), input_closed) {
            None => r.output@ == Seq::<char>::empty() && r.result is Err && r.result->Err_0@
                == EvalErrorView::SyntaxError,
            Some((st, res)) => r.output@ == st.output && unit_result(r.result) == res,
        },
{
    let lexer = Lexer::new(source);
    let mut parser = Parser::new(lexer);
    let program = parser.parse_program();
    let errors = parser.get_errors();
    let mut syntax_errors: Vec<crate::utils::ParseError> = Vec::new();
    let mut i: usize = 0;
    while i < errors.len()
        invariant
            i <= errors@.len(),
            syntax_errors@.len() == i,
            forall|j: int| 0 <= j < i ==> #[trigger] syntax_errors@[j]@ == errors@[j]@,
        decreases errors@.len() - i,
    {
        let e = errors[i].clone();
        assert(e@ == errors@[i as int]@);
        let ghost before = syntax_errors@;
        syntax_errors.push(e);
        assert(syntax_errors@ == before.push(e));
        i = i + 1;
    }
    assert(error_views(syntax_errors@) =~= error_views(errors@));
    if syntax_errors.len() > 0 {
        return Interpretation { syntax_errors, output: String::new(), result: Err(EvalError::SyntaxError) };
    }
    let mut evaluator = Evaluator::with_input(program, lines, input_closed);
    let result = evaluator.evaluate_program();
    let mut output = String::new();
    push_str(&mut output, evaluator.output());
    Interpretation { syntax_errors, output, result }
}

} // verus!
