//! A line-oriented calculator.
//!
//! Each input line is an arithmetic expression, a variable assignment, or a
//! single-line function definition, evaluated against a persistent symbol
//! table.  The pipeline is: lexer (text to tokens), recursive-descent parser
//! (tokens plus symbol table to a syntax tree, with constant folding), and a
//! tree-walking evaluator that mutates the symbol table.

use vstd::prelude::*;

pub mod num;
pub mod lexer;
pub mod combinators;
pub mod parser;
pub mod context;

use crate::context::Context;
use crate::lexer::spec_tokenize;
use crate::lexer::tokenize;
use crate::num::Num;
use crate::parser::spec_eval;
use crate::parser::spec_parse;

verus! {

/// Everything that can go wrong while lexing, parsing, or evaluating a line.
#[derive(Clone, Copy, Debug, PartialEq, Eq, Structural)]
pub enum CalcError {
    /// The text starts with a character that begins no token.
    InvalidToken,
    /// A numeric literal holds more than one decimal point.
    MultipleDots,
    /// A numeric literal names no number (a lone decimal point).
    InvalidNumber,
    /// The token stream ended where an expression was expected.
    UnexpectedEnd,
    /// A token that cannot begin a terminal expression.
    UnexpectedToken,
    /// A parenthesized expression misses its closing bracket.
    ExpectedRBracket,
    /// The target of an assignment is not a variable.
    AssignToNonVariable,
    /// An identifier that is neither a variable nor an argument.
    UnresolvedSymbol,
    /// A call names a function the symbol table does not hold.
    NoSuchFunction,
    /// A function definition misses its name.
    ExpectedFunctionName,
    /// A function definition names a symbol that is not a function.
    NotAFunction,
    /// A function definition misses the arrow after its parameters.
    ExpectedArrow,
    /// Tokens were left over after a complete parse.
    TrailingTokens,
}

/// Run one input line against the symbol table: lex it, parse it, and
/// evaluate the tree.  The result is the line's optional numeric value
/// (`None` for a function definition), or the first error on the way.
pub fn run(line: &str, context: &mut Context) -> (r: Result<Option<Num>, CalcError>)
    requires
        old(context).wf(),
    ensures
        final(context).wf(),
        ({
            match spec_tokenize(line@) {
                Err(e) => r == Err::<Option<Num>, CalcError>(e) && final(context)@ == old(context)@,
                Ok(ts) => match spec_parse(ts, old(context)@) {
                    Err(e) => r == Err::<Option<Num>, CalcError>(e) && final(context)@ == old(
                        context,
                    )@,
                    Ok(av) => {
                        let (m2, v) = spec_eval(av, old(context)@, Seq::empty());
                        r == Ok::<Option<Num>, CalcError>(v) && final(context)@ == m2
                    },
                },
            }
        }),
{
    let tokens = match tokenize(line) {
        Ok(t) => t,
        Err(e) => {
            return Err(e);
        },
    };
    let ast = match context.parse(tokens) {
        Ok(a) => a,
        Err(e) => {
            return Err(e);
        },
    };
    let args: Vec<Num> = Vec::new();
    proof {
        assert(args@ =~= Seq::<Num>::empty());
    }
    Ok(ast.evaluate(context, &args))
}

} // verus!
