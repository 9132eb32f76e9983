//! The interpreter: one source string through lexing, parsing and
//! evaluation.
//!
//! Any parse error voids the whole program: all errors of one submission
//! are resolved to source lines and columns, and evaluation is never
//! attempted. A program that parses cleanly is evaluated against the
//! interpreter's environment, which persists across submissions.
use vstd::prelude::*;
use crate::token::Token;
use crate::lexer::{lex, tokenize};
use crate::error::{
    ErrorContext, ErrorContextM, PSt, make_tinfo, resolve_all, strictly_ascending,
    lemma_resolve_all_len,
};
use crate::parser::{Ast, ParseErrorKind, sp_program};
use crate::evaluator::{Evaluator, RuntimeError, Value, EStM, em, vout, ev_decls};

verus! {

/// Which phase failed.
#[derive(Clone, Copy, Debug, PartialEq, Eq, Structural)]
pub enum Error {
    ParseError,
    EvaluateError,
}

/// The outcome of interpreting one source string.
pub enum InterpretOutcome {
    /// The program parsed and ran to completion.
    Success,
    /// Parsing recorded errors; their resolved contexts, in parse order.
    ParseFailure(Vec<ErrorContext<ParseErrorKind>>),
    /// The program parsed but evaluation failed.
    RuntimeFailure(RuntimeError),
}

impl InterpretOutcome {
    /// The phase that failed, if any.
    pub fn error(&self) -> (r: Option<Error>)
        ensures
            match self {
                InterpretOutcome::Success => r is None,
                InterpretOutcome::ParseFailure(_) => r == Some(Error::ParseError),
                InterpretOutcome::RuntimeFailure(_) => r == Some(Error::EvaluateError),
            },
    {
        match self {
            InterpretOutcome::Success => None,
            InterpretOutcome::ParseFailure(_) => Some(Error::ParseError),
            InterpretOutcome::RuntimeFailure(_) => Some(Error::EvaluateError),
        }
    }
}

/// Drives the three phases; its evaluator and environment persist, so
/// one interpreter can serve an interactive session.
pub struct Interpreter {
    pub evaluator: Evaluator,
}

impl Interpreter {
    /// A fresh interpreter over a fresh global environment.
    pub fn new() -> (r: Interpreter)
        ensures
            r.evaluator.environment@.len() == 1,
            r.evaluator.output@.len() == 0,
    {
        Interpreter { evaluator: Evaluator::new() }
    }

    /// Lexes, parses and evaluates one source string. Exactly when the
    /// parse mirror records errors, the outcome is a parse failure
    /// holding their resolved contexts and the evaluator is untouched:
    /// a program with any parse error is never partially executed.
    /// Otherwise the program runs under the evaluation mirror, printing
    /// into `evaluator.output` (programs reading the clock are left
    /// unspecified by the mirror, and a loop exceeding the step budget
    /// fails with its own runtime error).
    #[verifier::rlimit(100)]
    #[verifier::spinoff_prover]
    pub fn interpret(&mut self, source: &str) -> (r: InterpretOutcome)
        requires
            source@.len() <= usize::MAX / 4,
            old(self).evaluator.environment@.len() > 0,
        ensures
            final(self).evaluator.environment@.len()
                == old(self).evaluator.environment@.len(),
            ({
                let (rm, stm) = sp_program(
                    make_tinfo(lex(source@)),
                    PSt::<ParseErrorKind> { pos: 0, errs: Seq::empty() },
                );
                match rm {
                    Ok(progm) => (match r {
                        InterpretOutcome::ParseFailure(_) => false,
                        _ => true,
                    }) && (match ev_decls(
                        progm,
                        EStM {
                            env: em(old(self).evaluator.environment@),
                            out: vout(old(self).evaluator.output@),
                        },
                        u64::MAX as nat,
                    ) {
                        Some((er2, stm2, fm2)) => em(final(self).evaluator.environment@)
                            == stm2.env && vout(final(self).evaluator.output@) == stm2.out
                            && (
                        match r {
                            InterpretOutcome::Success => er2 is Ok,
                            InterpretOutcome::RuntimeFailure(x) => er2 == Err::<
                                (),
                                RuntimeError,
                            >(x),
                            InterpretOutcome::ParseFailure(_) => false,
                        }),
                        None => true,
                    }),
                    Err(_) => (match r {
                        InterpretOutcome::ParseFailure(ctxs) => final(self).evaluator.environment@
                            == old(self).evaluator.environment@
                            && final(self).evaluator.output@ == old(self).evaluator.output@ && (
                        strictly_ascending(stm.errs) ==> ctxs.deep_view() == resolve_all(
                            source@,
                            stm.errs,
                        ) && ctxs.deep_view().len() == stm.errs.len()) && (!strictly_ascending(
                            stm.errs,
                        ) ==> ctxs.deep_view() == Seq::<ErrorContextM<ParseErrorKind>>::empty()),
                        _ => false,
                    }),
                }
            }),
    {
        let tokens: Vec<Token> = match tokenize(source) {
            Ok(t) => t,
            Err(t) => t,
        };
        match Ast::new(tokens) {
            Ok(ast) => match self.evaluator.evaluate(&ast) {
                Ok(_) => InterpretOutcome::Success,
                Err(er) => InterpretOutcome::RuntimeFailure(er),
            },
            Err(errors) => {
                let contexts = errors.error_contexts(source);
                proof {
                    lemma_resolve_all_len(source@, errors@);
                    if !strictly_ascending(errors@) {
                        assert(contexts.deep_view() =~= Seq::<
                            ErrorContextM<ParseErrorKind>,
                        >::empty());
                    }
                }
                InterpretOutcome::ParseFailure(contexts)
            },
        }
    }
}

} // verus!
