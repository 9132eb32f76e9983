use tinylox::interp::{Interpreter, InterpretOutcome, Error};
use tinylox::evaluator::{Value, RuntimeError};
use tinylox::parser::{Ast, ParseErrorKind};
use tinylox::lexer::tokenize;
use tinylox::error::{RecordedError, Errors, get_error_contexts};

fn run(source: &str) -> (Interpreter, InterpretOutcome) {
    let mut interp = Interpreter::new();
    let outcome = interp.interpret(source);
    (interp, outcome)
}

fn numeric(v: &Value) -> f64 {
    match v {
        Value::Numeric(b) => f64::from_bits(*b),
        _ => panic!("not numeric"),
    }
}

#[test]
fn prints_six() {
    let (interp, outcome) = run("var x = 5; print x + 1;");
    assert!(matches!(outcome, InterpretOutcome::Success));
    assert_eq!(interp.evaluator.output.len(), 1);
    assert_eq!(numeric(&interp.evaluator.output[0]), 6.0);
}

#[test]
fn missing_primary_records_one_error() {
    let (_, outcome) = run("print 1 +;");
    match outcome {
        InterpretOutcome::ParseFailure(contexts) => {
            assert_eq!(contexts.len(), 1);
            assert_eq!(contexts[0].kind(), ParseErrorKind::ExpectedPrimaryExpression);
        }
        _ => panic!("expected a parse failure"),
    }
}

#[test]
fn recovery_reports_each_malformed_statement() {
    // an error at the statement's own semicolon does not skip the next
    // statement: each malformed statement costs exactly one error
    let (_, outcome) = run("print 1 +; print 2 +;");
    match outcome {
        InterpretOutcome::ParseFailure(contexts) => {
            assert_eq!(contexts.len(), 2);
            assert_eq!(contexts[0].kind(), ParseErrorKind::ExpectedPrimaryExpression);
            assert_eq!(contexts[1].kind(), ParseErrorKind::ExpectedPrimaryExpression);
        }
        _ => panic!("expected a parse failure"),
    }
}

#[test]
fn synchronization_resumes_after_semicolon() {
    // the bad statement costs one error; the following one parses cleanly
    let (_, outcome) = run("print 1 +; var y = 2;");
    match outcome {
        InterpretOutcome::ParseFailure(contexts) => {
            assert_eq!(contexts.len(), 1);
            assert_eq!(contexts[0].kind(), ParseErrorKind::ExpectedPrimaryExpression);
        }
        _ => panic!("expected a parse failure"),
    }
}

#[test]
fn two_malformed_statements_two_errors() {
    let tokens = match tokenize("var ; print 1; if 1;") {
        Ok(t) => t,
        Err(t) => t,
    };
    match Ast::new(tokens) {
        Ok(_) => panic!("expected errors"),
        Err(errors) => {
            let recorded = errors.recorded();
            assert_eq!(recorded.len(), 2);
            assert!(recorded[0].token_index < recorded[1].token_index);
            assert_eq!(recorded[0].kind, ParseErrorKind::ExpectedIdentifier);
            assert_eq!(recorded[1].kind, ParseErrorKind::UnexpectedToken);
        }
    }
    // and evaluation is never attempted: the interpreter reports a parse failure
    let (interp, outcome) = run("var ; print 1; if 1;");
    assert!(matches!(outcome, InterpretOutcome::ParseFailure(_)));
    assert_eq!(interp.evaluator.output.len(), 0);
}

#[test]
fn redefinition_fails() {
    let (_, outcome) = run("var x; var x;");
    assert!(matches!(
        outcome,
        InterpretOutcome::RuntimeFailure(RuntimeError::VariableRedefinition)
    ));
}

#[test]
fn undefined_variable_fails() {
    let (_, outcome) = run("print undefined_name;");
    assert!(matches!(
        outcome,
        InterpretOutcome::RuntimeFailure(RuntimeError::VariableDoesNotExist)
    ));
}

#[test]
fn string_plus_number_is_type_error() {
    let (_, outcome) = run("print \"a\" + 1;");
    assert!(matches!(outcome, InterpretOutcome::RuntimeFailure(RuntimeError::TypeError)));
}

#[test]
fn shadowing_in_nested_block() {
    let (interp, outcome) = run("var x = 1; { var x = 2; print x; } print x;");
    assert!(matches!(outcome, InterpretOutcome::Success));
    assert_eq!(interp.evaluator.output.len(), 2);
    assert_eq!(numeric(&interp.evaluator.output[0]), 2.0);
    assert_eq!(numeric(&interp.evaluator.output[1]), 1.0);
}

#[test]
fn while_loop_sums() {
    let (interp, outcome) =
        run("var i = 0; var s = 0; while (i < 3) { s = s + i; i = i + 1; } print s;");
    assert!(matches!(outcome, InterpretOutcome::Success));
    assert_eq!(numeric(&interp.evaluator.output[0]), 3.0);
}

#[test]
fn for_loop_counts() {
    let (interp, outcome) = run("for (var i = 0; i < 3; i = i + 1) print i;");
    assert!(matches!(outcome, InterpretOutcome::Success));
    assert_eq!(interp.evaluator.output.len(), 3);
    assert_eq!(numeric(&interp.evaluator.output[0]), 0.0);
    assert_eq!(numeric(&interp.evaluator.output[2]), 2.0);
}

#[test]
fn if_else_branches() {
    let (interp, outcome) = run("if (1 < 2) print 1; else print 2;");
    assert!(matches!(outcome, InterpretOutcome::Success));
    assert_eq!(numeric(&interp.evaluator.output[0]), 1.0);
    let (interp2, outcome2) = run("if (2 < 1) print 1; else print 2;");
    assert!(matches!(outcome2, InterpretOutcome::Success));
    assert_eq!(numeric(&interp2.evaluator.output[0]), 2.0);
}

#[test]
fn string_concatenation() {
    let (interp, outcome) = run("print \"a\" + \"b\";");
    assert!(matches!(outcome, InterpretOutcome::Success));
    match &interp.evaluator.output[0] {
        Value::String_(s) => assert_eq!(s, "ab"),
        _ => panic!("expected a string"),
    }
}

#[test]
fn logic_and_comparison_operators() {
    let (interp, outcome) = run("print true and false; print true or false; print 1 == 1; print 1 != 2; print 2 >= 2;");
    assert!(matches!(outcome, InterpretOutcome::Success));
    let vals: Vec<bool> = interp
        .evaluator
        .output
        .iter()
        .map(|v| match v {
            Value::Boolean(b) => *b,
            _ => panic!("expected a boolean"),
        })
        .collect();
    assert_eq!(vals, vec![false, true, true, true, true]);
}

#[test]
fn division_and_unary() {
    let (interp, outcome) = run("print 7 / 2; print -(1 + 2); print !false;");
    assert!(matches!(outcome, InterpretOutcome::Success));
    assert_eq!(numeric(&interp.evaluator.output[0]), 3.5);
    assert_eq!(numeric(&interp.evaluator.output[1]), -3.0);
    assert!(matches!(&interp.evaluator.output[2], Value::Boolean(true)));
}

#[test]
fn call_errors() {
    let (_, outcome) = run("time(1);");
    assert!(matches!(
        outcome,
        InterpretOutcome::RuntimeFailure(RuntimeError::WrongNumberOfArguments)
    ));
    let (_, outcome2) = run("5();");
    assert!(matches!(outcome2, InterpretOutcome::RuntimeFailure(RuntimeError::NotCallable)));
}

#[test]
fn time_returns_a_number() {
    let (interp, outcome) = run("print time();");
    assert!(matches!(outcome, InterpretOutcome::Success));
    assert!(matches!(&interp.evaluator.output[0], Value::Numeric(_)));
}

#[test]
fn outcome_error_phases() {
    let (_, ok) = run("print 1;");
    assert!(ok.error().is_none());
    let (_, pf) = run("print 1 +;");
    assert_eq!(pf.error(), Some(Error::ParseError));
    let (_, rf) = run("var x; var x;");
    assert_eq!(rf.error(), Some(Error::EvaluateError));
}

#[test]
fn error_context_resolution_is_idempotent() {
    let source = "var ;\nprint 1 +;\n";
    let errors: Vec<RecordedError<ParseErrorKind>> = vec![
        RecordedError { token_index: 2, kind: ParseErrorKind::ExpectedIdentifier },
        RecordedError { token_index: 6, kind: ParseErrorKind::ExpectedPrimaryExpression },
    ];
    let first = get_error_contexts(source, &errors);
    let second = get_error_contexts(source, &errors);
    assert_eq!(first.len(), second.len());
    for (a, b) in first.iter().zip(second.iter()) {
        assert_eq!(a.kind(), b.kind());
        assert_eq!(a.column(), b.column());
        assert_eq!(a.line(), b.line());
    }
}

#[test]
fn error_contexts_carry_line_and_column() {
    let errs = Errors::new(vec![RecordedError {
        token_index: 2,
        kind: ParseErrorKind::ExpectedIdentifier,
    }]);
    let contexts = errs.error_contexts("var ;\n");
    assert_eq!(contexts.len(), 1);
    assert_eq!(contexts[0].kind(), ParseErrorKind::ExpectedIdentifier);
    assert_eq!(contexts[0].line(), "var ;");
    assert_eq!(contexts[0].column(), 4);
}

#[test]
fn session_state_persists_across_submissions() {
    let mut interp = Interpreter::new();
    assert!(matches!(interp.interpret("var x = 41;"), InterpretOutcome::Success));
    assert!(matches!(interp.interpret("print x + 1;"), InterpretOutcome::Success));
    assert_eq!(numeric(&interp.evaluator.output[0]), 42.0);
}
