//! The recursive-descent parser: tokens to an abstract syntax tree, with
//! multi-error recovery.
//!
//! Each grammar level is mirrored by a spec function over the filtered
//! token sequence; the executable functions are proved to compute exactly
//! what the mirror says. A failed declaration records its error and, when
//! it signals synchronization, skips to the next semicolon so later
//! statements still parse; errors void the whole program only at the end.
use vstd::prelude::*;
use crate::token::{Token, TokenM, FixedToken, LexError, Identifier, StringLiteral, NumericLiteral};
use crate::ast::{
    Expression, Unary, Binary, Primary, BinaryOperator, UnaryOperator, VariableDeclaration,
    ForLoopInitializer, Statement, Block, Declaration, Program, ExprM, PrimM, VarDeclM, StmtM,
    DeclM, view_expr, view_prim, view_vardecl, view_stmt, view_decl, view_decl_seq, view_expr_seq,
    lemma_view_decl_seq_push, lemma_view_expr_seq_push,
};
use crate::error::{
    RecordedError, Errors, ErrorRecorder, TokInfo, PSt, make_tinfo, sp_cur_index, sp_record,
};

verus! {

/// What went wrong at a parse position.
#[derive(Clone, Copy, Debug, PartialEq, Eq, Structural)]
pub enum ParseErrorKind {
    UnexpectedToken,
    UnmatchedParenthesis,
    ExpectedPrimaryExpression,
    ExpectedEndOfExpression,
    ExpectedSemicolon,
    ExpectedIdentifier,
}

/// Whether the caller should skip to the next statement boundary after a
/// failed parse.
#[derive(Clone, Copy, Debug, PartialEq, Eq, Structural)]
pub enum ShouldSynchronize {
    Yes,
    No,
}

// ------------------------------------------------------------------
// Ghost mirror of the parser
// ------------------------------------------------------------------

#[verifier::inline]
pub open spec fn sp_peek(ti: TokInfo, st: PSt<ParseErrorKind>) -> Option<TokenM> {
    if 0 <= st.pos < ti.toks.len() {
        Some(ti.toks[st.pos])
    } else {
        None
    }
}

#[verifier::inline]
pub open spec fn sp_bump(st: PSt<ParseErrorKind>) -> PSt<ParseErrorKind> {
    PSt { pos: st.pos + 1, errs: st.errs }
}

/// Whether the caller should synchronize after consuming this offending
/// token: an error detected at the statement's own semicolon already
/// stands at the boundary, so no tokens are skipped for it.
pub open spec fn sync_flag(t: TokenM) -> ShouldSynchronize {
    if t == TokenM::Fixed(FixedToken::Semicolon) {
        ShouldSynchronize::No
    } else {
        ShouldSynchronize::Yes
    }
}

/// Consuming one token that must be the given fixed token; any other
/// consumption records an unexpected token.
pub open spec fn sp_match(ti: TokInfo, st: PSt<ParseErrorKind>, t: FixedToken) -> (Result<
    (),
    ShouldSynchronize,
>, PSt<ParseErrorKind>) {
    match sp_peek(ti, st) {
        Some(TokenM::Fixed(ft)) => if ft == t {
            (Ok(()), sp_bump(st))
        } else {
            (
                Err(sync_flag(TokenM::Fixed(ft))),
                sp_record(ti, sp_bump(st), ParseErrorKind::UnexpectedToken),
            )
        },
        Some(other) => (
            Err(sync_flag(other)),
            sp_record(ti, sp_bump(st), ParseErrorKind::UnexpectedToken),
        ),
        None => (Err(ShouldSynchronize::Yes), sp_record(ti, st, ParseErrorKind::UnexpectedToken)),
    }
}

/// Skipping tokens up to and including the next semicolon.
pub open spec fn sp_sync(ti: TokInfo, st: PSt<ParseErrorKind>) -> PSt<ParseErrorKind>
    decreases ti.toks.len() - st.pos, 1int,
    when 0 <= st.pos <= ti.toks.len()
{
    match sp_peek(ti, st) {
        None => st,
        Some(TokenM::Fixed(FixedToken::Semicolon)) => sp_bump(st),
        Some(_) => sp_sync(ti, sp_bump(st)),
    }
}

/// The operators of each binary precedence level, outermost first.
pub open spec fn level_op(lvl: int, ft: FixedToken) -> Option<BinaryOperator> {
    if lvl == 0 {
        match ft {
            FixedToken::Or => Some(BinaryOperator::Or),
            _ => None,
        }
    } else if lvl == 1 {
        match ft {
            FixedToken::And => Some(BinaryOperator::And),
            _ => None,
        }
    } else if lvl == 2 {
        match ft {
            FixedToken::EqualEqual => Some(BinaryOperator::Equality),
            FixedToken::BangEqual => Some(BinaryOperator::Inequality),
            _ => None,
        }
    } else if lvl == 3 {
        match ft {
            FixedToken::Greater => Some(BinaryOperator::GreaterThan),
            FixedToken::GreaterEqual => Some(BinaryOperator::GreaterThanOrEqualTo),
            FixedToken::Less => Some(BinaryOperator::LessThan),
            FixedToken::LessEqual => Some(BinaryOperator::LessThanOrEqualTo),
            _ => None,
        }
    } else if lvl == 4 {
        match ft {
            FixedToken::Plus => Some(BinaryOperator::Addition),
            FixedToken::Minus => Some(BinaryOperator::Subtraction),
            _ => None,
        }
    } else if lvl == 5 {
        match ft {
            FixedToken::Asterisk => Some(BinaryOperator::Multiplication),
            FixedToken::ForwardSlash => Some(BinaryOperator::Division),
            _ => None,
        }
    } else {
        None
    }
}

/// A primary expression: a literal, an identifier, or a parenthesized
/// grouping. Finding no token, or one no rule matches, records
/// `ExpectedPrimaryExpression`; a grouping missing its closing
/// parenthesis records `UnmatchedParenthesis`.
pub open spec fn sp_primary(ti: TokInfo, st: PSt<ParseErrorKind>) -> (Result<
    PrimM,
    ShouldSynchronize,
>, PSt<ParseErrorKind>)
    decreases ti.toks.len() - st.pos, 3int,
    when 0 <= st.pos <= ti.toks.len()
{
    match sp_peek(ti, st) {
        None => (
            Err(ShouldSynchronize::Yes),
            sp_record(ti, st, ParseErrorKind::ExpectedPrimaryExpression),
        ),
        Some(t) => {
            let st1 = sp_bump(st);
            match t {
                TokenM::Fixed(FixedToken::True) => (Ok(PrimM::True), st1),
                TokenM::Fixed(FixedToken::False) => (Ok(PrimM::False), st1),
                TokenM::Fixed(FixedToken::Nil) => (Ok(PrimM::Nil), st1),
                TokenM::Num(b) => (Ok(PrimM::Num(b)), st1),
                TokenM::StrLit(v) => (Ok(PrimM::Str(v)), st1),
                TokenM::Ident(n) => (Ok(PrimM::Ident(n)), st1),
                TokenM::Fixed(FixedToken::LeftParenthesis) => {
                    let (r, st2) = sp_expression(ti, st1);
                    match r {
                        Ok(e) => match sp_peek(ti, st2) {
                            Some(TokenM::Fixed(FixedToken::RightParenthesis)) => (
                                Ok(PrimM::Grouping(Box::new(e))),
                                sp_bump(st2),
                            ),
                            Some(other) => (
                                Err(sync_flag(other)),
                                sp_record(
                                    ti,
                                    sp_bump(st2),
                                    ParseErrorKind::UnmatchedParenthesis,
                                ),
                            ),
                            None => (
                                Err(ShouldSynchronize::Yes),
                                sp_record(ti, st2, ParseErrorKind::UnmatchedParenthesis),
                            ),
                        },
                        Err(s) => (Err(s), st2),
                    }
                },
                _ => (
                    Err(sync_flag(t)),
                    sp_record(ti, st1, ParseErrorKind::ExpectedPrimaryExpression),
                ),
            }
        },
    }
}

/// A primary possibly applied to parenthesized, comma-separated
/// arguments.
pub open spec fn sp_call(ti: TokInfo, st: PSt<ParseErrorKind>) -> (Result<
    ExprM,
    ShouldSynchronize,
>, PSt<ParseErrorKind>)
    decreases ti.toks.len() - st.pos, 4int,
    when 0 <= st.pos <= ti.toks.len()
{
    let (r, st1) = sp_primary(ti, st);
    match r {
        Err(s) => (Err(s), st1),
        Ok(callee) => match sp_peek(ti, st1) {
            Some(TokenM::Fixed(FixedToken::LeftParenthesis)) => {
                let st2 = sp_bump(st1);
                match sp_peek(ti, st2) {
                    Some(TokenM::Fixed(FixedToken::RightParenthesis)) => (
                        Ok(
                            ExprM::Primary(
                                PrimM::Call { callee: Box::new(callee), args: seq![] },
                            ),
                        ),
                        sp_bump(st2),
                    ),
                    _ => if st.pos < st2.pos <= ti.toks.len() {
                        sp_call_args(ti, st2, callee, seq![])
                    } else {
                        (Err(ShouldSynchronize::Yes), st2)
                    },
                }
            },
            _ => (Ok(ExprM::Primary(callee)), st1),
        },
    }
}

/// The argument list of a call, after its opening parenthesis or a
/// comma.
pub open spec fn sp_call_args(
    ti: TokInfo,
    st: PSt<ParseErrorKind>,
    callee: PrimM,
    acc: Seq<ExprM>,
) -> (Result<ExprM, ShouldSynchronize>, PSt<ParseErrorKind>)
    decreases ti.toks.len() - st.pos, 21int,
    when 0 <= st.pos <= ti.toks.len()
{
    let (r, st1) = sp_expression(ti, st);
    match r {
        Err(s) => (Err(s), st1),
        Ok(arg) => {
            let acc2 = acc.push(arg);
            match sp_peek(ti, st1) {
                Some(TokenM::Fixed(FixedToken::Comma)) => {
                    let st2 = sp_bump(st1);
                    if st.pos < st2.pos <= ti.toks.len() {
                        sp_call_args(ti, st2, callee, acc2)
                    } else {
                        (Err(ShouldSynchronize::Yes), st2)
                    }
                },
                Some(TokenM::Fixed(FixedToken::RightParenthesis)) => (
                    Ok(ExprM::Primary(PrimM::Call { callee: Box::new(callee), args: acc2 })),
                    sp_bump(st1),
                ),
                Some(other) => (
                    Err(sync_flag(other)),
                    sp_record(ti, sp_bump(st1), ParseErrorKind::UnexpectedToken),
                ),
                None => (
                    Err(ShouldSynchronize::Yes),
                    sp_record(ti, st1, ParseErrorKind::UnexpectedToken),
                ),
            }
        },
    }
}

/// A unary negation or complement, or a call.
pub open spec fn sp_unary(ti: TokInfo, st: PSt<ParseErrorKind>) -> (Result<
    ExprM,
    ShouldSynchronize,
>, PSt<ParseErrorKind>)
    decreases ti.toks.len() - st.pos, 5int,
    when 0 <= st.pos <= ti.toks.len()
{
    match sp_peek(ti, st) {
        Some(TokenM::Fixed(FixedToken::Minus)) => {
            let (r, st2) = sp_unary(ti, sp_bump(st));
            match r {
                Ok(e) => (Ok(ExprM::Unary(UnaryOperator::Negate, Box::new(e))), st2),
                Err(s) => (Err(s), st2),
            }
        },
        Some(TokenM::Fixed(FixedToken::Bang)) => {
            let (r, st2) = sp_unary(ti, sp_bump(st));
            match r {
                Ok(e) => (Ok(ExprM::Unary(UnaryOperator::Not, Box::new(e))), st2),
                Err(s) => (Err(s), st2),
            }
        },
        _ => sp_call(ti, st),
    }
}

/// One binary precedence level: the sub-level folded left-associatively
/// over its operators.
pub open spec fn sp_binary(ti: TokInfo, st: PSt<ParseErrorKind>, lvl: int) -> (Result<
    ExprM,
    ShouldSynchronize,
>, PSt<ParseErrorKind>)
    decreases ti.toks.len() - st.pos, 18int - 2 * lvl,
    when 0 <= st.pos <= ti.toks.len() && 0 <= lvl <= 5
{
    let (r, st1) = if lvl == 5 {
        sp_unary(ti, st)
    } else {
        sp_binary(ti, st, lvl + 1)
    };
    match r {
        Err(s) => (Err(s), st1),
        Ok(acc) => if st.pos <= st1.pos <= ti.toks.len() {
            sp_binary_rest(ti, st1, lvl, acc)
        } else {
            (Ok(acc), st1)
        },
    }
}

pub open spec fn sp_binary_rest(
    ti: TokInfo,
    st: PSt<ParseErrorKind>,
    lvl: int,
    acc: ExprM,
) -> (Result<ExprM, ShouldSynchronize>, PSt<ParseErrorKind>)
    decreases ti.toks.len() - st.pos, 17int - 2 * lvl,
    when 0 <= st.pos <= ti.toks.len() && 0 <= lvl <= 5
{
    match sp_peek(ti, st) {
        Some(TokenM::Fixed(ft)) => match level_op(lvl, ft) {
            Some(op) => {
                let (r, st2) = if lvl == 5 {
                    sp_unary(ti, sp_bump(st))
                } else {
                    sp_binary(ti, sp_bump(st), lvl + 1)
                };
                match r {
                    Err(s) => (Err(s), st2),
                    Ok(right) => {
                        let acc2 = ExprM::Binary(Box::new(acc), op, Box::new(right));
                        if st.pos < st2.pos <= ti.toks.len() {
                            sp_binary_rest(ti, st2, lvl, acc2)
                        } else {
                            (Ok(acc2), st2)
                        }
                    },
                }
            },
            None => (Ok(acc), st),
        },
        _ => (Ok(acc), st),
    }
}

/// Assignment: right-associative, and only when the left-hand side
/// parsed as a bare identifier followed by `=`; any other left-hand
/// shape falls through as an ordinary expression.
pub open spec fn sp_assignment(ti: TokInfo, st: PSt<ParseErrorKind>) -> (Result<
    ExprM,
    ShouldSynchronize,
>, PSt<ParseErrorKind>)
    decreases ti.toks.len() - st.pos, 19int,
    when 0 <= st.pos <= ti.toks.len()
{
    let (r, st1) = sp_binary(ti, st, 0);
    match r {
        Err(s) => (Err(s), st1),
        Ok(e) => match e {
            ExprM::Primary(PrimM::Ident(name)) => match sp_peek(ti, st1) {
                Some(TokenM::Fixed(FixedToken::Equal)) => {
                    let st2 = sp_bump(st1);
                    let (r2, st3) = if st.pos < st2.pos <= ti.toks.len() {
                        sp_expression(ti, st2)
                    } else {
                        (Err(ShouldSynchronize::Yes), st2)
                    };
                    match r2 {
                        Ok(v) => (Ok(ExprM::Assign { name, value: Box::new(v) }), st3),
                        Err(s) => (Err(s), st3),
                    }
                },
                _ => (Ok(ExprM::Primary(PrimM::Ident(name))), st1),
            },
            _ => (Ok(e), st1),
        },
    }
}

pub open spec fn sp_expression(ti: TokInfo, st: PSt<ParseErrorKind>) -> (Result<
    ExprM,
    ShouldSynchronize,
>, PSt<ParseErrorKind>)
    decreases ti.toks.len() - st.pos, 20int,
    when 0 <= st.pos <= ti.toks.len()
{
    sp_assignment(ti, st)
}

/// A variable declaration: `var`, an identifier, an optional `=`
/// initializer, and a terminating semicolon.
#[verifier::opaque]
pub open spec fn sp_vardecl(ti: TokInfo, st: PSt<ParseErrorKind>) -> (Result<
    VarDeclM,
    ShouldSynchronize,
>, PSt<ParseErrorKind>)
    decreases ti.toks.len() - st.pos, 29int,
    when 0 <= st.pos <= ti.toks.len()
{
    let st1 = if sp_peek(ti, st) is Some {
        sp_bump(st)
    } else {
        st
    };
    match sp_peek(ti, st1) {
        Some(TokenM::Ident(name)) => {
            let st2 = sp_bump(st1);
            let (rv, st4) = match sp_peek(ti, st2) {
                Some(TokenM::Fixed(FixedToken::Equal)) => {
                    let st3 = sp_bump(st2);
                    let (r, stx) = if st.pos < st3.pos <= ti.toks.len() {
                        sp_expression(ti, st3)
                    } else {
                        (Err(ShouldSynchronize::Yes), st3)
                    };
                    match r {
                        Ok(e) => (Ok(VarDeclM { name, init: Some(e) }), stx),
                        Err(s) => (Err(s), stx),
                    }
                },
                _ => (Ok(VarDeclM { name, init: None }), st2),
            };
            match rv {
                Err(s) => (Err(s), st4),
                Ok(vd) => match sp_peek(ti, st4) {
                    Some(TokenM::Fixed(FixedToken::Semicolon)) => (Ok(vd), sp_bump(st4)),
                    Some(_) => (
                        Err(ShouldSynchronize::Yes),
                        sp_record(ti, sp_bump(st4), ParseErrorKind::ExpectedSemicolon),
                    ),
                    None => (
                        Err(ShouldSynchronize::Yes),
                        sp_record(ti, st4, ParseErrorKind::ExpectedSemicolon),
                    ),
                },
            }
        },
        Some(other) => (
            Err(sync_flag(other)),
            sp_record(ti, sp_bump(st1), ParseErrorKind::ExpectedIdentifier),
        ),
        None => (
            Err(ShouldSynchronize::Yes),
            sp_record(ti, st1, ParseErrorKind::ExpectedIdentifier),
        ),
    }
}

/// A for-loop initializer must be a variable declaration; anything else
/// is an unexpected token.
pub open spec fn sp_for_init(ti: TokInfo, st: PSt<ParseErrorKind>) -> (Result<
    VarDeclM,
    ShouldSynchronize,
>, PSt<ParseErrorKind>)
    decreases ti.toks.len() - st.pos, 30int,
    when 0 <= st.pos <= ti.toks.len()
{
    match sp_peek(ti, st) {
        Some(TokenM::Fixed(FixedToken::Var)) => sp_vardecl(ti, st),
        Some(other) => (
            Err(sync_flag(other)),
            sp_record(ti, sp_bump(st), ParseErrorKind::UnexpectedToken),
        ),
        None => (
            Err(ShouldSynchronize::Yes),
            sp_record(ti, st, ParseErrorKind::UnexpectedToken),
        ),
    }
}

/// A statement; expression and print statements require a terminating
/// semicolon, blocks and control constructs do not.
#[verifier::opaque]
pub open spec fn sp_statement(ti: TokInfo, st: PSt<ParseErrorKind>) -> (Result<
    StmtM,
    ShouldSynchronize,
>, PSt<ParseErrorKind>)
    decreases ti.toks.len() - st.pos, 28int,
    when 0 <= st.pos <= ti.toks.len()
{
    match sp_peek(ti, st) {
        Some(TokenM::Fixed(FixedToken::If)) => {
            let st1 = sp_bump(st);
            let (r1, st2) = sp_match(ti, st1, FixedToken::LeftParenthesis);
            match r1 {
                Err(s) => (Err(s), st2),
                Ok(_) => {
                    let (rc, st3) = if st.pos < st2.pos <= ti.toks.len() {
                        sp_expression(ti, st2)
                    } else {
                        (Err(ShouldSynchronize::Yes), st2)
                    };
                    match rc {
                        Err(s) => (Err(s), st3),
                        Ok(cond) => {
                            let (r2, st4) = sp_match(ti, st3, FixedToken::RightParenthesis);
                            match r2 {
                                Err(s) => (Err(s), st4),
                                Ok(_) => {
                                    let (rb, st5) = if st.pos < st4.pos <= ti.toks.len() {
                                        sp_statement(ti, st4)
                                    } else {
                                        (Err(ShouldSynchronize::Yes), st4)
                                    };
                                    match rb {
                                        Err(s) => (Err(s), st5),
                                        Ok(then) => match sp_peek(ti, st5) {
                                            Some(TokenM::Fixed(FixedToken::Else)) => {
                                                let st6 = sp_bump(st5);
                                                let (re, st7) = if st.pos < st6.pos
                                                    <= ti.toks.len() {
                                                    sp_statement(ti, st6)
                                                } else {
                                                    (Err(ShouldSynchronize::Yes), st6)
                                                };
                                                match re {
                                                    Err(s) => (Err(s), st7),
                                                    Ok(els) => (
                                                        Ok(
                                                            StmtM::If {
                                                                cond,
                                                                then: Box::new(then),
                                                                els: Some(Box::new(els)),
                                                            },
                                                        ),
                                                        st7,
                                                    ),
                                                }
                                            },
                                            _ => (
                                                Ok(
                                                    StmtM::If {
                                                        cond,
                                                        then: Box::new(then),
                                                        els: None,
                                                    },
                                                ),
                                                st5,
                                            ),
                                        },
                                    }
                                },
                            }
                        },
                    }
                },
            }
        },
        Some(TokenM::Fixed(FixedToken::For)) => {
            let st1 = sp_bump(st);
            let (r1, st2) = sp_match(ti, st1, FixedToken::LeftParenthesis);
            match r1 {
                Err(s) => (Err(s), st2),
                Ok(_) => {
                    let (ri, st3) = if st.pos < st2.pos <= ti.toks.len() {
                        sp_for_init(ti, st2)
                    } else {
                        (Err(ShouldSynchronize::Yes), st2)
                    };
                    match ri {
                        Err(s) => (Err(s), st3),
                        Ok(init) => {
                            let (rc, st4) = match sp_peek(ti, st3) {
                                Some(TokenM::Fixed(FixedToken::Semicolon)) => (
                                    Ok(None::<ExprM>),
                                    st3,
                                ),
                                _ => {
                                    let (r, stx) = if st.pos < st3.pos <= ti.toks.len() {
                                        sp_expression(ti, st3)
                                    } else {
                                        (Err(ShouldSynchronize::Yes), st3)
                                    };
                                    match r {
                                        Ok(e) => (Ok(Some(e)), stx),
                                        Err(s) => (Err(s), stx),
                                    }
                                },
                            };
                            match rc {
                                Err(s) => (Err(s), st4),
                                Ok(cond) => {
                                    let (r2, st5) = sp_match(ti, st4, FixedToken::Semicolon);
                                    match r2 {
                                        Err(s) => (Err(s), st5),
                                        Ok(_) => {
                                            let (rinc, st6) = match sp_peek(ti, st5) {
                                                Some(
                                                    TokenM::Fixed(FixedToken::RightParenthesis),
                                                ) => (Ok(None::<ExprM>), st5),
                                                _ => {
                                                    let (r, stx) = if st.pos < st5.pos
                                                        <= ti.toks.len() {
                                                        sp_expression(ti, st5)
                                                    } else {
                                                        (Err(ShouldSynchronize::Yes), st5)
                                                    };
                                                    match r {
                                                        Ok(e) => (Ok(Some(e)), stx),
                                                        Err(s) => (Err(s), stx),
                                                    }
                                                },
                                            };
                                            match rinc {
                                                Err(s) => (Err(s), st6),
                                                Ok(inc) => {
                                                    let (r3, st7) = sp_match(
                                                        ti,
                                                        st6,
                                                        FixedToken::RightParenthesis,
                                                    );
                                                    match r3 {
                                                        Err(s) => (Err(s), st7),
                                                        Ok(_) => {
                                                            let (rb, st8) = if st.pos < st7.pos
                                                                <= ti.toks.len() {
                                                                sp_statement(ti, st7)
                                                            } else {
                                                                (Err(ShouldSynchronize::Yes), st7)
                                                            };
                                                            match rb {
                                                                Err(s) => (Err(s), st8),
                                                                Ok(body) => (
                                                                    Ok(
                                                                        StmtM::For {
                                                                            init,
                                                                            cond,
                                                                            inc,
                                                                            body: Box::new(body),
                                                                        },
                                                                    ),
                                                                    st8,
                                                                ),
                                                            }
                                                        },
                                                    }
                                                },
                                            }
                                        },
                                    }
                                },
                            }
                        },
                    }
                },
            }
        },
        Some(TokenM::Fixed(FixedToken::Print)) => {
            let st1 = sp_bump(st);
            let (r, st2) = sp_expression(ti, st1);
            match r {
                Err(s) => (Err(s), st2),
                Ok(e) => match sp_peek(ti, st2) {
                    Some(TokenM::Fixed(FixedToken::Semicolon)) => (
                        Ok(StmtM::Print(e)),
                        sp_bump(st2),
                    ),
                    Some(_) => (
                        Err(ShouldSynchronize::Yes),
                        sp_record(ti, sp_bump(st2), ParseErrorKind::ExpectedSemicolon),
                    ),
                    None => (
                        Err(ShouldSynchronize::Yes),
                        sp_record(ti, st2, ParseErrorKind::ExpectedSemicolon),
                    ),
                },
            }
        },
        Some(TokenM::Fixed(FixedToken::While)) => {
            let st1 = sp_bump(st);
            let (r1, st2) = sp_match(ti, st1, FixedToken::LeftParenthesis);
            match r1 {
                Err(s) => (Err(s), st2),
                Ok(_) => {
                    let (rc, st3) = if st.pos < st2.pos <= ti.toks.len() {
                        sp_expression(ti, st2)
                    } else {
                        (Err(ShouldSynchronize::Yes), st2)
                    };
                    match rc {
                        Err(s) => (Err(s), st3),
                        Ok(cond) => {
                            let (r2, st4) = sp_match(ti, st3, FixedToken::RightParenthesis);
                            match r2 {
                                Err(s) => (Err(s), st4),
                                Ok(_) => {
                                    let (rb, st5) = if st.pos < st4.pos <= ti.toks.len() {
                                        sp_statement(ti, st4)
                                    } else {
                                        (Err(ShouldSynchronize::Yes), st4)
                                    };
                                    match rb {
                                        Err(s) => (Err(s), st5),
                                        Ok(body) => (
                                            Ok(StmtM::While { cond, body: Box::new(body) }),
                                            st5,
                                        ),
                                    }
                                },
                            }
                        },
                    }
                },
            }
        },
        Some(TokenM::Fixed(FixedToken::LeftBrace)) => sp_block(ti, st),
        _ => {
            let (r, st1) = sp_expression(ti, st);
            match r {
                Err(s) => (Err(s), st1),
                Ok(e) => match sp_peek(ti, st1) {
                    Some(TokenM::Fixed(FixedToken::Semicolon)) => (
                        Ok(StmtM::Expr(e)),
                        sp_bump(st1),
                    ),
                    Some(_) => (
                        Err(ShouldSynchronize::Yes),
                        sp_record(ti, sp_bump(st1), ParseErrorKind::ExpectedSemicolon),
                    ),
                    None => (
                        Err(ShouldSynchronize::Yes),
                        sp_record(ti, st1, ParseErrorKind::ExpectedSemicolon),
                    ),
                },
            }
        },
    }
}

/// A block: `{`, declarations, `}`. Input ending before the closing
/// brace records an unexpected token.
pub open spec fn sp_block(ti: TokInfo, st: PSt<ParseErrorKind>) -> (Result<
    StmtM,
    ShouldSynchronize,
>, PSt<ParseErrorKind>)
    decreases ti.toks.len() - st.pos, 27int,
    when 0 <= st.pos <= ti.toks.len()
{
    if sp_peek(ti, st) is Some {
        sp_block_rest(ti, sp_bump(st), seq![])
    } else {
        (Err(ShouldSynchronize::Yes), st)
    }
}

pub open spec fn sp_block_rest(ti: TokInfo, st: PSt<ParseErrorKind>, acc: Seq<DeclM>) -> (Result<
    StmtM,
    ShouldSynchronize,
>, PSt<ParseErrorKind>)
    decreases ti.toks.len() - st.pos, 31int,
    when 0 <= st.pos <= ti.toks.len()
{
    match sp_peek(ti, st) {
        Some(TokenM::Fixed(FixedToken::RightBrace)) => (Ok(StmtM::Block(acc)), sp_bump(st)),
        None => (Err(ShouldSynchronize::Yes), sp_record(ti, st, ParseErrorKind::UnexpectedToken)),
        Some(_) => {
            let (r, st1) = sp_declaration(ti, st);
            match r {
                Err(s) => (Err(s), st1),
                Ok(d) => if st.pos < st1.pos <= ti.toks.len() {
                    sp_block_rest(ti, st1, acc.push(d))
                } else {
                    (Err(ShouldSynchronize::Yes), st1)
                },
            }
        },
    }
}

/// A declaration: a variable declaration or a statement.
pub open spec fn sp_declaration(ti: TokInfo, st: PSt<ParseErrorKind>) -> (Result<
    DeclM,
    ShouldSynchronize,
>, PSt<ParseErrorKind>)
    decreases ti.toks.len() - st.pos, 30int,
    when 0 <= st.pos <= ti.toks.len()
{
    match sp_peek(ti, st) {
        Some(TokenM::Fixed(FixedToken::Var)) => {
            let (r, st1) = sp_vardecl(ti, st);
            match r {
                Ok(vd) => (Ok(DeclM::VarDecl(vd)), st1),
                Err(s) => (Err(s), st1),
            }
        },
        _ => {
            let (r, st1) = sp_statement(ti, st);
            match r {
                Ok(s) => (Ok(DeclM::Stmt(s)), st1),
                Err(s) => (Err(s), st1),
            }
        },
    }
}

/// The final verdict of a parse: one failed declaration voids the whole
/// program.
pub open spec fn finalize_list(acc: Seq<Option<DeclM>>) -> Result<Seq<DeclM>, ShouldSynchronize> {
    if forall|i: int| 0 <= i < acc.len() ==> (#[trigger] acc[i]) is Some {
        Ok(Seq::new(acc.len(), |i: int| acc[i]->0))
    } else {
        Err(ShouldSynchronize::No)
    }
}

/// The program loop: declarations until no tokens remain; a failed one
/// is marked and, when it asks to synchronize, tokens are skipped to the
/// next semicolon before resuming.
pub open spec fn sp_program_rest(
    ti: TokInfo,
    st: PSt<ParseErrorKind>,
    acc: Seq<Option<DeclM>>,
) -> (Result<Seq<DeclM>, ShouldSynchronize>, PSt<ParseErrorKind>)
    decreases ti.toks.len() - st.pos, 33int,
    when 0 <= st.pos <= ti.toks.len()
{
    match sp_peek(ti, st) {
        None => (finalize_list(acc), st),
        Some(_) => {
            let (r, st1) = sp_declaration(ti, st);
            match r {
                Ok(d) => if st.pos < st1.pos <= ti.toks.len() {
                    sp_program_rest(ti, st1, acc.push(Some(d)))
                } else {
                    (finalize_list(acc.push(Some(d))), st1)
                },
                Err(s) => {
                    let st2 = if s is Yes && 0 <= st1.pos <= ti.toks.len() {
                        sp_sync(ti, st1)
                    } else {
                        st1
                    };
                    if st.pos < st2.pos <= ti.toks.len() {
                        sp_program_rest(ti, st2, acc.push(None))
                    } else {
                        (finalize_list(acc.push(None)), st2)
                    }
                },
            }
        },
    }
}

pub open spec fn sp_program(ti: TokInfo, st: PSt<ParseErrorKind>) -> (Result<
    Seq<DeclM>,
    ShouldSynchronize,
>, PSt<ParseErrorKind>)
    decreases ti.toks.len() - st.pos, 34int,
    when 0 <= st.pos <= ti.toks.len()
{
    sp_program_rest(ti, st, seq![])
}


// ------------------------------------------------------------------
// Executable parser
// ------------------------------------------------------------------

/// Whether to synchronize after consuming this offending token.
fn flag_for(t: &Token) -> (r: ShouldSynchronize)
    ensures
        r == sync_flag(t.deep_view()),
{
    match t {
        Token::FixedToken(f) => {
            if *f == FixedToken::Semicolon {
                ShouldSynchronize::No
            } else {
                ShouldSynchronize::Yes
            }
        },
        Token::Identifier(_) => ShouldSynchronize::Yes,
        Token::StringLiteral(_) => ShouldSynchronize::Yes,
        Token::NumericLiteral(_) => ShouldSynchronize::Yes,
        Token::Error(_) => ShouldSynchronize::Yes,
    }
}

/// The parser's working state: the filtered token stream with the error
/// recorder.
pub struct ParseContext {
    recorder: ErrorRecorder<ParseErrorKind>,
}

impl ParseContext {
    pub closed spec fn tinfo(&self) -> TokInfo {
        self.recorder.tinfo()
    }

    pub closed spec fn pst(&self) -> PSt<ParseErrorKind> {
        self.recorder.pst()
    }

    pub closed spec fn wf(&self) -> bool {
        self.recorder.wf()
    }

    pub proof fn lemma_bounds(&self)
        requires
            self.wf(),
        ensures
            0 <= self.pst().pos <= self.tinfo().toks.len(),
    {
        self.recorder.lemma_bounds();
    }

    pub fn new(tokens: Vec<Token>) -> (r: ParseContext)
        ensures
            r.wf(),
            r.tinfo() == make_tinfo(tokens.deep_view()),
            r.pst() == (PSt::<ParseErrorKind> { pos: 0, errs: Seq::empty() }),
    {
        ParseContext { recorder: ErrorRecorder::new(tokens) }
    }

    /// The next token, cloned out of the stream.
    pub fn peek_cloned(&self) -> (r: Option<Token>)
        requires
            self.wf(),
        ensures
            match r {
                Some(t) => sp_peek(self.tinfo(), self.pst()) == Some(t.deep_view()),
                None => sp_peek(self.tinfo(), self.pst()) is None,
            },
    {
        proof {
            self.lemma_bounds();
        }
        match self.recorder.peek() {
            None => None,
            Some(t) => Some(
                match t {
                    Token::FixedToken(f) => Token::FixedToken(*f),
                    Token::Identifier(id) => Token::Identifier(
                        Identifier { name: id.name.clone() },
                    ),
                    Token::StringLiteral(sl) => Token::StringLiteral(
                        StringLiteral { value: sl.value.clone() },
                    ),
                    Token::NumericLiteral(n) => Token::NumericLiteral(*n),
                    Token::Error(e) => Token::Error(*e),
                },
            ),
        }
    }

    /// Whether the next token is exactly the given fixed token.
    pub fn peek_is_fixed(&self, ft: FixedToken) -> (r: bool)
        requires
            self.wf(),
        ensures
            r == (sp_peek(self.tinfo(), self.pst()) == Some(TokenM::Fixed(ft))),
    {
        proof {
            self.lemma_bounds();
        }
        match self.recorder.peek() {
            Some(t) => match t {
                Token::FixedToken(f) => *f == ft,
                Token::Identifier(_) => false,
                Token::StringLiteral(_) => false,
                Token::NumericLiteral(_) => false,
                Token::Error(_) => false,
            },
            None => false,
        }
    }

    /// Whether no token is left to consume.
    pub fn at_end(&self) -> (r: bool)
        requires
            self.wf(),
        ensures
            r == (sp_peek(self.tinfo(), self.pst()) is None),
    {
        proof {
            self.lemma_bounds();
        }
        match self.recorder.peek() {
            Some(_) => false,
            None => true,
        }
    }

    /// Consumes the next token.
    pub fn advance(&mut self)
        requires
            old(self).wf(),
            sp_peek(old(self).tinfo(), old(self).pst()) is Some,
        ensures
            final(self).wf(),
            final(self).tinfo() == old(self).tinfo(),
            final(self).pst() == sp_bump(old(self).pst()),
    {
        proof {
            self.lemma_bounds();
        }
        self.recorder.advance();
    }

    /// Records an error at the current consumption position.
    pub fn record_error(&mut self, kind: ParseErrorKind)
        requires
            old(self).wf(),
        ensures
            final(self).wf(),
            final(self).tinfo() == old(self).tinfo(),
            final(self).pst() == sp_record(old(self).tinfo(), old(self).pst(), kind),
    {
        self.recorder.record(kind);
    }

    /// Consumes one token that must be the given fixed token; any other
    /// consumption records `UnexpectedToken`.
    pub fn match_token(&mut self, token: FixedToken) -> (r: Result<(), ShouldSynchronize>)
        requires
            old(self).wf(),
        ensures
            final(self).wf(),
            final(self).tinfo() == old(self).tinfo(),
            ({
                let (rm, stm) = sp_match(old(self).tinfo(), old(self).pst(), token);
                final(self).pst() == stm && (match r {
                    Ok(u) => rm is Ok,
                    Err(s) => rm == Err::<(), ShouldSynchronize>(s),
                })
            }),
            old(self).pst().pos <= final(self).pst().pos <= old(self).tinfo().toks.len(),
            r is Ok ==> final(self).pst().pos == old(self).pst().pos + 1,
    {
        proof {
            self.lemma_bounds();
        }
        match self.peek_cloned() {
            Some(Token::FixedToken(actual)) => {
                self.advance();
                if actual == token {
                    Ok(())
                } else {
                    self.record_error(ParseErrorKind::UnexpectedToken);
                    Err(flag_for(&Token::FixedToken(actual)))
                }
            },
            Some(t) => {
                self.advance();
                self.record_error(ParseErrorKind::UnexpectedToken);
                Err(flag_for(&t))
            },
            None => {
                self.record_error(ParseErrorKind::UnexpectedToken);
                Err(ShouldSynchronize::Yes)
            },
        }
    }

    /// The current position in the filtered token stream.
    pub fn position(&self) -> (r: usize)
        ensures
            r as int == self.pst().pos,
    {
        self.recorder.position()
    }

    /// Consumes the context, returning the recorded errors.
    pub fn errors(self) -> (r: Errors<ParseErrorKind>)
        ensures
            r@ == self.pst().errs,
    {
        self.recorder.errors()
    }
}

/// Skips tokens up to and including the next semicolon.
pub fn synchronize(ctx: &mut ParseContext)
    requires
        old(ctx).wf(),
    ensures
        final(ctx).wf(),
        final(ctx).tinfo() == old(ctx).tinfo(),
        final(ctx).pst() == sp_sync(old(ctx).tinfo(), old(ctx).pst()),
        old(ctx).pst().pos <= final(ctx).pst().pos <= old(ctx).tinfo().toks.len(),
        old(ctx).pst().pos < old(ctx).tinfo().toks.len()
            ==> old(ctx).pst().pos < final(ctx).pst().pos,
{
    proof {
        ctx.lemma_bounds();
    }
    loop
        invariant_except_break
            sp_sync(old(ctx).tinfo(), old(ctx).pst()) == sp_sync(ctx.tinfo(), ctx.pst()),
            old(ctx).pst().pos < old(ctx).tinfo().toks.len() ==> (old(ctx).pst().pos < ctx.pst().pos
                || ctx.pst().pos < ctx.tinfo().toks.len()),
        invariant
            ctx.wf(),
            ctx.tinfo() == old(ctx).tinfo(),
            old(ctx).pst().pos <= ctx.pst().pos <= ctx.tinfo().toks.len(),
        ensures
            ctx.wf(),
            ctx.tinfo() == old(ctx).tinfo(),
            ctx.pst() == sp_sync(old(ctx).tinfo(), old(ctx).pst()),
            old(ctx).pst().pos <= ctx.pst().pos <= ctx.tinfo().toks.len(),
            old(ctx).pst().pos < old(ctx).tinfo().toks.len() ==> old(ctx).pst().pos < ctx.pst().pos,
        decreases ctx.tinfo().toks.len() - ctx.pst().pos,
    {
        proof {
            ctx.lemma_bounds();
        }
        match ctx.peek_cloned() {
            None => {
                break;
            },
            Some(Token::FixedToken(FixedToken::Semicolon)) => {
                ctx.advance();
                break;
            },
            Some(_) => {
                ctx.advance();
            },
        }
    }
}

/// A primary expression: a literal, an identifier, or a parenthesized
/// grouping.
#[verifier::rlimit(60)]
pub fn primary(ctx: &mut ParseContext) -> (r: Result<Primary, ShouldSynchronize>)
    requires
        old(ctx).wf(),
    ensures
        final(ctx).wf(),
        final(ctx).tinfo() == old(ctx).tinfo(),
        ({
            let (rm, stm) = sp_primary(old(ctx).tinfo(), old(ctx).pst());
            final(ctx).pst() == stm && (match r {
                Ok(p) => rm == Ok::<PrimM, ShouldSynchronize>(p.deep_view()),
                Err(s) => rm == Err::<PrimM, ShouldSynchronize>(s),
            })
        }),
        old(ctx).pst().pos <= final(ctx).pst().pos <= old(ctx).tinfo().toks.len(),
        r is Ok ==> old(ctx).pst().pos < final(ctx).pst().pos,
    decreases old(ctx).tinfo().toks.len() - old(ctx).pst().pos, 3int,
{
    proof {
        ctx.lemma_bounds();
    }
    match ctx.peek_cloned() {
        None => {
            ctx.record_error(ParseErrorKind::ExpectedPrimaryExpression);
            Err(ShouldSynchronize::Yes)
        },
        Some(t) => {
            match t {
                Token::FixedToken(FixedToken::True) => {
                    ctx.advance();
                    Ok(Primary::True)
                },
                Token::FixedToken(FixedToken::False) => {
                    ctx.advance();
                    Ok(Primary::False)
                },
                Token::FixedToken(FixedToken::Nil) => {
                    ctx.advance();
                    Ok(Primary::Nil)
                },
                Token::NumericLiteral(n) => {
                    ctx.advance();
                    Ok(Primary::Number(n.bits))
                },
                Token::StringLiteral(sl) => {
                    ctx.advance();
                    Ok(Primary::String_(sl.value))
                },
                Token::Identifier(id) => {
                    ctx.advance();
                    Ok(Primary::Identifier(id.name))
                },
                Token::FixedToken(FixedToken::LeftParenthesis) => {
                    ctx.advance();
                    match expression(ctx) {
                        Ok(e) => {
                            proof {
                                ctx.lemma_bounds();
                            }
                            match ctx.peek_cloned() {
                                Some(Token::FixedToken(FixedToken::RightParenthesis)) => {
                                    ctx.advance();
                                    Ok(Primary::Grouping(Box::new(e)))
                                },
                                Some(t2) => {
                                    ctx.advance();
                                    ctx.record_error(ParseErrorKind::UnmatchedParenthesis);
                                    Err(flag_for(&t2))
                                },
                                None => {
                                    ctx.record_error(ParseErrorKind::UnmatchedParenthesis);
                                    Err(ShouldSynchronize::Yes)
                                },
                            }
                        },
                        Err(s) => Err(s),
                    }
                },
                other => {
                    ctx.advance();
                    ctx.record_error(ParseErrorKind::ExpectedPrimaryExpression);
                    Err(flag_for(&other))
                },
            }
        },
    }
}

impl Primary {
    /// Parses one primary expression.
    pub fn parse(ctx: &mut ParseContext) -> (r: Result<Primary, ShouldSynchronize>)
        requires
            old(ctx).wf(),
        ensures
            final(ctx).wf(),
            final(ctx).tinfo() == old(ctx).tinfo(),
            ({
                let (rm, stm) = sp_primary(old(ctx).tinfo(), old(ctx).pst());
                final(ctx).pst() == stm && (match r {
                    Ok(p) => rm == Ok::<PrimM, ShouldSynchronize>(p.deep_view()),
                    Err(s) => rm == Err::<PrimM, ShouldSynchronize>(s),
                })
            }),
            old(ctx).pst().pos <= final(ctx).pst().pos <= old(ctx).tinfo().toks.len(),
            r is Ok ==> old(ctx).pst().pos < final(ctx).pst().pos,
        decreases old(ctx).tinfo().toks.len() - old(ctx).pst().pos, 100int,
    {
        primary(ctx)
    }
}

/// A primary possibly applied to parenthesized arguments.
#[verifier::rlimit(60)]
#[verifier::loop_isolation(false)]
pub fn call(ctx: &mut ParseContext) -> (r: Result<Expression, ShouldSynchronize>)
    requires
        old(ctx).wf(),
    ensures
        final(ctx).wf(),
        final(ctx).tinfo() == old(ctx).tinfo(),
        ({
            let (rm, stm) = sp_call(old(ctx).tinfo(), old(ctx).pst());
            final(ctx).pst() == stm && (match r {
                Ok(e) => rm == Ok::<ExprM, ShouldSynchronize>(e.deep_view()),
                Err(s) => rm == Err::<ExprM, ShouldSynchronize>(s),
            })
        }),
        old(ctx).pst().pos <= final(ctx).pst().pos <= old(ctx).tinfo().toks.len(),
        r is Ok ==> old(ctx).pst().pos < final(ctx).pst().pos,
    decreases old(ctx).tinfo().toks.len() - old(ctx).pst().pos, 4int,
{
    proof {
        ctx.lemma_bounds();
    }
    let ghost ti = old(ctx).tinfo();
    let ghost st0 = old(ctx).pst();
    let callee = match primary(ctx) {
        Ok(p) => p,
        Err(s) => {
            return Err(s);
        },
    };
    proof {
        ctx.lemma_bounds();
    }
    match ctx.peek_cloned() {
        Some(Token::FixedToken(FixedToken::LeftParenthesis)) => {
            ctx.advance();
            proof {
                ctx.lemma_bounds();
            }
            match ctx.peek_cloned() {
                Some(Token::FixedToken(FixedToken::RightParenthesis)) => {
                    ctx.advance();
                    let ghost cal0 = callee.deep_view();
                    let empty_args: Vec<Expression> = Vec::new();
                    proof {
                        reveal_with_fuel(view_expr_seq, 2);
                        assert(empty_args@ =~= Seq::<Expression>::empty());
                        assert(view_expr_seq(empty_args@) =~= Seq::<ExprM>::empty());
                    }
                    let prim = Primary::Call {
                        callable: Box::new(callee),
                        arguments: empty_args,
                    };
                    proof {
                        assert(view_prim(prim) is Call);
                        assert(view_prim(prim)->Call_args =~= Seq::<ExprM>::empty());
                        assert(view_prim(prim)->Call_args =~= seq![]);
                        assert(view_prim(prim)->Call_callee == Box::new(cal0));
                        assert(view_prim(prim) == (PrimM::Call {
                            callee: Box::new(cal0),
                            args: seq![],
                        }));
                    }
                    let r = Expression::Primary(prim);
                    proof {
                        assert(r.deep_view() == ExprM::Primary(
                            PrimM::Call { callee: Box::new(cal0), args: seq![] },
                        ));
                    }
                    Ok(r)
                },
                _ => {
                    // the argument loop mirrors `sp_call_args`
                    let ghost cal = callee.deep_view();
                    let mut arguments: Vec<Expression> = Vec::new();
                    proof {
                        reveal_with_fuel(view_expr_seq, 2);
                        assert(view_expr_seq(arguments@) =~= Seq::<ExprM>::empty());
                    }
                    loop
                        invariant
                            ctx.wf(),
                            ctx.tinfo() == ti,
                            st0.pos < ctx.pst().pos <= ti.toks.len(),
                            cal == callee.deep_view(),
                            sp_call(ti, st0) == sp_call_args(
                                ti,
                                ctx.pst(),
                                cal,
                                view_expr_seq(arguments@),
                            ),
                        decreases ti.toks.len() - ctx.pst().pos,
                    {
                        let ghost st_iter = ctx.pst();
                        let ghost args_before = view_expr_seq(arguments@);
                        let arg = match expression(ctx) {
                            Ok(e) => e,
                            Err(s) => {
                                proof {
                                    assert(sp_call(ti, st0).0
                                        == Err::<ExprM, ShouldSynchronize>(s));
                                    assert(sp_call(ti, st0).1 == ctx.pst());
                                }
                                return Err(s);
                            },
                        };
                        let ghost argv = arg.deep_view();
                        let ghost args_seq = arguments@;
                        arguments.push(arg);
                        proof {
                            assert(arguments@ =~= args_seq.push(arg));
                            lemma_view_expr_seq_push(args_seq, arg);
                            ctx.lemma_bounds();
                        }
                        match ctx.peek_cloned() {
                            Some(Token::FixedToken(FixedToken::Comma)) => {
                                ctx.advance();
                            },
                            Some(Token::FixedToken(FixedToken::RightParenthesis)) => {
                                ctx.advance();
                                let ghost acc2 = view_expr_seq(arguments@);
                                let prim = Primary::Call {
                                    callable: Box::new(callee),
                                    arguments,
                                };
                                proof {
                                    assert(view_prim(prim) is Call);
                                    assert(view_prim(prim)->Call_args == acc2);
                                    assert(view_prim(prim)->Call_callee == Box::new(cal));
                                    assert(view_prim(prim) == (PrimM::Call {
                                        callee: Box::new(cal),
                                        args: acc2,
                                    }));
                                }
                                let r = Expression::Primary(prim);
                                proof {
                                    assert(r.deep_view() == ExprM::Primary(
                                        PrimM::Call { callee: Box::new(cal), args: acc2 },
                                    ));
                                    assert(sp_call(ti, st0).0 == Ok::<ExprM, ShouldSynchronize>(
                                        r.deep_view(),
                                    ));
                                    assert(sp_call(ti, st0).1 == ctx.pst());
                                }
                                return Ok(r);
                            },
                            Some(t3) => {
                                ctx.advance();
                                ctx.record_error(ParseErrorKind::UnexpectedToken);
                                let f = flag_for(&t3);
                                proof {
                                    assert(sp_call(ti, st0).0
                                        == Err::<ExprM, ShouldSynchronize>(f));
                                    assert(sp_call(ti, st0).1 == ctx.pst());
                                }
                                return Err(f);
                            },
                            None => {
                                ctx.record_error(ParseErrorKind::UnexpectedToken);
                                proof {
                                    assert(sp_call(ti, st0).0
                                        == Err::<ExprM, ShouldSynchronize>(
                                        ShouldSynchronize::Yes,
                                    ));
                                    assert(sp_call(ti, st0).1 == ctx.pst());
                                }
                                return Err(ShouldSynchronize::Yes);
                            },
                        }
                    }
                    proof {
                        assert(false);
                    }
                    Err(ShouldSynchronize::Yes)
                },
            }
        },
        _ => Ok(Expression::Primary(callee)),
    }
}

/// A unary negation or complement, or a call.
#[verifier::rlimit(60)]
pub fn unary(ctx: &mut ParseContext) -> (r: Result<Expression, ShouldSynchronize>)
    requires
        old(ctx).wf(),
    ensures
        final(ctx).wf(),
        final(ctx).tinfo() == old(ctx).tinfo(),
        ({
            let (rm, stm) = sp_unary(old(ctx).tinfo(), old(ctx).pst());
            final(ctx).pst() == stm && (match r {
                Ok(e) => rm == Ok::<ExprM, ShouldSynchronize>(e.deep_view()),
                Err(s) => rm == Err::<ExprM, ShouldSynchronize>(s),
            })
        }),
        old(ctx).pst().pos <= final(ctx).pst().pos <= old(ctx).tinfo().toks.len(),
        r is Ok ==> old(ctx).pst().pos < final(ctx).pst().pos,
    decreases old(ctx).tinfo().toks.len() - old(ctx).pst().pos, 5int,
{
    proof {
        ctx.lemma_bounds();
    }
    let op = match ctx.peek_cloned() {
        Some(Token::FixedToken(FixedToken::Minus)) => Some(UnaryOperator::Negate),
        Some(Token::FixedToken(FixedToken::Bang)) => Some(UnaryOperator::Not),
        _ => None,
    };
    match op {
        Some(o) => {
            ctx.advance();
            match unary(ctx) {
                Ok(e) => Ok(
                    Expression::Unary(Unary { operator: o, right: Box::new(e) }),
                ),
                Err(s) => Err(s),
            }
        },
        None => call(ctx),
    }
}

fn level_op_exec(lvl: u8, ft: FixedToken) -> (r: Option<BinaryOperator>)
    ensures
        r == level_op(lvl as int, ft),
{
    if lvl == 0 {
        match ft {
            FixedToken::Or => Some(BinaryOperator::Or),
            _ => None,
        }
    } else if lvl == 1 {
        match ft {
            FixedToken::And => Some(BinaryOperator::And),
            _ => None,
        }
    } else if lvl == 2 {
        match ft {
            FixedToken::EqualEqual => Some(BinaryOperator::Equality),
            FixedToken::BangEqual => Some(BinaryOperator::Inequality),
            _ => None,
        }
    } else if lvl == 3 {
        match ft {
            FixedToken::Greater => Some(BinaryOperator::GreaterThan),
            FixedToken::GreaterEqual => Some(BinaryOperator::GreaterThanOrEqualTo),
            FixedToken::Less => Some(BinaryOperator::LessThan),
            FixedToken::LessEqual => Some(BinaryOperator::LessThanOrEqualTo),
            _ => None,
        }
    } else if lvl == 4 {
        match ft {
            FixedToken::Plus => Some(BinaryOperator::Addition),
            FixedToken::Minus => Some(BinaryOperator::Subtraction),
            _ => None,
        }
    } else if lvl == 5 {
        match ft {
            FixedToken::Asterisk => Some(BinaryOperator::Multiplication),
            FixedToken::ForwardSlash => Some(BinaryOperator::Division),
            _ => None,
        }
    } else {
        None
    }
}

/// One binary precedence level, folding its operators left to right.
#[verifier::rlimit(80)]
#[verifier::loop_isolation(false)]
pub fn binary_level(ctx: &mut ParseContext, lvl: u8) -> (r: Result<Expression, ShouldSynchronize>)
    requires
        old(ctx).wf(),
        lvl <= 5,
    ensures
        final(ctx).wf(),
        final(ctx).tinfo() == old(ctx).tinfo(),
        ({
            let (rm, stm) = sp_binary(old(ctx).tinfo(), old(ctx).pst(), lvl as int);
            final(ctx).pst() == stm && (match r {
                Ok(e) => rm == Ok::<ExprM, ShouldSynchronize>(e.deep_view()),
                Err(s) => rm == Err::<ExprM, ShouldSynchronize>(s),
            })
        }),
        old(ctx).pst().pos <= final(ctx).pst().pos <= old(ctx).tinfo().toks.len(),
        r is Ok ==> old(ctx).pst().pos < final(ctx).pst().pos,
    decreases old(ctx).tinfo().toks.len() - old(ctx).pst().pos, 18int - 2 * lvl,
{
    proof {
        ctx.lemma_bounds();
    }
    let ghost ti = old(ctx).tinfo();
    let ghost st0 = old(ctx).pst();
    let sub = if lvl == 5 {
        unary(ctx)
    } else {
        binary_level(ctx, lvl + 1)
    };
    let mut acc = match sub {
        Ok(e) => e,
        Err(s) => {
            return Err(s);
        },
    };
    proof {
        assert(sp_binary(ti, st0, lvl as int) == sp_binary_rest(
            ti,
            ctx.pst(),
            lvl as int,
            acc.deep_view(),
        ));
    }
    loop
        invariant
            ctx.wf(),
            ctx.tinfo() == ti,
            lvl <= 5,
            st0.pos < ctx.pst().pos <= ti.toks.len(),
            sp_binary(ti, st0, lvl as int) == sp_binary_rest(
                ti,
                ctx.pst(),
                lvl as int,
                acc.deep_view(),
            ),
        decreases ti.toks.len() - ctx.pst().pos,
    {
        proof {
            ctx.lemma_bounds();
        }
        let op = match ctx.peek_cloned() {
            Some(Token::FixedToken(ft)) => level_op_exec(lvl, ft),
            _ => None,
        };
        let o = match op {
            Some(o) => o,
            None => {
                break;
            },
        };
        ctx.advance();
        let ghost st_after_op = ctx.pst();
        let sub2 = if lvl == 5 {
            unary(ctx)
        } else {
            binary_level(ctx, lvl + 1)
        };
        let right = match sub2 {
            Ok(e) => e,
            Err(s) => {
                proof {
                    assert(sp_binary(ti, st0, lvl as int).0 == Err::<ExprM, ShouldSynchronize>(
                        s,
                    ));
                    assert(sp_binary(ti, st0, lvl as int).1 == ctx.pst());
                }
                return Err(s);
            },
        };
        acc = Expression::Binary(
            Binary { left: Box::new(acc), operator: o, right: Box::new(right) },
        );
    }
    proof {
        assert(sp_binary(ti, st0, lvl as int) == (
            Ok::<ExprM, ShouldSynchronize>(acc.deep_view()),
            ctx.pst(),
        ));
    }
    Ok(acc)
}

/// The logical-or level.
pub fn logical_or(ctx: &mut ParseContext) -> (r: Result<Expression, ShouldSynchronize>)
    requires
        old(ctx).wf(),
    ensures
        final(ctx).wf(),
        final(ctx).tinfo() == old(ctx).tinfo(),
        ({
            let (rm, stm) = sp_binary(old(ctx).tinfo(), old(ctx).pst(), 0);
            final(ctx).pst() == stm && (match r {
                Ok(e) => rm == Ok::<ExprM, ShouldSynchronize>(e.deep_view()),
                Err(s) => rm == Err::<ExprM, ShouldSynchronize>(s),
            })
        }),
        old(ctx).pst().pos <= final(ctx).pst().pos <= old(ctx).tinfo().toks.len(),
        r is Ok ==> old(ctx).pst().pos < final(ctx).pst().pos,
    decreases old(ctx).tinfo().toks.len() - old(ctx).pst().pos, 100int,
{
    binary_level(ctx, 0)
}

/// The logical-and level.
pub fn logical_and(ctx: &mut ParseContext) -> (r: Result<Expression, ShouldSynchronize>)
    requires
        old(ctx).wf(),
    ensures
        final(ctx).wf(),
        final(ctx).tinfo() == old(ctx).tinfo(),
        ({
            let (rm, stm) = sp_binary(old(ctx).tinfo(), old(ctx).pst(), 1);
            final(ctx).pst() == stm && (match r {
                Ok(e) => rm == Ok::<ExprM, ShouldSynchronize>(e.deep_view()),
                Err(s) => rm == Err::<ExprM, ShouldSynchronize>(s),
            })
        }),
        old(ctx).pst().pos <= final(ctx).pst().pos <= old(ctx).tinfo().toks.len(),
        r is Ok ==> old(ctx).pst().pos < final(ctx).pst().pos,
    decreases old(ctx).tinfo().toks.len() - old(ctx).pst().pos, 100int,
{
    binary_level(ctx, 1)
}

/// The equality level.
pub fn equality(ctx: &mut ParseContext) -> (r: Result<Expression, ShouldSynchronize>)
    requires
        old(ctx).wf(),
    ensures
        final(ctx).wf(),
        final(ctx).tinfo() == old(ctx).tinfo(),
        ({
            let (rm, stm) = sp_binary(old(ctx).tinfo(), old(ctx).pst(), 2);
            final(ctx).pst() == stm && (match r {
                Ok(e) => rm == Ok::<ExprM, ShouldSynchronize>(e.deep_view()),
                Err(s) => rm == Err::<ExprM, ShouldSynchronize>(s),
            })
        }),
        old(ctx).pst().pos <= final(ctx).pst().pos <= old(ctx).tinfo().toks.len(),
        r is Ok ==> old(ctx).pst().pos < final(ctx).pst().pos,
    decreases old(ctx).tinfo().toks.len() - old(ctx).pst().pos, 100int,
{
    binary_level(ctx, 2)
}

/// The comparison level.
pub fn comparison(ctx: &mut ParseContext) -> (r: Result<Expression, ShouldSynchronize>)
    requires
        old(ctx).wf(),
    ensures
        final(ctx).wf(),
        final(ctx).tinfo() == old(ctx).tinfo(),
        ({
            let (rm, stm) = sp_binary(old(ctx).tinfo(), old(ctx).pst(), 3);
            final(ctx).pst() == stm && (match r {
                Ok(e) => rm == Ok::<ExprM, ShouldSynchronize>(e.deep_view()),
                Err(s) => rm == Err::<ExprM, ShouldSynchronize>(s),
            })
        }),
        old(ctx).pst().pos <= final(ctx).pst().pos <= old(ctx).tinfo().toks.len(),
        r is Ok ==> old(ctx).pst().pos < final(ctx).pst().pos,
    decreases old(ctx).tinfo().toks.len() - old(ctx).pst().pos, 100int,
{
    binary_level(ctx, 3)
}

/// The additive level.
pub fn term(ctx: &mut ParseContext) -> (r: Result<Expression, ShouldSynchronize>)
    requires
        old(ctx).wf(),
    ensures
        final(ctx).wf(),
        final(ctx).tinfo() == old(ctx).tinfo(),
        ({
            let (rm, stm) = sp_binary(old(ctx).tinfo(), old(ctx).pst(), 4);
            final(ctx).pst() == stm && (match r {
                Ok(e) => rm == Ok::<ExprM, ShouldSynchronize>(e.deep_view()),
                Err(s) => rm == Err::<ExprM, ShouldSynchronize>(s),
            })
        }),
        old(ctx).pst().pos <= final(ctx).pst().pos <= old(ctx).tinfo().toks.len(),
        r is Ok ==> old(ctx).pst().pos < final(ctx).pst().pos,
    decreases old(ctx).tinfo().toks.len() - old(ctx).pst().pos, 100int,
{
    binary_level(ctx, 4)
}

/// The multiplicative level.
pub fn factor(ctx: &mut ParseContext) -> (r: Result<Expression, ShouldSynchronize>)
    requires
        old(ctx).wf(),
    ensures
        final(ctx).wf(),
        final(ctx).tinfo() == old(ctx).tinfo(),
        ({
            let (rm, stm) = sp_binary(old(ctx).tinfo(), old(ctx).pst(), 5);
            final(ctx).pst() == stm && (match r {
                Ok(e) => rm == Ok::<ExprM, ShouldSynchronize>(e.deep_view()),
                Err(s) => rm == Err::<ExprM, ShouldSynchronize>(s),
            })
        }),
        old(ctx).pst().pos <= final(ctx).pst().pos <= old(ctx).tinfo().toks.len(),
        r is Ok ==> old(ctx).pst().pos < final(ctx).pst().pos,
    decreases old(ctx).tinfo().toks.len() - old(ctx).pst().pos, 100int,
{
    binary_level(ctx, 5)
}

/// An expression that is not syntactically a bare identifier never has
/// a bare identifier as its ghost mirror.
proof fn lemma_view_not_ident(e: Expression)
    ensures
        !(e matches Expression::Primary(Primary::Identifier(_))) ==> !(view_expr(e)
            matches ExprM::Primary(PrimM::Ident(_))),
{
    match e {
        Expression::Primary(p) => {
            assert(view_expr(e) == ExprM::Primary(view_prim(p)));
            match p {
                Primary::Identifier(_) => {},
                Primary::Call { callable, arguments } => {
                    assert(view_prim(p) is Call);
                },
                Primary::True => {
                    assert(view_prim(p) is True);
                },
                Primary::False => {
                    assert(view_prim(p) is False);
                },
                Primary::Nil => {
                    assert(view_prim(p) is Nil);
                },
                Primary::Number(_) => {
                    assert(view_prim(p) is Num);
                },
                Primary::String_(_) => {
                    assert(view_prim(p) is Str);
                },
                Primary::Grouping(_) => {
                    assert(view_prim(p) is Grouping);
                },
            }
        },
        Expression::Assignment { identifier, value } => {
            assert(view_expr(e) is Assign);
        },
        Expression::Unary(_) => {
            assert(view_expr(e) is Unary);
        },
        Expression::Binary(_) => {
            assert(view_expr(e) is Binary);
        },
    }
}

/// Assignment: right-associative, only to a bare identifier on the left.
#[verifier::rlimit(60)]
pub fn assignment(ctx: &mut ParseContext) -> (r: Result<Expression, ShouldSynchronize>)
    requires
        old(ctx).wf(),
    ensures
        final(ctx).wf(),
        final(ctx).tinfo() == old(ctx).tinfo(),
        ({
            let (rm, stm) = sp_assignment(old(ctx).tinfo(), old(ctx).pst());
            final(ctx).pst() == stm && (match r {
                Ok(e) => rm == Ok::<ExprM, ShouldSynchronize>(e.deep_view()),
                Err(s) => rm == Err::<ExprM, ShouldSynchronize>(s),
            })
        }),
        old(ctx).pst().pos <= final(ctx).pst().pos <= old(ctx).tinfo().toks.len(),
        r is Ok ==> old(ctx).pst().pos < final(ctx).pst().pos,
    decreases old(ctx).tinfo().toks.len() - old(ctx).pst().pos, 19int,
{
    proof {
        ctx.lemma_bounds();
    }
    let ghost ti0 = old(ctx).tinfo();
    let ghost st00 = old(ctx).pst();
    let e = match binary_level(ctx, 0) {
        Ok(e) => e,
        Err(s) => {
            proof {
                assert(sp_assignment(ti0, st00).1 == ctx.pst());
                assert(sp_assignment(ti0, st00).0 == Err::<ExprM, ShouldSynchronize>(s));
            }
            return Err(s);
        },
    };
    let is_ident = match &e {
        Expression::Primary(Primary::Identifier(_)) => true,
        _ => false,
    };
    proof {
        if !is_ident {
            lemma_view_not_ident(e);
        }
    }
    match &e {
        Expression::Primary(Primary::Identifier(nref)) => {
            proof {
                let pg = Primary::Identifier(*nref);
                assert(e == Expression::Primary(pg));
                assert(view_prim(pg) == PrimM::Ident(nref@));
                assert(view_expr(e) == ExprM::Primary(view_prim(pg)));
                assert(e.deep_view() == ExprM::Primary(PrimM::Ident(nref@)));
            }
        },
        _ => {},
    }
    if is_ident {
        proof {
            ctx.lemma_bounds();
        }
        let is_assign = match ctx.peek_cloned() {
            Some(Token::FixedToken(FixedToken::Equal)) => true,
            _ => false,
        };
        if is_assign {
            ctx.advance();
            let name = match e {
                Expression::Primary(Primary::Identifier(n)) => n,
                _ => {
                    proof {
                        assert(false);
                    }
                    return Err(ShouldSynchronize::Yes);
                },
            };
            match expression(ctx) {
                Ok(v) => {
                    let ghost nv = name@;
                    let ghost vv = v.deep_view();
                    let r = Expression::Assignment { identifier: name, value: Box::new(v) };
                    proof {
                        assert(view_expr(r) == (ExprM::Assign { name: nv, value: Box::new(vv) }));
                        assert(sp_assignment(ti0, st00).1 == ctx.pst());
                        assert(sp_assignment(ti0, st00).0 == Ok::<ExprM, ShouldSynchronize>(
                            r.deep_view(),
                        ));
                    }
                    Ok(r)
                },
                Err(s) => {
                    proof {
                        assert(sp_assignment(ti0, st00).1 == ctx.pst());
                        assert(sp_assignment(ti0, st00).0 == Err::<ExprM, ShouldSynchronize>(s));
                    }
                    Err(s)
                },
            }
        } else {
            proof {
                assert(sp_assignment(ti0, st00).1 == ctx.pst());
                assert(sp_assignment(ti0, st00).0 == Ok::<ExprM, ShouldSynchronize>(
                    e.deep_view(),
                ));
            }
            Ok(e)
        }
    } else {
        proof {
            assert(sp_assignment(ti0, st00).1 == ctx.pst());
            assert(sp_assignment(ti0, st00).0 == Ok::<ExprM, ShouldSynchronize>(e.deep_view()));
        }
        Ok(e)
    }
}

/// An expression: the assignment level.
pub fn expression(ctx: &mut ParseContext) -> (r: Result<Expression, ShouldSynchronize>)
    requires
        old(ctx).wf(),
    ensures
        final(ctx).wf(),
        final(ctx).tinfo() == old(ctx).tinfo(),
        ({
            let (rm, stm) = sp_expression(old(ctx).tinfo(), old(ctx).pst());
            final(ctx).pst() == stm && (match r {
                Ok(e) => rm == Ok::<ExprM, ShouldSynchronize>(e.deep_view()),
                Err(s) => rm == Err::<ExprM, ShouldSynchronize>(s),
            })
        }),
        old(ctx).pst().pos <= final(ctx).pst().pos <= old(ctx).tinfo().toks.len(),
        r is Ok ==> old(ctx).pst().pos < final(ctx).pst().pos,
    decreases old(ctx).tinfo().toks.len() - old(ctx).pst().pos, 20int,
{
    proof {
        ctx.lemma_bounds();
    }
    assignment(ctx)
}

impl Expression {
    /// Parses one expression.
    pub fn parse(ctx: &mut ParseContext) -> (r: Result<Expression, ShouldSynchronize>)
        requires
            old(ctx).wf(),
        ensures
            final(ctx).wf(),
            final(ctx).tinfo() == old(ctx).tinfo(),
            ({
                let (rm, stm) = sp_expression(old(ctx).tinfo(), old(ctx).pst());
                final(ctx).pst() == stm && (match r {
                    Ok(e) => rm == Ok::<ExprM, ShouldSynchronize>(e.deep_view()),
                    Err(s) => rm == Err::<ExprM, ShouldSynchronize>(s),
                })
            }),
            old(ctx).pst().pos <= final(ctx).pst().pos <= old(ctx).tinfo().toks.len(),
            r is Ok ==> old(ctx).pst().pos < final(ctx).pst().pos,
        decreases old(ctx).tinfo().toks.len() - old(ctx).pst().pos, 100int,
    {
        expression(ctx)
    }
}
impl DeepView for Block {
    type V = Seq<DeclM>;

    open spec fn deep_view(&self) -> Seq<DeclM> {
        view_decl_seq(self.statements@)
    }
}

proof fn lemma_finalize_somes(x: Seq<DeclM>)
    ensures
        finalize_list(x.map_values(|d: DeclM| Some(d))) == Ok::<Seq<DeclM>, ShouldSynchronize>(x),
{
    let acc = x.map_values(|d: DeclM| Some(d));
    assert(forall|i: int| 0 <= i < acc.len() ==> (#[trigger] acc[i]) is Some);
    assert(Seq::new(acc.len(), |i: int| acc[i]->0) =~= x);
}

impl VariableDeclaration {
    /// Parses a variable declaration: `var`, an identifier, an optional
    /// initializer, and a semicolon.
    #[verifier::rlimit(100)]
    pub fn parse(ctx: &mut ParseContext) -> (r: Result<VariableDeclaration, ShouldSynchronize>)
        requires
            old(ctx).wf(),
        ensures
            final(ctx).wf(),
            final(ctx).tinfo() == old(ctx).tinfo(),
            ({
                let (rm, stm) = sp_vardecl(old(ctx).tinfo(), old(ctx).pst());
                final(ctx).pst() == stm && (match r {
                    Ok(vd) => rm == Ok::<VarDeclM, ShouldSynchronize>(vd.deep_view()),
                    Err(s) => rm == Err::<VarDeclM, ShouldSynchronize>(s),
                })
            }),
            old(ctx).pst().pos <= final(ctx).pst().pos <= old(ctx).tinfo().toks.len(),
            r is Ok ==> old(ctx).pst().pos < final(ctx).pst().pos,
        decreases old(ctx).tinfo().toks.len() - old(ctx).pst().pos, 29int,
    {
        proof {
            reveal(sp_vardecl);
            ctx.lemma_bounds();
        }
        let ghost ti0 = old(ctx).tinfo();
        let ghost st00 = old(ctx).pst();
        match ctx.peek_cloned() {
            Some(_) => {
                ctx.advance();
            },
            None => {},
        }
        proof {
            ctx.lemma_bounds();
        }
        match ctx.peek_cloned() {
            Some(Token::Identifier(id)) => {
                let name = id.name;
                ctx.advance();
                proof {
                    ctx.lemma_bounds();
                }
                let has_init = match ctx.peek_cloned() {
                    Some(Token::FixedToken(FixedToken::Equal)) => true,
                    _ => false,
                };
                let value = if has_init {
                    ctx.advance();
                    match expression(ctx) {
                        Ok(e) => Some(e),
                        Err(s) => {
                            return Err(s);
                        },
                    }
                } else {
                    None
                };
                proof {
                    ctx.lemma_bounds();
                }
                let ghost nv = name@;
                let ghost iv = if value is Some {
                    Some(value->0.deep_view())
                } else {
                    None::<ExprM>
                };
                match ctx.peek_cloned() {
                    Some(Token::FixedToken(FixedToken::Semicolon)) => {
                        ctx.advance();
                        let vd = VariableDeclaration { identifier: name, value };
                        proof {
                            assert(vd.deep_view() == (VarDeclM { name: nv, init: iv }));
                        }
                        Ok(vd)
                    },
                    Some(_) => {
                        ctx.advance();
                        ctx.record_error(ParseErrorKind::ExpectedSemicolon);
                        Err(ShouldSynchronize::Yes)
                    },
                    None => {
                        ctx.record_error(ParseErrorKind::ExpectedSemicolon);
                        Err(ShouldSynchronize::Yes)
                    },
                }
            },
            Some(t2) => {
                ctx.advance();
                ctx.record_error(ParseErrorKind::ExpectedIdentifier);
                Err(flag_for(&t2))
            },
            None => {
                ctx.record_error(ParseErrorKind::ExpectedIdentifier);
                Err(ShouldSynchronize::Yes)
            },
        }
    }
}

impl ForLoopInitializer {
    /// Parses a for-loop initializer, which must be a variable
    /// declaration.
    pub fn parse(ctx: &mut ParseContext) -> (r: Result<ForLoopInitializer, ShouldSynchronize>)
        requires
            old(ctx).wf(),
        ensures
            final(ctx).wf(),
            final(ctx).tinfo() == old(ctx).tinfo(),
            ({
                let (rm, stm) = sp_for_init(old(ctx).tinfo(), old(ctx).pst());
                final(ctx).pst() == stm && (match r {
                    Ok(fi) => rm == Ok::<VarDeclM, ShouldSynchronize>(fi.deep_view()),
                    Err(s) => rm == Err::<VarDeclM, ShouldSynchronize>(s),
                })
            }),
            old(ctx).pst().pos <= final(ctx).pst().pos <= old(ctx).tinfo().toks.len(),
            r is Ok ==> old(ctx).pst().pos < final(ctx).pst().pos,
        decreases old(ctx).tinfo().toks.len() - old(ctx).pst().pos, 30int,
    {
        proof {
            ctx.lemma_bounds();
        }
        match ctx.peek_cloned() {
            Some(Token::FixedToken(FixedToken::Var)) => {
                match VariableDeclaration::parse(ctx) {
                    Ok(vd) => {
                        let ghost vv = vd.deep_view();
                        let fi = ForLoopInitializer::Declaration(vd);
                        proof {
                            assert(fi.deep_view() == vv);
                        }
                        Ok(fi)
                    },
                    Err(s) => Err(s),
                }
            },
            Some(t2) => {
                ctx.advance();
                ctx.record_error(ParseErrorKind::UnexpectedToken);
                Err(flag_for(&t2))
            },
            None => {
                ctx.record_error(ParseErrorKind::UnexpectedToken);
                Err(ShouldSynchronize::Yes)
            },
        }
    }
}

impl Block {
    /// Parses a block: `{`, declarations, `}`.
    #[verifier::rlimit(100)]
    #[verifier::loop_isolation(false)]
    pub fn parse(ctx: &mut ParseContext) -> (r: Result<Block, ShouldSynchronize>)
        requires
            old(ctx).wf(),
        ensures
            final(ctx).wf(),
            final(ctx).tinfo() == old(ctx).tinfo(),
            ({
                let (rm, stm) = sp_block(old(ctx).tinfo(), old(ctx).pst());
                final(ctx).pst() == stm && (match r {
                    Ok(b) => rm == Ok::<StmtM, ShouldSynchronize>(StmtM::Block(b.deep_view())),
                    Err(s) => rm == Err::<StmtM, ShouldSynchronize>(s),
                })
            }),
            old(ctx).pst().pos <= final(ctx).pst().pos <= old(ctx).tinfo().toks.len(),
            r is Ok ==> old(ctx).pst().pos < final(ctx).pst().pos,
        decreases old(ctx).tinfo().toks.len() - old(ctx).pst().pos, 27int,
    {
        proof {
            ctx.lemma_bounds();
        }
        let ghost ti = old(ctx).tinfo();
        let ghost st0 = old(ctx).pst();
        match ctx.peek_cloned() {
            Some(_) => {
                ctx.advance();
            },
            None => {
                return Err(ShouldSynchronize::Yes);
            },
        }
        let mut statements: Vec<Declaration> = Vec::new();
        proof {
            assert(view_decl_seq(statements@) =~= Seq::<DeclM>::empty());
            assert(sp_block(ti, st0) == sp_block_rest(ti, ctx.pst(), view_decl_seq(statements@)));
        }
        loop
            invariant
                ctx.wf(),
                ctx.tinfo() == ti,
                st0.pos < ctx.pst().pos <= ti.toks.len(),
                sp_block(ti, st0) == sp_block_rest(ti, ctx.pst(), view_decl_seq(statements@)),
            decreases ti.toks.len() - ctx.pst().pos,
        {
            proof {
                ctx.lemma_bounds();
            }
            let ghost st_head = ctx.pst();
            let ghost ds_head = view_decl_seq(statements@);
            let closing = ctx.peek_is_fixed(FixedToken::RightBrace);
            if !closing && ctx.at_end() {
                ctx.record_error(ParseErrorKind::UnexpectedToken);
                return Err(ShouldSynchronize::Yes);
            }
            if closing {
                ctx.advance();
                let ghost dv = view_decl_seq(statements@);
                let b = Block { statements };
                proof {
                    assert(b.deep_view() == dv);
                    assert(sp_block(ti, st0).0 == Ok::<StmtM, ShouldSynchronize>(
                        StmtM::Block(dv),
                    ));
                    assert(sp_block(ti, st0).1 == ctx.pst());
                }
                return Ok(b);
            }
            match Declaration::parse(ctx) {
                Ok(d) => {
                    let ghost ds = statements@;
                    statements.push(d);
                    proof {
                        assert(statements@ =~= ds.push(d));
                        lemma_view_decl_seq_push(ds, d);
                        assert(sp_block_rest(ti, st_head, ds_head) == sp_block_rest(
                            ti,
                            ctx.pst(),
                            view_decl_seq(statements@),
                        ));
                    }
                },
                Err(s) => {
                    proof {
                        assert(sp_block_rest(ti, st_head, ds_head).1 == ctx.pst());
                        assert(sp_block_rest(ti, st_head, ds_head).0 == Err::<
                            StmtM,
                            ShouldSynchronize,
                        >(s));
                    }
                    return Err(s);
                },
            }
        }
    }
}


/// Unfolding of `sp_declaration` when the next token is `var`.
proof fn lemma_sp_declaration_var(ti: TokInfo, st: PSt<ParseErrorKind>)
    requires
        0 <= st.pos <= ti.toks.len(),
        sp_peek(ti, st) == Some(TokenM::Fixed(FixedToken::Var)),
    ensures
        sp_declaration(ti, st).1 == sp_vardecl(ti, st).1,
        sp_declaration(ti, st).0 == (match sp_vardecl(ti, st).0 {
            Ok(vd) => Ok::<DeclM, ShouldSynchronize>(DeclM::VarDecl(vd)),
            Err(s) => Err::<DeclM, ShouldSynchronize>(s),
        }),
{
    reveal_with_fuel(sp_declaration, 2);
}

/// Unfolding of `sp_declaration` when the next token is not `var`.
#[verifier::rlimit(100)]
#[verifier::spinoff_prover]
proof fn lemma_sp_declaration_stmt(ti: TokInfo, st: PSt<ParseErrorKind>)
    requires
        0 <= st.pos <= ti.toks.len(),
        sp_peek(ti, st) != Some(TokenM::Fixed(FixedToken::Var)),
    ensures
        sp_declaration(ti, st).1 == sp_statement(ti, st).1,
        sp_declaration(ti, st).0 == (match sp_statement(ti, st).0 {
            Ok(s2) => Ok::<DeclM, ShouldSynchronize>(DeclM::Stmt(s2)),
            Err(s) => Err::<DeclM, ShouldSynchronize>(s),
        }),
{
    reveal_with_fuel(sp_declaration, 2);
    let pk = sp_peek(ti, st);
    match pk {
        Some(tk) => {
            match tk {
                TokenM::Fixed(f) => {
                    assert(pk == Some(TokenM::Fixed(f)));
                    assert(f != FixedToken::Var);
                    assert(sp_declaration(ti, st).1 == sp_statement(ti, st).1);
                },
                TokenM::Ident(_) => {
                    assert(sp_declaration(ti, st).1 == sp_statement(ti, st).1);
                },
                TokenM::StrLit(_) => {
                    assert(sp_declaration(ti, st).1 == sp_statement(ti, st).1);
                },
                TokenM::Num(_) => {
                    assert(sp_declaration(ti, st).1 == sp_statement(ti, st).1);
                },
                TokenM::Error(_) => {
                    assert(sp_declaration(ti, st).1 == sp_statement(ti, st).1);
                },
            }
        },
        None => {
            assert(sp_declaration(ti, st).1 == sp_statement(ti, st).1);
        },
    }
}


impl Declaration {
    /// Parses one declaration: a variable declaration or a statement.
    #[verifier::rlimit(60)]
    pub fn parse(ctx: &mut ParseContext) -> (r: Result<Declaration, ShouldSynchronize>)
        requires
            old(ctx).wf(),
        ensures
            final(ctx).wf(),
            final(ctx).tinfo() == old(ctx).tinfo(),
            ({
                let (rm, stm) = sp_declaration(old(ctx).tinfo(), old(ctx).pst());
                final(ctx).pst() == stm && (match r {
                    Ok(d) => rm == Ok::<DeclM, ShouldSynchronize>(d.deep_view()),
                    Err(s) => rm == Err::<DeclM, ShouldSynchronize>(s),
                })
            }),
            old(ctx).pst().pos <= final(ctx).pst().pos <= old(ctx).tinfo().toks.len(),
            r is Ok ==> old(ctx).pst().pos < final(ctx).pst().pos,
        decreases old(ctx).tinfo().toks.len() - old(ctx).pst().pos, 30int,
    {
        proof {
            ctx.lemma_bounds();
        }
        let is_var = ctx.peek_is_fixed(FixedToken::Var);
        let ghost ti0 = old(ctx).tinfo();
        let ghost st00 = old(ctx).pst();
        if is_var {
            proof {
                lemma_sp_declaration_var(ti0, st00);
            }
            match VariableDeclaration::parse(ctx) {
                Ok(vd) => {
                    let ghost vv = vd.deep_view();
                    let d = Declaration::VariableDeclaration(vd);
                    proof {
                        assert(d.deep_view() == DeclM::VarDecl(vv));
                    }
                    Ok(d)
                },
                Err(s) => Err(s),
            }
        } else {
            proof {
                lemma_sp_declaration_stmt(ti0, st00);
            }
            match statement(ctx) {
                Ok(st) => {
                    let ghost sv = st.deep_view();
                    let d = Declaration::Statement(st);
                    proof {
                        assert(d.deep_view() == DeclM::Stmt(sv));
                    }
                    Ok(d)
                },
                Err(s) => Err(s),
            }
        }
    }
}

#[verifier::rlimit(100)]
fn if_statement(ctx: &mut ParseContext) -> (r: Result<Statement, ShouldSynchronize>)
    requires
        old(ctx).wf(),
        sp_peek(old(ctx).tinfo(), old(ctx).pst()) == Some(TokenM::Fixed(FixedToken::If)),
    ensures
        final(ctx).wf(),
        final(ctx).tinfo() == old(ctx).tinfo(),
        ({
            let (rm, stm) = sp_statement(old(ctx).tinfo(), old(ctx).pst());
            final(ctx).pst() == stm && (match r {
                Ok(st) => rm == Ok::<StmtM, ShouldSynchronize>(st.deep_view()),
                Err(s) => rm == Err::<StmtM, ShouldSynchronize>(s),
            })
        }),
        old(ctx).pst().pos <= final(ctx).pst().pos <= old(ctx).tinfo().toks.len(),
        r is Ok ==> old(ctx).pst().pos < final(ctx).pst().pos,
    decreases old(ctx).tinfo().toks.len() - old(ctx).pst().pos, 26int,
{
    proof {
        reveal(sp_statement);
        ctx.lemma_bounds();
    }
    let ghost ti0 = old(ctx).tinfo();
    let ghost st00 = old(ctx).pst();
    ctx.advance();
            match ctx.match_token(FixedToken::LeftParenthesis) {
                Ok(_) => {},
                Err(s) => {
                    return Err(s);
                },
            }
            let cond = match expression(ctx) {
                Ok(e) => e,
                Err(s) => {
                    return Err(s);
                },
            };
            match ctx.match_token(FixedToken::RightParenthesis) {
                Ok(_) => {},
                Err(s) => {
                    return Err(s);
                },
            }
            let then = match statement(ctx) {
                Ok(st) => st,
                Err(s) => {
                    return Err(s);
                },
            };
            proof {
                ctx.lemma_bounds();
            }
            let has_else = match ctx.peek_cloned() {
                Some(Token::FixedToken(FixedToken::Else)) => true,
                _ => false,
            };
            if has_else {
                ctx.advance();
                let els = match statement(ctx) {
                    Ok(st) => st,
                    Err(s) => {
                        return Err(s);
                    },
                };
                let ghost cv = cond.deep_view();
                let ghost tv = then.deep_view();
                let ghost ev = els.deep_view();
                let r = Statement::IfStatement {
                    condition: cond,
                    then: Box::new(then),
                    else_: Some(Box::new(els)),
                };
                proof {
                    assert(r.deep_view() == (StmtM::If {
                        cond: cv,
                        then: Box::new(tv),
                        els: Some(Box::new(ev)),
                    }));
                }
                Ok(r)
            } else {
                let ghost cv = cond.deep_view();
                let ghost tv = then.deep_view();
                let r = Statement::IfStatement {
                    condition: cond,
                    then: Box::new(then),
                    else_: None,
                };
                proof {
                    assert(r.deep_view() == (StmtM::If {
                        cond: cv,
                        then: Box::new(tv),
                        els: None,
                    }));
                }
                Ok(r)
            }
}

#[verifier::rlimit(100)]
fn for_statement(ctx: &mut ParseContext) -> (r: Result<Statement, ShouldSynchronize>)
    requires
        old(ctx).wf(),
        sp_peek(old(ctx).tinfo(), old(ctx).pst()) == Some(TokenM::Fixed(FixedToken::For)),
    ensures
        final(ctx).wf(),
        final(ctx).tinfo() == old(ctx).tinfo(),
        ({
            let (rm, stm) = sp_statement(old(ctx).tinfo(), old(ctx).pst());
            final(ctx).pst() == stm && (match r {
                Ok(st) => rm == Ok::<StmtM, ShouldSynchronize>(st.deep_view()),
                Err(s) => rm == Err::<StmtM, ShouldSynchronize>(s),
            })
        }),
        old(ctx).pst().pos <= final(ctx).pst().pos <= old(ctx).tinfo().toks.len(),
        r is Ok ==> old(ctx).pst().pos < final(ctx).pst().pos,
    decreases old(ctx).tinfo().toks.len() - old(ctx).pst().pos, 26int,
{
    proof {
        reveal(sp_statement);
        ctx.lemma_bounds();
    }
    let ghost ti0 = old(ctx).tinfo();
    let ghost st00 = old(ctx).pst();
    ctx.advance();
            match ctx.match_token(FixedToken::LeftParenthesis) {
                Ok(_) => {},
                Err(s) => {
                    return Err(s);
                },
            }
            let initializer = match ForLoopInitializer::parse(ctx) {
                Ok(fi) => fi,
                Err(s) => {
                    return Err(s);
                },
            };
            proof {
                ctx.lemma_bounds();
            }
            let cond_absent = match ctx.peek_cloned() {
                Some(Token::FixedToken(FixedToken::Semicolon)) => true,
                _ => false,
            };
            let condition = if cond_absent {
                None
            } else {
                match expression(ctx) {
                    Ok(e) => Some(e),
                    Err(s) => {
                        return Err(s);
                    },
                }
            };
            match ctx.match_token(FixedToken::Semicolon) {
                Ok(_) => {},
                Err(s) => {
                    return Err(s);
                },
            }
            proof {
                ctx.lemma_bounds();
            }
            let inc_absent = match ctx.peek_cloned() {
                Some(Token::FixedToken(FixedToken::RightParenthesis)) => true,
                _ => false,
            };
            let increment = if inc_absent {
                None
            } else {
                match expression(ctx) {
                    Ok(e) => Some(e),
                    Err(s) => {
                        return Err(s);
                    },
                }
            };
            match ctx.match_token(FixedToken::RightParenthesis) {
                Ok(_) => {},
                Err(s) => {
                    return Err(s);
                },
            }
            let body = match statement(ctx) {
                Ok(st) => st,
                Err(s) => {
                    return Err(s);
                },
            };
            let ghost fv = initializer.deep_view();
            let ghost cv = match condition {
                Some(ref e) => Some(e.deep_view()),
                None => None::<ExprM>,
            };
            let ghost xv = match increment {
                Some(ref e) => Some(e.deep_view()),
                None => None::<ExprM>,
            };
            let ghost bv = body.deep_view();
            let r = Statement::ForStatement {
                initializer,
                condition,
                expression: increment,
                body: Box::new(body),
            };
            proof {
                assert(r.deep_view() == (StmtM::For {
                    init: fv,
                    cond: cv,
                    inc: xv,
                    body: Box::new(bv),
                }));
            }
            Ok(r)
}

#[verifier::rlimit(100)]
fn print_statement(ctx: &mut ParseContext) -> (r: Result<Statement, ShouldSynchronize>)
    requires
        old(ctx).wf(),
        sp_peek(old(ctx).tinfo(), old(ctx).pst()) == Some(TokenM::Fixed(FixedToken::Print)),
    ensures
        final(ctx).wf(),
        final(ctx).tinfo() == old(ctx).tinfo(),
        ({
            let (rm, stm) = sp_statement(old(ctx).tinfo(), old(ctx).pst());
            final(ctx).pst() == stm && (match r {
                Ok(st) => rm == Ok::<StmtM, ShouldSynchronize>(st.deep_view()),
                Err(s) => rm == Err::<StmtM, ShouldSynchronize>(s),
            })
        }),
        old(ctx).pst().pos <= final(ctx).pst().pos <= old(ctx).tinfo().toks.len(),
        r is Ok ==> old(ctx).pst().pos < final(ctx).pst().pos,
    decreases old(ctx).tinfo().toks.len() - old(ctx).pst().pos, 26int,
{
    proof {
        reveal(sp_statement);
        ctx.lemma_bounds();
    }
    let ghost ti0 = old(ctx).tinfo();
    let ghost st00 = old(ctx).pst();
    ctx.advance();
            let e = match expression(ctx) {
                Ok(e) => e,
                Err(s) => {
                    return Err(s);
                },
            };
            proof {
                ctx.lemma_bounds();
            }
            match ctx.peek_cloned() {
                Some(Token::FixedToken(FixedToken::Semicolon)) => {
                    ctx.advance();
                    let ghost evv = e.deep_view();
                    let r = Statement::PrintStatement(e);
                    proof {
                        assert(r.deep_view() == StmtM::Print(evv));
                    }
                    Ok(r)
                },
                Some(_) => {
                    ctx.advance();
                    ctx.record_error(ParseErrorKind::ExpectedSemicolon);
                    Err(ShouldSynchronize::Yes)
                },
                None => {
                    ctx.record_error(ParseErrorKind::ExpectedSemicolon);
                    Err(ShouldSynchronize::Yes)
                },
            }
}

#[verifier::rlimit(100)]
fn while_statement(ctx: &mut ParseContext) -> (r: Result<Statement, ShouldSynchronize>)
    requires
        old(ctx).wf(),
        sp_peek(old(ctx).tinfo(), old(ctx).pst()) == Some(TokenM::Fixed(FixedToken::While)),
    ensures
        final(ctx).wf(),
        final(ctx).tinfo() == old(ctx).tinfo(),
        ({
            let (rm, stm) = sp_statement(old(ctx).tinfo(), old(ctx).pst());
            final(ctx).pst() == stm && (match r {
                Ok(st) => rm == Ok::<StmtM, ShouldSynchronize>(st.deep_view()),
                Err(s) => rm == Err::<StmtM, ShouldSynchronize>(s),
            })
        }),
        old(ctx).pst().pos <= final(ctx).pst().pos <= old(ctx).tinfo().toks.len(),
        r is Ok ==> old(ctx).pst().pos < final(ctx).pst().pos,
    decreases old(ctx).tinfo().toks.len() - old(ctx).pst().pos, 26int,
{
    proof {
        reveal(sp_statement);
        ctx.lemma_bounds();
    }
    let ghost ti0 = old(ctx).tinfo();
    let ghost st00 = old(ctx).pst();
    ctx.advance();
            match ctx.match_token(FixedToken::LeftParenthesis) {
                Ok(_) => {},
                Err(s) => {
                    return Err(s);
                },
            }
            let cond = match expression(ctx) {
                Ok(e) => e,
                Err(s) => {
                    return Err(s);
                },
            };
            match ctx.match_token(FixedToken::RightParenthesis) {
                Ok(_) => {},
                Err(s) => {
                    return Err(s);
                },
            }
            let body = match statement(ctx) {
                Ok(st) => st,
                Err(s) => {
                    return Err(s);
                },
            };
            let ghost cv = cond.deep_view();
            let ghost bv = body.deep_view();
            let r = Statement::WhileStatement { condition: cond, body: Box::new(body) };
            proof {
                assert(r.deep_view() == (StmtM::While { cond: cv, body: Box::new(bv) }));
            }
            Ok(r)
}

#[verifier::rlimit(100)]
fn expression_statement(ctx: &mut ParseContext) -> (r: Result<Statement, ShouldSynchronize>)
    requires
        old(ctx).wf(),
        !(sp_peek(old(ctx).tinfo(), old(ctx).pst()) matches Some(TokenM::Fixed(FixedToken::If))),
        !(sp_peek(old(ctx).tinfo(), old(ctx).pst()) matches Some(TokenM::Fixed(FixedToken::For))),
        !(sp_peek(old(ctx).tinfo(), old(ctx).pst()) matches Some(
            TokenM::Fixed(FixedToken::Print),
        )),
        !(sp_peek(old(ctx).tinfo(), old(ctx).pst()) matches Some(
            TokenM::Fixed(FixedToken::While),
        )),
        !(sp_peek(old(ctx).tinfo(), old(ctx).pst()) matches Some(
            TokenM::Fixed(FixedToken::LeftBrace),
        )),
    ensures
        final(ctx).wf(),
        final(ctx).tinfo() == old(ctx).tinfo(),
        ({
            let (rm, stm) = sp_statement(old(ctx).tinfo(), old(ctx).pst());
            final(ctx).pst() == stm && (match r {
                Ok(st) => rm == Ok::<StmtM, ShouldSynchronize>(st.deep_view()),
                Err(s) => rm == Err::<StmtM, ShouldSynchronize>(s),
            })
        }),
        old(ctx).pst().pos <= final(ctx).pst().pos <= old(ctx).tinfo().toks.len(),
        r is Ok ==> old(ctx).pst().pos < final(ctx).pst().pos,
    decreases old(ctx).tinfo().toks.len() - old(ctx).pst().pos, 26int,
{
    proof {
        reveal(sp_statement);
        ctx.lemma_bounds();
    }
    let ghost ti0 = old(ctx).tinfo();
    let ghost st00 = old(ctx).pst();
    let e = match expression(ctx) {
                Ok(e) => e,
                Err(s) => {
                    return Err(s);
                },
            };
            proof {
                ctx.lemma_bounds();
            }
            match ctx.peek_cloned() {
                Some(Token::FixedToken(FixedToken::Semicolon)) => {
                    ctx.advance();
                    let ghost evv = e.deep_view();
                    let r = Statement::ExpressionStatement(e);
                    proof {
                        assert(r.deep_view() == StmtM::Expr(evv));
                    }
                    Ok(r)
                },
                Some(_) => {
                    ctx.advance();
                    ctx.record_error(ParseErrorKind::ExpectedSemicolon);
                    Err(ShouldSynchronize::Yes)
                },
                None => {
                    ctx.record_error(ParseErrorKind::ExpectedSemicolon);
                    Err(ShouldSynchronize::Yes)
                },
            }
}

/// Parses one statement.
#[verifier::rlimit(100)]
pub fn statement(ctx: &mut ParseContext) -> (r: Result<Statement, ShouldSynchronize>)
    requires
        old(ctx).wf(),
    ensures
        final(ctx).wf(),
        final(ctx).tinfo() == old(ctx).tinfo(),
        ({
            let (rm, stm) = sp_statement(old(ctx).tinfo(), old(ctx).pst());
            final(ctx).pst() == stm && (match r {
                Ok(st) => rm == Ok::<StmtM, ShouldSynchronize>(st.deep_view()),
                Err(s) => rm == Err::<StmtM, ShouldSynchronize>(s),
            })
        }),
        old(ctx).pst().pos <= final(ctx).pst().pos <= old(ctx).tinfo().toks.len(),
        r is Ok ==> old(ctx).pst().pos < final(ctx).pst().pos,
    decreases old(ctx).tinfo().toks.len() - old(ctx).pst().pos, 28int,
{
    proof {
        ctx.lemma_bounds();
    }
    match ctx.peek_cloned() {
        Some(Token::FixedToken(FixedToken::If)) => if_statement(ctx),
        Some(Token::FixedToken(FixedToken::For)) => for_statement(ctx),
        Some(Token::FixedToken(FixedToken::Print)) => print_statement(ctx),
        Some(Token::FixedToken(FixedToken::While)) => while_statement(ctx),
        Some(Token::FixedToken(FixedToken::LeftBrace)) => {
            proof {
                reveal(sp_statement);
            }
            match Block::parse(ctx) {
                Ok(b) => {
                    let ghost bv = b.deep_view();
                    let r = Statement::Block(b);
                    proof {
                        assert(r.deep_view() == StmtM::Block(bv));
                    }
                    Ok(r)
                },
                Err(s) => Err(s),
            }
        },
        _ => expression_statement(ctx),
    }
}

impl Statement {
    /// Parses one statement.
    pub fn parse(ctx: &mut ParseContext) -> (r: Result<Statement, ShouldSynchronize>)
        requires
            old(ctx).wf(),
        ensures
            final(ctx).wf(),
            final(ctx).tinfo() == old(ctx).tinfo(),
            ({
                let (rm, stm) = sp_statement(old(ctx).tinfo(), old(ctx).pst());
                final(ctx).pst() == stm && (match r {
                    Ok(st) => rm == Ok::<StmtM, ShouldSynchronize>(st.deep_view()),
                    Err(s) => rm == Err::<StmtM, ShouldSynchronize>(s),
                })
            }),
            old(ctx).pst().pos <= final(ctx).pst().pos <= old(ctx).tinfo().toks.len(),
            r is Ok ==> old(ctx).pst().pos < final(ctx).pst().pos,
        decreases old(ctx).tinfo().toks.len() - old(ctx).pst().pos, 100int,
    {
        statement(ctx)
    }
}

impl Program {
    /// Parses a whole program: declarations until no tokens remain, with
    /// per-statement error recovery.
    #[verifier::rlimit(100)]
    #[verifier::spinoff_prover]
    #[verifier::loop_isolation(false)]
    pub fn parse(ctx: &mut ParseContext) -> (r: Result<Program, ShouldSynchronize>)
        requires
            old(ctx).wf(),
        ensures
            final(ctx).wf(),
            final(ctx).tinfo() == old(ctx).tinfo(),
            ({
                let (rm, stm) = sp_program(old(ctx).tinfo(), old(ctx).pst());
                final(ctx).pst() == stm && (match r {
                    Ok(p) => rm == Ok::<Seq<DeclM>, ShouldSynchronize>(p.deep_view()),
                    Err(s) => rm == Err::<Seq<DeclM>, ShouldSynchronize>(s),
                })
            }),
            old(ctx).pst().pos <= final(ctx).pst().pos <= old(ctx).tinfo().toks.len(),
    {
        proof {
            ctx.lemma_bounds();
        }
        let ghost ti = old(ctx).tinfo();
        let ghost st0 = old(ctx).pst();
        let mut declarations: Vec<Declaration> = Vec::new();
        let mut failed = false;
        let ghost mut acc: Seq<Option<DeclM>> = Seq::empty();
        proof {
            assert(view_decl_seq(declarations@) =~= Seq::<DeclM>::empty());
            assert(acc =~= view_decl_seq(declarations@).map_values(|d: DeclM| Some(d)));
            assert(sp_program(ti, st0) == sp_program_rest(ti, st0, acc));
        }
        loop
            invariant
                ctx.wf(),
                ctx.tinfo() == ti,
                st0.pos <= ctx.pst().pos <= ti.toks.len(),
                sp_program(ti, st0) == sp_program_rest(ti, ctx.pst(), acc),
                !failed ==> acc == view_decl_seq(declarations@).map_values(
                    |d: DeclM| Some(d),
                ),
                failed ==> finalize_list(acc) == Err::<Seq<DeclM>, ShouldSynchronize>(
                    ShouldSynchronize::No,
                ),
            decreases ti.toks.len() - ctx.pst().pos,
        {
            proof {
                ctx.lemma_bounds();
            }
            if ctx.at_end() {
                break;
            }
            let iter_pos = ctx.position();
            match Declaration::parse(ctx) {
                Ok(d) => {
                    let ghost dv = d.deep_view();
                    let ghost ds = declarations@;
                    declarations.push(d);
                    proof {
                        assert(declarations@ =~= ds.push(d));
                        lemma_view_decl_seq_push(ds, d);
                        let old_acc = acc;
                        acc = acc.push(Some(dv));
                        if !failed {
                            assert(view_decl_seq(declarations@).map_values(|x: DeclM| Some(x))
                                =~= old_acc.push(Some(dv)));
                        } else {
                            assert(!(forall|i: int|
                                0 <= i < old_acc.len() ==> (#[trigger] old_acc[i]) is Some));
                            let k = choose|k: int|
                                0 <= k < old_acc.len() && !((#[trigger] old_acc[k]) is Some);
                            assert(!(acc[k] is Some));
                            assert(finalize_list(acc) == Err::<Seq<DeclM>, ShouldSynchronize>(
                                ShouldSynchronize::No,
                            ));
                        }
                    }
                },
                Err(s) => {
                    proof {
                        let old_acc = acc;
                        acc = acc.push(None);
                        assert(acc[acc.len() - 1] is None);
                        assert(finalize_list(acc) == Err::<Seq<DeclM>, ShouldSynchronize>(
                            ShouldSynchronize::No,
                        ));
                    }
                    failed = true;
                    match s {
                        ShouldSynchronize::Yes => {
                            synchronize(ctx);
                        },
                        ShouldSynchronize::No => {
                            if ctx.position() == iter_pos {
                                proof {
                                    assert(sp_program(ti, st0).0 == Err::<
                                        Seq<DeclM>,
                                        ShouldSynchronize,
                                    >(ShouldSynchronize::No));
                                    assert(sp_program(ti, st0).1 == ctx.pst());
                                }
                                return Err(ShouldSynchronize::No);
                            }
                        },
                    }
                },
            }
        }
        if failed {
            proof {
                assert(sp_program(ti, st0).0 == Err::<Seq<DeclM>, ShouldSynchronize>(
                    ShouldSynchronize::No,
                ));
                assert(sp_program(ti, st0).1 == ctx.pst());
            }
            Err(ShouldSynchronize::No)
        } else {
            let ghost dv = view_decl_seq(declarations@);
            let p = Program { declarations };
            proof {
                lemma_finalize_somes(dv);
                assert(p.deep_view() == dv);
                assert(sp_program(ti, st0).0 == Ok::<Seq<DeclM>, ShouldSynchronize>(dv));
                assert(sp_program(ti, st0).1 == ctx.pst());
            }
            Ok(p)
        }
    }
}

/// A parsed program, or the recorded errors that voided it.
pub struct Ast {
    pub program: Program,
}

impl Ast {
    /// Parses a token stream into a program. Any recorded error voids
    /// the program: the errors are returned instead, in parse order.
    pub fn new(tokens: Vec<Token>) -> (r: Result<Ast, Errors<ParseErrorKind>>)
        ensures
            ({
                let (rm, stm) = sp_program(
                    make_tinfo(tokens.deep_view()),
                    PSt { pos: 0, errs: Seq::empty() },
                );
                match r {
                    Ok(ast) => rm == Ok::<Seq<DeclM>, ShouldSynchronize>(
                        ast.program.deep_view(),
                    ),
                    Err(errs) => rm is Err && errs@ == stm.errs,
                }
            }),
    {
        let mut ctx = ParseContext::new(tokens);
        match Program::parse(&mut ctx) {
            Ok(program) => Ok(Ast { program }),
            Err(_) => Err(ctx.errors()),
        }
    }
}


} // verus!
