//! The abstract syntax tree the parser produces and the evaluator walks,
//! with its ghost mirror: identifiers and string literals appear there as
//! character sequences, numbers as their bit patterns.
use vstd::prelude::*;

verus! {

broadcast use vstd::seq::axiom_seq_index_decreases, vstd::seq::axiom_seq_subrange_decreases,
    vstd::std_specs::vec::axiom_vec_decreases_to_view;

#[derive(Clone, Copy, Debug, PartialEq, Eq, Structural)]
pub enum BinaryOperator {
    Equality,
    Inequality,
    GreaterThan,
    GreaterThanOrEqualTo,
    LessThan,
    LessThanOrEqualTo,
    And,
    Or,
    Addition,
    Subtraction,
    Multiplication,
    Division,
}

#[derive(Clone, Copy, Debug, PartialEq, Eq, Structural)]
pub enum UnaryOperator {
    Negate,
    Not,
}

#[derive(Debug)]
pub enum Expression {
    Assignment { identifier: String, value: Box<Expression> },
    Unary(Unary),
    Binary(Binary),
    Primary(Primary),
}

#[derive(Debug)]
pub struct Unary {
    pub operator: UnaryOperator,
    pub right: Box<Expression>,
}

#[derive(Debug)]
pub struct Binary {
    pub left: Box<Expression>,
    pub operator: BinaryOperator,
    pub right: Box<Expression>,
}

/// A primary expression; a number holds the IEEE-754 binary64 bit
/// pattern of its value.
#[derive(Debug)]
pub enum Primary {
    Call { callable: Box<Primary>, arguments: Vec<Expression> },
    True,
    False,
    Nil,
    Number(u64),
    String_(String),
    Identifier(String),
    Grouping(Box<Expression>),
}

#[derive(Debug)]
pub struct VariableDeclaration {
    pub identifier: String,
    pub value: Option<Expression>,
}

#[derive(Debug)]
pub enum ForLoopInitializer {
    Declaration(VariableDeclaration),
}

#[derive(Debug)]
pub enum Statement {
    ExpressionStatement(Expression),
    IfStatement { condition: Expression, then: Box<Statement>, else_: Option<Box<Statement>> },
    PrintStatement(Expression),
    WhileStatement { condition: Expression, body: Box<Statement> },
    ForStatement {
        initializer: ForLoopInitializer,
        condition: Option<Expression>,
        expression: Option<Expression>,
        body: Box<Statement>,
    },
    Block(Block),
}

#[derive(Debug)]
pub struct Block {
    pub statements: Vec<Declaration>,
}

#[derive(Debug)]
pub enum Declaration {
    VariableDeclaration(VariableDeclaration),
    Statement(Statement),
}

/// An ordered sequence of declarations: a whole program.
#[derive(Debug)]
pub struct Program {
    pub declarations: Vec<Declaration>,
}

// ------------------------------------------------------------------
// Ghost mirror
// ------------------------------------------------------------------

pub enum ExprM {
    Assign { name: Seq<char>, value: Box<ExprM> },
    Unary(UnaryOperator, Box<ExprM>),
    Binary(Box<ExprM>, BinaryOperator, Box<ExprM>),
    Primary(PrimM),
}

pub enum PrimM {
    Call { callee: Box<PrimM>, args: Seq<ExprM> },
    True,
    False,
    Nil,
    Num(u64),
    Str(Seq<char>),
    Ident(Seq<char>),
    Grouping(Box<ExprM>),
}

pub struct VarDeclM {
    pub name: Seq<char>,
    pub init: Option<ExprM>,
}

pub enum StmtM {
    Expr(ExprM),
    If { cond: ExprM, then: Box<StmtM>, els: Option<Box<StmtM>> },
    Print(ExprM),
    While { cond: ExprM, body: Box<StmtM> },
    For { init: VarDeclM, cond: Option<ExprM>, inc: Option<ExprM>, body: Box<StmtM> },
    Block(Seq<DeclM>),
}

pub enum DeclM {
    VarDecl(VarDeclM),
    Stmt(StmtM),
}

pub open spec fn view_expr(e: Expression) -> ExprM
    decreases e,
{
    match e {
        Expression::Assignment { identifier, value } => ExprM::Assign {
            name: identifier@,
            value: Box::new(view_expr(*value)),
        },
        Expression::Unary(u) => ExprM::Unary(u.operator, Box::new(view_expr(*u.right))),
        Expression::Binary(b) => ExprM::Binary(
            Box::new(view_expr(*b.left)),
            b.operator,
            Box::new(view_expr(*b.right)),
        ),
        Expression::Primary(p) => ExprM::Primary(view_prim(p)),
    }
}

pub open spec fn view_prim(p: Primary) -> PrimM
    decreases p,
{
    match p {
        Primary::Call { callable, arguments } => PrimM::Call {
            callee: Box::new(view_prim(*callable)),
            args: view_expr_seq(arguments@),
        },
        Primary::True => PrimM::True,
        Primary::False => PrimM::False,
        Primary::Nil => PrimM::Nil,
        Primary::Number(bits) => PrimM::Num(bits),
        Primary::String_(v) => PrimM::Str(v@),
        Primary::Identifier(n) => PrimM::Ident(n@),
        Primary::Grouping(e) => PrimM::Grouping(Box::new(view_expr(*e))),
    }
}

pub open spec fn view_expr_seq(es: Seq<Expression>) -> Seq<ExprM>
    decreases es,
{
    if es.len() == 0 {
        seq![]
    } else {
        seq![view_expr(es[0])] + view_expr_seq(es.drop_first())
    }
}

pub open spec fn view_vardecl(v: VariableDeclaration) -> VarDeclM
    decreases v,
{
    VarDeclM {
        name: v.identifier@,
        init: match v.value {
            Some(e) => Some(view_expr(e)),
            None => None,
        },
    }
}

pub open spec fn view_stmt(s: Statement) -> StmtM
    decreases s,
{
    match s {
        Statement::ExpressionStatement(e) => StmtM::Expr(view_expr(e)),
        Statement::IfStatement { condition, then, else_ } => StmtM::If {
            cond: view_expr(condition),
            then: Box::new(view_stmt(*then)),
            els: match else_ {
                Some(b) => Some(Box::new(view_stmt(*b))),
                None => None,
            },
        },
        Statement::PrintStatement(e) => StmtM::Print(view_expr(e)),
        Statement::WhileStatement { condition, body } => StmtM::While {
            cond: view_expr(condition),
            body: Box::new(view_stmt(*body)),
        },
        Statement::ForStatement { initializer, condition, expression, body } => StmtM::For {
            init: match initializer {
                ForLoopInitializer::Declaration(vd) => view_vardecl(vd),
            },
            cond: match condition {
                Some(e) => Some(view_expr(e)),
                None => None,
            },
            inc: match expression {
                Some(e) => Some(view_expr(e)),
                None => None,
            },
            body: Box::new(view_stmt(*body)),
        },
        Statement::Block(b) => StmtM::Block(view_decl_seq(b.statements@)),
    }
}

pub open spec fn view_decl(d: Declaration) -> DeclM
    decreases d,
{
    match d {
        Declaration::VariableDeclaration(v) => DeclM::VarDecl(view_vardecl(v)),
        Declaration::Statement(s) => DeclM::Stmt(view_stmt(s)),
    }
}

pub open spec fn view_decl_seq(ds: Seq<Declaration>) -> Seq<DeclM>
    decreases ds,
{
    if ds.len() == 0 {
        seq![]
    } else {
        seq![view_decl(ds[0])] + view_decl_seq(ds.drop_first())
    }
}

impl DeepView for Expression {
    type V = ExprM;

    open spec fn deep_view(&self) -> ExprM {
        view_expr(*self)
    }
}

impl DeepView for Primary {
    type V = PrimM;

    open spec fn deep_view(&self) -> PrimM {
        view_prim(*self)
    }
}

impl DeepView for VariableDeclaration {
    type V = VarDeclM;

    open spec fn deep_view(&self) -> VarDeclM {
        view_vardecl(*self)
    }
}

impl DeepView for ForLoopInitializer {
    type V = VarDeclM;

    open spec fn deep_view(&self) -> VarDeclM {
        match self {
            ForLoopInitializer::Declaration(vd) => view_vardecl(*vd),
        }
    }
}

impl DeepView for Statement {
    type V = StmtM;

    open spec fn deep_view(&self) -> StmtM {
        view_stmt(*self)
    }
}

impl DeepView for Declaration {
    type V = DeclM;

    open spec fn deep_view(&self) -> DeclM {
        view_decl(*self)
    }
}

impl DeepView for Program {
    type V = Seq<DeclM>;

    open spec fn deep_view(&self) -> Seq<DeclM> {
        view_decl_seq(self.declarations@)
    }
}

/// Pushing a declaration extends the viewed sequence by its view.
pub proof fn lemma_view_decl_seq_push(ds: Seq<Declaration>, d: Declaration)
    ensures
        view_decl_seq(ds.push(d)) == view_decl_seq(ds).push(view_decl(d)),
    decreases ds.len(),
{
    if ds.len() == 0 {
        assert(ds.push(d)[0] == d);
        assert(ds.push(d).drop_first() =~= Seq::<Declaration>::empty());
        assert(view_decl_seq(ds.push(d)) == seq![view_decl(d)] + view_decl_seq(
            ds.push(d).drop_first(),
        ));
        assert(view_decl_seq(ds.push(d).drop_first()) == Seq::<DeclM>::empty());
        assert(view_decl_seq(ds) == Seq::<DeclM>::empty());
        assert(view_decl_seq(ds.push(d)) =~= view_decl_seq(ds).push(view_decl(d)));
    } else {
        assert(ds.push(d)[0] == ds[0]);
        assert(ds.push(d).drop_first() =~= ds.drop_first().push(d));
        assert(view_decl_seq(ds.push(d)) == seq![view_decl(ds[0])] + view_decl_seq(
            ds.drop_first().push(d),
        ));
        lemma_view_decl_seq_push(ds.drop_first(), d);
        assert(view_decl_seq(ds) == seq![view_decl(ds[0])] + view_decl_seq(ds.drop_first()));
        assert(seq![view_decl(ds[0])] + view_decl_seq(ds.drop_first()).push(view_decl(d)) =~= (
        seq![view_decl(ds[0])] + view_decl_seq(ds.drop_first())).push(view_decl(d)));
    }
}

/// Pushing an expression extends the viewed sequence by its view.
pub proof fn lemma_view_expr_seq_push(es: Seq<Expression>, e: Expression)
    ensures
        view_expr_seq(es.push(e)) == view_expr_seq(es).push(view_expr(e)),
    decreases es.len(),
{
    if es.len() == 0 {
        assert(es.push(e)[0] == e);
        assert(es.push(e).drop_first() =~= Seq::<Expression>::empty());
        assert(view_expr_seq(es.push(e)) == seq![view_expr(e)] + view_expr_seq(
            es.push(e).drop_first(),
        ));
        assert(view_expr_seq(es.push(e).drop_first()) == Seq::<ExprM>::empty());
        assert(view_expr_seq(es) == Seq::<ExprM>::empty());
        assert(view_expr_seq(es.push(e)) =~= view_expr_seq(es).push(view_expr(e)));
    } else {
        assert(es.push(e)[0] == es[0]);
        assert(es.push(e).drop_first() =~= es.drop_first().push(e));
        assert(view_expr_seq(es.push(e)) == seq![view_expr(es[0])] + view_expr_seq(
            es.drop_first().push(e),
        ));
        lemma_view_expr_seq_push(es.drop_first(), e);
        assert(view_expr_seq(es) == seq![view_expr(es[0])] + view_expr_seq(es.drop_first()));
        assert(seq![view_expr(es[0])] + view_expr_seq(es.drop_first()).push(view_expr(e)) =~= (
        seq![view_expr(es[0])] + view_expr_seq(es.drop_first())).push(view_expr(e)));
    }
}

/// The viewed sequence maps element-wise over declarations.
pub proof fn lemma_view_decl_seq_props(ds: Seq<Declaration>)
    ensures
        view_decl_seq(ds).len() == ds.len(),
        forall|i: int| 0 <= i < ds.len() ==> #[trigger] view_decl_seq(ds)[i] == view_decl(ds[i]),
    decreases ds.len(),
{
    if ds.len() > 0 {
        lemma_view_decl_seq_props(ds.drop_first());
        assert forall|i: int| 0 <= i < ds.len() implies #[trigger] view_decl_seq(ds)[i]
            == view_decl(ds[i]) by {
            if i > 0 {
                assert(view_decl_seq(ds)[i] == view_decl_seq(ds.drop_first())[i - 1]);
                assert(ds.drop_first()[i - 1] == ds[i]);
            }
        }
    }
}

/// The viewed sequence maps element-wise over expressions.
pub proof fn lemma_view_expr_seq_props(es: Seq<Expression>)
    ensures
        view_expr_seq(es).len() == es.len(),
        forall|i: int| 0 <= i < es.len() ==> #[trigger] view_expr_seq(es)[i] == view_expr(es[i]),
    decreases es.len(),
{
    if es.len() > 0 {
        lemma_view_expr_seq_props(es.drop_first());
        assert forall|i: int| 0 <= i < es.len() implies #[trigger] view_expr_seq(es)[i]
            == view_expr(es[i]) by {
            if i > 0 {
                assert(view_expr_seq(es)[i] == view_expr_seq(es.drop_first())[i - 1]);
                assert(es.drop_first()[i - 1] == es[i]);
            }
        }
    }
}

} // verus!
