//! The syntax tree of circuit programs, and its mathematical model.

use vstd::prelude::*;

use crate::natural::{decimal_text, Natural};

verus! {

/// What a declared signal is: a public input, a public output, or private.
#[derive(Debug, Clone, Copy, PartialEq, Eq, Structural)]
pub enum SignalKind {
    Input,
    Output,
    Intermediate,
}

/// `signal [input|output] name;`
#[derive(Debug, Clone)]
pub struct SignalDecl {
    pub kind: SignalKind,
    pub name: String,
}

/// An arithmetic expression over signals and constants.
#[derive(Debug)]
pub enum Expr {
    Const(Natural),
    Var(String),
    Add(Box<Expr>, Box<Expr>),
    Mul(Box<Expr>, Box<Expr>),
    Sub(Box<Expr>, Box<Expr>),
    Neg(Box<Expr>),
}

/// One statement of a circuit program.
#[derive(Debug)]
pub enum Statement {
    SignalDecl(SignalDecl),
    Assign { target: String, value: Expr },
    Constraint { lhs: Expr, rhs: Expr },
    AssertBool(String),
    Conditional {
        condition: String,
        then_stmt: Box<Statement>,
        else_stmt: Option<Box<Statement>>,
    },
}

/// A whole circuit program: its statements in order.
#[derive(Debug)]
pub struct Program {
    pub statements: Vec<Statement>,
}

/// The mathematical value of an expression: constants as naturals, names as
/// character sequences.
pub ghost enum SpecExpr {
    Const(nat),
    Var(Seq<char>),
    Add(Box<SpecExpr>, Box<SpecExpr>),
    Mul(Box<SpecExpr>, Box<SpecExpr>),
    Sub(Box<SpecExpr>, Box<SpecExpr>),
    Neg(Box<SpecExpr>),
}

/// The mathematical value of a statement.
pub ghost enum SpecStatement {
    SignalDecl(SignalKind, Seq<char>),
    Assign(Seq<char>, SpecExpr),
    Constraint(SpecExpr, SpecExpr),
    AssertBool(Seq<char>),
    Conditional(Seq<char>, Box<SpecStatement>, Option<Box<SpecStatement>>),
}

impl Expr {
    /// The model of this expression.
    pub open spec fn model(&self) -> SpecExpr
        decreases self,
    {
        match self {
            Expr::Const(n) => SpecExpr::Const(n@),
            Expr::Var(s) => SpecExpr::Var(s@),
            Expr::Add(a, b) => SpecExpr::Add(Box::new(a.model()), Box::new(b.model())),
            Expr::Mul(a, b) => SpecExpr::Mul(Box::new(a.model()), Box::new(b.model())),
            Expr::Sub(a, b) => SpecExpr::Sub(Box::new(a.model()), Box::new(b.model())),
            Expr::Neg(a) => SpecExpr::Neg(Box::new(a.model())),
        }
    }
}

impl Statement {
    /// The model of this statement.
    pub open spec fn model(&self) -> SpecStatement
        decreases self,
    {
        match self {
            Statement::SignalDecl(d) => SpecStatement::SignalDecl(d.kind, d.name@),
            Statement::Assign { target, value } => SpecStatement::Assign(target@, value.model()),
            Statement::Constraint { lhs, rhs } => SpecStatement::Constraint(lhs.model(), rhs.model()),
            Statement::AssertBool(name) => SpecStatement::AssertBool(name@),
            Statement::Conditional { condition, then_stmt, else_stmt } => SpecStatement::Conditional(
                condition@,
                Box::new(then_stmt.model()),
                match else_stmt {
                    Some(e) => Some(Box::new(e.model())),
                    None => None,
                },
            ),
        }
    }
}

impl Program {
    /// The models of the statements, in order.
    pub open spec fn model(&self) -> Seq<SpecStatement> {
        self.statements@.map_values(|s: Statement| s.model())
    }
}

/// How a signal kind is written.
pub open spec fn signal_kind_text(k: SignalKind) -> Seq<char> {
    match k {
        SignalKind::Input => "input"@,
        SignalKind::Output => "output"@,
        SignalKind::Intermediate => "intermediate"@,
    }
}

/// How an expression is written: constants in decimal, names as they are,
/// and every operation in parentheses.
pub open spec fn expr_text(e: SpecExpr) -> Seq<char>
    decreases e,
{
    match e {
        SpecExpr::Const(n) => decimal_text(n),
        SpecExpr::Var(s) => s,
        SpecExpr::Add(a, b) => "("@ + expr_text(*a) + " + "@ + expr_text(*b) + ")"@,
        SpecExpr::Mul(a, b) => "("@ + expr_text(*a) + " * "@ + expr_text(*b) + ")"@,
        SpecExpr::Sub(a, b) => "("@ + expr_text(*a) + " - "@ + expr_text(*b) + ")"@,
        SpecExpr::Neg(a) => "(-"@ + expr_text(*a) + ")"@,
    }
}

/// How a statement is written, in the syntax of circuit programs.
pub open spec fn statement_text(s: SpecStatement) -> Seq<char>
    decreases s,
{
    match s {
        SpecStatement::SignalDecl(kind, name) => match kind {
            SignalKind::Input => "signal input "@ + name + ";"@,
            SignalKind::Output => "signal output "@ + name + ";"@,
            SignalKind::Intermediate => "signal "@ + name + ";"@,
        },
        SpecStatement::Assign(target, value) => target + " <== "@ + expr_text(value) + ";"@,
        SpecStatement::Constraint(lhs, rhs) => expr_text(lhs) + " === "@ + expr_text(rhs) + ";"@,
        SpecStatement::AssertBool(name) => "assert_bool("@ + name + ");"@,
        SpecStatement::Conditional(condition, then_stmt, else_stmt) => {
            let head = "if "@ + condition + " then "@ + statement_text(*then_stmt);
            match else_stmt {
                Some(e) => head + " else "@ + statement_text(*e),
                None => head,
            }
        },
    }
}

impl SignalKind {
    /// How this kind is written.
    pub fn render(&self) -> (r: String)
        ensures
            r@ == signal_kind_text(*self),
    {
        match self {
            SignalKind::Input => String::from_str("input"),
            SignalKind::Output => String::from_str("output"),
            SignalKind::Intermediate => String::from_str("intermediate"),
        }
    }
}

/// `(left op right)`.
fn binary_text(left: String, op: &str, right: String) -> (r: String)
    ensures
        r@ == "("@ + left@ + op@ + right@ + ")"@,
{
    let mut s = String::from_str("(");
    s.append(left.as_str());
    s.append(op);
    s.append(right.as_str());
    s.append(")");
    s
}

impl Expr {
    /// How this expression is written (see `expr_text`).
    pub fn render(&self) -> (r: String)
        ensures
            r@ == expr_text(self.model()),
        decreases self,
    {
        match self {
            Expr::Const(n) => n.to_decimal_string(),
            Expr::Var(s) => s.clone(),
            Expr::Add(a, b) => binary_text(a.render(), " + ", b.render()),
            Expr::Mul(a, b) => binary_text(a.render(), " * ", b.render()),
            Expr::Sub(a, b) => binary_text(a.render(), " - ", b.render()),
            Expr::Neg(a) => {
                let mut s = String::from_str("(-");
                let inner = a.render();
                s.append(inner.as_str());
                s.append(")");
                s
            },
        }
    }
}

impl Statement {
    /// How this statement is written (see `statement_text`).
    pub fn render(&self) -> (r: String)
        ensures
            r@ == statement_text(self.model()),
        decreases self,
    {
        match self {
            Statement::SignalDecl(d) => {
                let mut s = match d.kind {
                    SignalKind::Input => String::from_str("signal input "),
                    SignalKind::Output => String::from_str("signal output "),
                    SignalKind::Intermediate => String::from_str("signal "),
                };
                s.append(d.name.as_str());
                s.append(";");
                s
            },
            Statement::Assign { target, value } => {
                let mut s = target.clone();
                s.append(" <== ");
                let v = value.render();
                s.append(v.as_str());
                s.append(";");
                s
            },
            Statement::Constraint { lhs, rhs } => {
                let mut s = lhs.render();
                s.append(" === ");
                let r = rhs.render();
                s.append(r.as_str());
                s.append(";");
                s
            },
            Statement::AssertBool(name) => {
                let mut s = String::from_str("assert_bool(");
                s.append(name.as_str());
                s.append(");");
                s
            },
            Statement::Conditional { condition, then_stmt, else_stmt } => {
                let mut s = String::from_str("if ");
                s.append(condition.as_str());
                s.append(" then ");
                let t = then_stmt.render();
                s.append(t.as_str());
                match else_stmt {
                    Some(e) => {
                        s.append(" else ");
                        let et = e.render();
                        s.append(et.as_str());
                    },
                    None => {},
                }
                s
            },
        }
    }
}

} // verus!
