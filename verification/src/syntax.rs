//! AST model and traversal: a closed set of expression node variants, each
//! owning its sub-expressions; a visitor contract with one operation per
//! variant; and a printer that renders a node and its subtree as a
//! parenthesized prefix string.

use vstd::prelude::*;
use vstd::string::*;
use crate::token::{SpecToken, Token};

verus! {

/// Value carried by a literal expression. Numbers are canonical decimal
/// digit strings (see the scanner's `canonical_number`).
#[derive(Debug)]
pub enum LiteralType {
    Number(String),
    StringValue(String),
    Boolean(bool),
    Nil,
}

/// Mathematical model of a literal value.
pub enum SpecLiteral {
    Number(Seq<char>),
    StringValue(Seq<char>),
    Boolean(bool),
    Nil,
}

impl View for LiteralType {
    type V = SpecLiteral;

    open spec fn view(&self) -> SpecLiteral {
        match self {
            LiteralType::Number(t) => SpecLiteral::Number(t@),
            LiteralType::StringValue(t) => SpecLiteral::StringValue(t@),
            LiteralType::Boolean(b) => SpecLiteral::Boolean(*b),
            LiteralType::Nil => SpecLiteral::Nil,
        }
    }
}

/// Expression grammar node. Each node owns its children by value; boxing
/// gives the self-referential variants a fixed size. An operator token
/// stored in a node is always one the parser matched, never synthesized.
#[derive(Debug)]
pub enum Expr {
    Literal { value: LiteralType },
    Grouping { expression: Box<Expr> },
    Unary { operator: Token, right: Box<Expr> },
    Binary { left: Box<Expr>, operator: Token, right: Box<Expr> },
}

/// Mathematical model of an expression tree.
pub enum SpecExpr {
    Literal { value: SpecLiteral },
    Grouping { expression: Box<SpecExpr> },
    Unary { operator: SpecToken, right: Box<SpecExpr> },
    Binary { left: Box<SpecExpr>, operator: SpecToken, right: Box<SpecExpr> },
}

impl View for Expr {
    type V = SpecExpr;

    open spec fn view(&self) -> SpecExpr
        decreases self,
    {
        match self {
            Expr::Literal { value } => SpecExpr::Literal { value: value@ },
            Expr::Grouping { expression } => SpecExpr::Grouping {
                expression: Box::new((**expression)@),
            },
            Expr::Unary { operator, right } => SpecExpr::Unary {
                operator: operator@,
                right: Box::new((**right)@),
            },
            Expr::Binary { left, operator, right } => SpecExpr::Binary {
                left: Box::new((**left)@),
                operator: operator@,
                right: Box::new((**right)@),
            },
        }
    }
}

/// The canonical text form of a literal: `nil`, lowercase booleans, the
/// canonical digit string of a number, and the raw text of a string.
pub open spec fn spec_render_literal(v: SpecLiteral) -> Seq<char> {
    match v {
        SpecLiteral::Number(t) => t,
        SpecLiteral::StringValue(t) => t,
        SpecLiteral::Boolean(b) => if b {
            "true"@
        } else {
            "false"@
        },
        SpecLiteral::Nil => "nil"@,
    }
}

/// The parenthesized prefix rendering of an expression tree: literals in
/// canonical text form, groupings as `(group e)`, and operator applications
/// as `(op operands...)` with the operator lexeme copied verbatim.
pub open spec fn spec_render(e: SpecExpr) -> Seq<char>
    decreases e,
{
    match e {
        SpecExpr::Literal { value } => spec_render_literal(value),
        SpecExpr::Grouping { expression } => "(group "@ + spec_render(*expression) + ")"@,
        SpecExpr::Unary { operator, right } => "("@ + operator.lexeme + " "@ + spec_render(*right)
            + ")"@,
        SpecExpr::Binary { left, operator, right } => "("@ + operator.lexeme + " "@ + spec_render(
            *left,
        ) + " "@ + spec_render(*right) + ")"@,
    }
}

/// Visitor contract over the expression variants, parameterized by the
/// return type. Each operation also has a specification-level counterpart
/// stating, as a mathematical value, what the operation returns, so that
/// dispatching through `Expr::accept` keeps an exact contract.
pub trait Visitor<R: View> {
    spec fn binary_spec(&self, left: &Expr, operator: &Token, right: &Expr) -> R::V;

    spec fn grouping_spec(&self, expression: &Expr) -> R::V;

    spec fn literal_spec(&self, value: &LiteralType) -> R::V;

    spec fn unary_spec(&self, operator: &Token, right: &Expr) -> R::V;

    fn visit_binary_expr(&self, left: &Expr, operator: &Token, right: &Expr) -> (r: R)
        ensures
            r@ == self.binary_spec(left, operator, right),
    ;

    fn visit_grouping_expr(&self, expression: &Expr) -> (r: R)
        ensures
            r@ == self.grouping_spec(expression),
    ;

    fn visit_literal_expr(&self, value: &LiteralType) -> (r: R)
        ensures
            r@ == self.literal_spec(value),
    ;

    fn visit_unary_expr(&self, operator: &Token, right: &Expr) -> (r: R)
        ensures
            r@ == self.unary_spec(operator, right),
    ;
}

impl Expr {
    /// The visitor's answer for this node: one operation per variant.
    pub open spec fn accept_spec<R: View, V: Visitor<R>>(&self, visitor: &V) -> R::V {
        match self {
            Expr::Literal { value } => visitor.literal_spec(value),
            Expr::Grouping { expression } => visitor.grouping_spec(expression),
            Expr::Unary { operator, right } => visitor.unary_spec(operator, right),
            Expr::Binary { left, operator, right } => visitor.binary_spec(left, operator, right),
        }
    }

    /// Dispatches this node to the visitor operation matching its variant
    /// and returns whatever that operation produces.
    pub fn accept<R: View, V: Visitor<R>>(&self, visitor: &V) -> (r: R)
        ensures
            r@ == self.accept_spec(visitor),
    {
        match self {
            Expr::Literal { value } => visitor.visit_literal_expr(value),
            Expr::Grouping { expression } => visitor.visit_grouping_expr(expression),
            Expr::Unary { operator, right } => visitor.visit_unary_expr(operator, right),
            Expr::Binary { left, operator, right } => visitor.visit_binary_expr(
                left,
                operator,
                right,
            ),
        }
    }
}

/// Pretty prints the AST tree in parenthesized prefix form.
pub struct AstPrinter;

impl AstPrinter {
    /// Renders a node and its whole subtree, exactly as `spec_render`
    /// states.
    pub fn render(&self, e: &Expr) -> (r: String)
        ensures
            r@ == spec_render(e@),
        decreases *e,
    {
        match e {
            Expr::Literal { value } => match value {
                LiteralType::Number(t) => t.clone(),
                LiteralType::StringValue(t) => t.clone(),
                LiteralType::Boolean(b) => {
                    if *b {
                        String::from_str("true")
                    } else {
                        String::from_str("false")
                    }
                },
                LiteralType::Nil => String::from_str("nil"),
            },
            Expr::Grouping { expression } => {
                let mut out = String::from_str("(group ");
                let inner = self.render(expression);
                out.append(inner.as_str());
                out.append(")");
                out
            },
            Expr::Unary { operator, right } => {
                let mut out = String::from_str("(");
                out.append(operator.lexeme.as_str());
                out.append(" ");
                let r_text = self.render(right);
                out.append(r_text.as_str());
                out.append(")");
                out
            },
            Expr::Binary { left, operator, right } => {
                let mut out = String::from_str("(");
                out.append(operator.lexeme.as_str());
                out.append(" ");
                let l_text = self.render(left);
                out.append(l_text.as_str());
                out.append(" ");
                let r_text = self.render(right);
                out.append(r_text.as_str());
                out.append(")");
                out
            },
        }
    }
}

impl Visitor<String> for AstPrinter {
    open spec fn binary_spec(&self, left: &Expr, operator: &Token, right: &Expr) -> Seq<char> {
        spec_render(
            SpecExpr::Binary {
                left: Box::new(left@),
                operator: operator@,
                right: Box::new(right@),
            },
        )
    }

    open spec fn grouping_spec(&self, expression: &Expr) -> Seq<char> {
        spec_render(SpecExpr::Grouping { expression: Box::new(expression@) })
    }

    open spec fn literal_spec(&self, value: &LiteralType) -> Seq<char> {
        spec_render_literal(value@)
    }

    open spec fn unary_spec(&self, operator: &Token, right: &Expr) -> Seq<char> {
        spec_render(SpecExpr::Unary { operator: operator@, right: Box::new(right@) })
    }

    fn visit_binary_expr(&self, left: &Expr, operator: &Token, right: &Expr) -> (r: String) {
        let mut out = String::from_str("(");
        out.append(operator.lexeme.as_str());
        out.append(" ");
        let l_text = self.render(left);
        out.append(l_text.as_str());
        out.append(" ");
        let r_text = self.render(right);
        out.append(r_text.as_str());
        out.append(")");
        out
    }

    fn visit_grouping_expr(&self, expression: &Expr) -> (r: String) {
        let mut out = String::from_str("(group ");
        let inner = self.render(expression);
        out.append(inner.as_str());
        out.append(")");
        out
    }

    fn visit_literal_expr(&self, value: &LiteralType) -> (r: String) {
        match value {
            LiteralType::Number(t) => t.clone(),
            LiteralType::StringValue(t) => t.clone(),
            LiteralType::Boolean(b) => {
                if *b {
                    String::from_str("true")
                } else {
                    String::from_str("false")
                }
            },
            LiteralType::Nil => String::from_str("nil"),
        }
    }

    fn visit_unary_expr(&self, operator: &Token, right: &Expr) -> (r: String) {
        let mut out = String::from_str("(");
        out.append(operator.lexeme.as_str());
        out.append(" ");
        let r_text = self.render(right);
        out.append(r_text.as_str());
        out.append(")");
        out
    }
}

} // verus!
