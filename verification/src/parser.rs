//! Recursive-descent parser over the scanner's token sequence, building one
//! root expression node. The precedence chain, lowest to highest binding
//! power, is equality, comparison, addition, multiplication, unary, primary;
//! each binary level is left-associative and unary is right-recursive. One
//! token of lookahead decides every production; the first syntax error
//! aborts the parse and is reported with the offending token.
//!
//! The grammar, as the spec functions below state it:
//! ```text
//! expression     -> equality ;
//! equality       -> comparison ( ( "!=" | "==" ) comparison )* ;
//! comparison     -> addition ( ( ">" | ">=" | "<" | "<=" ) addition )* ;
//! addition       -> multiplication ( ( "-" | "+" ) multiplication )* ;
//! multiplication -> unary ( ( "/" | "*" ) unary )* ;
//! unary          -> ( "!" | "-" ) unary | primary ;
//! primary        -> NUMBER | STRING | "true" | "false" | "nil" | "(" expression ")" ;
//! ```

use vstd::prelude::*;
use crate::scanner::token_views;
use crate::syntax::{Expr, LiteralType, SpecExpr, SpecLiteral};
use crate::token::{SpecToken, SpecTokenType, Token, TokenType};

verus! {

/// Error that is reported when the parser encounters something wrong: the
/// offending (unconsumed) token and a fixed diagnostic message.
#[derive(Debug)]
pub struct ParserError {
    pub token: Token,
    pub message: &'static str,
}

/// Outcome of parsing one production starting at one token position: the
/// expression built and the position of the next unconsumed token, or the
/// offending token and the diagnostic message.
pub enum SpecParsed {
    Parsed { expr: SpecExpr, next: int },
    Failed { token: SpecToken, message: Seq<char> },
}

/// Marker for positions a parse never reaches (a sub-production that claims
/// to have consumed nothing or to have run past the input).
pub open spec fn stuck_parse() -> SpecParsed {
    SpecParsed::Failed {
        token: SpecToken { token_type: SpecTokenType::Eof, lexeme: Seq::empty(), line: 0 },
        message: Seq::empty(),
    }
}

/// A token sequence fit for parsing: what every scan produces. It is
/// non-empty and exactly its last token is the end-of-input marker.
pub open spec fn wf_token_seq(t: Seq<SpecToken>) -> bool {
    &&& t.len() >= 1
    &&& t.last().token_type is Eof
    &&& forall|k: int| 0 <= k < t.len() - 1 ==> !((#[trigger] t[k].token_type) is Eof)
}

pub open spec fn spec_expression(t: Seq<SpecToken>, i: int) -> SpecParsed
    decreases t.len() - i, 6int,
{
    spec_equality(t, i)
}

pub open spec fn spec_equality(t: Seq<SpecToken>, i: int) -> SpecParsed
    decreases t.len() - i, 5int,
{
    match spec_comparison(t, i) {
        SpecParsed::Parsed { expr, next } => {
            if i < next <= t.len() {
                spec_eq_rest(t, next, expr)
            } else {
                stuck_parse()
            }
        },
        SpecParsed::Failed { token, message } => SpecParsed::Failed { token, message },
    }
}

/// Left-associative folding of `(("!=" | "==") comparison)*` onto `acc`.
pub open spec fn spec_eq_rest(t: Seq<SpecToken>, i: int, acc: SpecExpr) -> SpecParsed
    decreases t.len() - i, 5int,
{
    if 0 <= i < t.len() && (t[i].token_type is BangEqual || t[i].token_type is EqualEqual) {
        match spec_comparison(t, i + 1) {
            SpecParsed::Parsed { expr, next } => {
                if i < next <= t.len() {
                    spec_eq_rest(
                        t,
                        next,
                        SpecExpr::Binary {
                            left: Box::new(acc),
                            operator: t[i],
                            right: Box::new(expr),
                        },
                    )
                } else {
                    stuck_parse()
                }
            },
            SpecParsed::Failed { token, message } => SpecParsed::Failed { token, message },
        }
    } else {
        SpecParsed::Parsed { expr: acc, next: i }
    }
}

pub open spec fn spec_comparison(t: Seq<SpecToken>, i: int) -> SpecParsed
    decreases t.len() - i, 4int,
{
    match spec_addition(t, i) {
        SpecParsed::Parsed { expr, next } => {
            if i < next <= t.len() {
                spec_comp_rest(t, next, expr)
            } else {
                stuck_parse()
            }
        },
        SpecParsed::Failed { token, message } => SpecParsed::Failed { token, message },
    }
}

pub open spec fn is_comparison_op(k: SpecTokenType) -> bool {
    ||| k is Greater
    ||| k is GreaterEqual
    ||| k is Less
    ||| k is LessEqual
}

/// Left-associative folding of `((">" | ">=" | "<" | "<=") addition)*`.
pub open spec fn spec_comp_rest(t: Seq<SpecToken>, i: int, acc: SpecExpr) -> SpecParsed
    decreases t.len() - i, 4int,
{
    if 0 <= i < t.len() && is_comparison_op(t[i].token_type) {
        match spec_addition(t, i + 1) {
            SpecParsed::Parsed { expr, next } => {
                if i < next <= t.len() {
                    spec_comp_rest(
                        t,
                        next,
                        SpecExpr::Binary {
                            left: Box::new(acc),
                            operator: t[i],
                            right: Box::new(expr),
                        },
                    )
                } else {
                    stuck_parse()
                }
            },
            SpecParsed::Failed { token, message } => SpecParsed::Failed { token, message },
        }
    } else {
        SpecParsed::Parsed { expr: acc, next: i }
    }
}

pub open spec fn spec_addition(t: Seq<SpecToken>, i: int) -> SpecParsed
    decreases t.len() - i, 3int,
{
    match spec_multiplication(t, i) {
        SpecParsed::Parsed { expr, next } => {
            if i < next <= t.len() {
                spec_add_rest(t, next, expr)
            } else {
                stuck_parse()
            }
        },
        SpecParsed::Failed { token, message } => SpecParsed::Failed { token, message },
    }
}

/// Left-associative folding of `(("-" | "+") multiplication)*`.
pub open spec fn spec_add_rest(t: Seq<SpecToken>, i: int, acc: SpecExpr) -> SpecParsed
    decreases t.len() - i, 3int,
{
    if 0 <= i < t.len() && (t[i].token_type is Minus || t[i].token_type is Plus) {
        match spec_multiplication(t, i + 1) {
            SpecParsed::Parsed { expr, next } => {
                if i < next <= t.len() {
                    spec_add_rest(
                        t,
                        next,
                        SpecExpr::Binary {
                            left: Box::new(acc),
                            operator: t[i],
                            right: Box::new(expr),
                        },
                    )
                } else {
                    stuck_parse()
                }
            },
            SpecParsed::Failed { token, message } => SpecParsed::Failed { token, message },
        }
    } else {
        SpecParsed::Parsed { expr: acc, next: i }
    }
}

pub open spec fn spec_multiplication(t: Seq<SpecToken>, i: int) -> SpecParsed
    decreases t.len() - i, 2int,
{
    match spec_unary(t, i) {
        SpecParsed::Parsed { expr, next } => {
            if i < next <= t.len() {
                spec_mult_rest(t, next, expr)
            } else {
                stuck_parse()
            }
        },
        SpecParsed::Failed { token, message } => SpecParsed::Failed { token, message },
    }
}

/// Left-associative folding of `(("/" | "*") unary)*`.
pub open spec fn spec_mult_rest(t: Seq<SpecToken>, i: int, acc: SpecExpr) -> SpecParsed
    decreases t.len() - i, 2int,
{
    if 0 <= i < t.len() && (t[i].token_type is Slash || t[i].token_type is Star) {
        match spec_unary(t, i + 1) {
            SpecParsed::Parsed { expr, next } => {
                if i < next <= t.len() {
                    spec_mult_rest(
                        t,
                        next,
                        SpecExpr::Binary {
                            left: Box::new(acc),
                            operator: t[i],
                            right: Box::new(expr),
                        },
                    )
                } else {
                    stuck_parse()
                }
            },
            SpecParsed::Failed { token, message } => SpecParsed::Failed { token, message },
        }
    } else {
        SpecParsed::Parsed { expr: acc, next: i }
    }
}

/// `unary -> ("!" | "-") unary | primary`: right-recursive, binding as far
/// right as possible.
pub open spec fn spec_unary(t: Seq<SpecToken>, i: int) -> SpecParsed
    decreases t.len() - i, 1int,
{
    if 0 <= i < t.len() && (t[i].token_type is Bang || t[i].token_type is Minus) {
        match spec_unary(t, i + 1) {
            SpecParsed::Parsed { expr, next } => SpecParsed::Parsed {
                expr: SpecExpr::Unary { operator: t[i], right: Box::new(expr) },
                next,
            },
            SpecParsed::Failed { token, message } => SpecParsed::Failed { token, message },
        }
    } else {
        spec_primary(t, i)
    }
}

/// `primary`: a literal is consumed as its decoded value; a left parenthesis
/// opens a grouping that must close with a right parenthesis, diagnosed as
/// `Expected ')' after expression.` at the non-matching token; any other
/// token is diagnosed as `Expected expression.` without being consumed.
pub open spec fn spec_primary(t: Seq<SpecToken>, i: int) -> SpecParsed
    decreases t.len() - i, 0int,
{
    if 0 <= i < t.len() {
        match t[i].token_type {
            SpecTokenType::False => SpecParsed::Parsed {
                expr: SpecExpr::Literal { value: SpecLiteral::Boolean(false) },
                next: i + 1,
            },
            SpecTokenType::True => SpecParsed::Parsed {
                expr: SpecExpr::Literal { value: SpecLiteral::Boolean(true) },
                next: i + 1,
            },
            SpecTokenType::Nil => SpecParsed::Parsed {
                expr: SpecExpr::Literal { value: SpecLiteral::Nil },
                next: i + 1,
            },
            SpecTokenType::StringLiteral(s) => SpecParsed::Parsed {
                expr: SpecExpr::Literal { value: SpecLiteral::StringValue(s) },
                next: i + 1,
            },
            SpecTokenType::NumberLiteral(n) => SpecParsed::Parsed {
                expr: SpecExpr::Literal { value: SpecLiteral::Number(n) },
                next: i + 1,
            },
            SpecTokenType::LeftParen => match spec_expression(t, i + 1) {
                SpecParsed::Parsed { expr, next } => {
                    if 0 <= next < t.len() {
                        if t[next].token_type is RightParen {
                            SpecParsed::Parsed {
                                expr: SpecExpr::Grouping { expression: Box::new(expr) },
                                next: next + 1,
                            }
                        } else {
                            SpecParsed::Failed {
                                token: t[next],
                                message: "Expected ')' after expression."@,
                            }
                        }
                    } else {
                        stuck_parse()
                    }
                },
                SpecParsed::Failed { token, message } => SpecParsed::Failed { token, message },
            },
            _ => SpecParsed::Failed { token: t[i], message: "Expected expression."@ },
        }
    } else {
        stuck_parse()
    }
}

} // verus!

// ---------------------------------------------------------------------------
// Executable parser
// ---------------------------------------------------------------------------

verus! {

/// Groups the progress of one parse: the token sequence and the position of
/// the next unconsumed token.
struct Parser {
    tokens: Vec<Token>,
    current: usize,
}

impl Parser {
    spec fn toks(&self) -> Seq<SpecToken> {
        token_views(self.tokens@)
    }

    /// The token sequence is fit for parsing and the cursor has not passed
    /// the end-of-input token.
    spec fn wf(&self) -> bool {
        &&& wf_token_seq(self.toks())
        &&& self.current < self.toks().len()
        &&& self.tokens@.len() <= usize::MAX as nat
    }

    /// The current token cannot be the end-of-input marker unless it is the
    /// last one, so consuming a non-marker token keeps the cursor in range.
    proof fn lemma_not_eof_not_last(&self)
        requires
            self.wf(),
            !(self.toks()[self.current as int].token_type is Eof),
        ensures
            self.current as int + 1 < self.toks().len(),
    {
        if self.current as int == self.toks().len() - 1 {
            assert(self.toks().last().token_type is Eof);
        }
    }

    fn peek_clone(&self) -> (t: Token)
        requires
            self.wf(),
        ensures
            t@ == self.toks()[self.current as int],
    {
        self.tokens[self.current].clone()
    }

    fn peek_is_equality_op(&self) -> (r: bool)
        requires
            self.wf(),
        ensures
            r == ({
                let k = self.toks()[self.current as int].token_type;
                k is BangEqual || k is EqualEqual
            }),
    {
        match &self.tokens[self.current].token_type {
            TokenType::BangEqual | TokenType::EqualEqual => true,
            _ => false,
        }
    }

    fn peek_is_comparison_op(&self) -> (r: bool)
        requires
            self.wf(),
        ensures
            r == is_comparison_op(self.toks()[self.current as int].token_type),
    {
        match &self.tokens[self.current].token_type {
            TokenType::Greater | TokenType::GreaterEqual | TokenType::Less
                | TokenType::LessEqual => true,
            _ => false,
        }
    }

    fn peek_is_addition_op(&self) -> (r: bool)
        requires
            self.wf(),
        ensures
            r == ({
                let k = self.toks()[self.current as int].token_type;
                k is Minus || k is Plus
            }),
    {
        match &self.tokens[self.current].token_type {
            TokenType::Minus | TokenType::Plus => true,
            _ => false,
        }
    }

    fn peek_is_multiplication_op(&self) -> (r: bool)
        requires
            self.wf(),
        ensures
            r == ({
                let k = self.toks()[self.current as int].token_type;
                k is Slash || k is Star
            }),
    {
        match &self.tokens[self.current].token_type {
            TokenType::Slash | TokenType::Star => true,
            _ => false,
        }
    }

    fn peek_is_unary_op(&self) -> (r: bool)
        requires
            self.wf(),
        ensures
            r == ({
                let k = self.toks()[self.current as int].token_type;
                k is Bang || k is Minus
            }),
    {
        match &self.tokens[self.current].token_type {
            TokenType::Bang | TokenType::Minus => true,
            _ => false,
        }
    }

    /// Discards tokens until a statement boundary: past a semicolon, at a
    /// token that begins a statement-level construct, or at end of input.
    /// This bounds error cascades to one diagnostic per broken
    /// statement-like region; the single-expression grammar never needs it,
    /// so nothing calls it yet.
    #[allow(dead_code)]
    fn synchronize(&mut self)
        requires
            old(self).wf(),
        ensures
            final(self).wf(),
            final(self).tokens == old(self).tokens,
            ({
                let t = old(self).toks();
                let i = old(self).current as int;
                if t[i].token_type is Eof {
                    final(self).current as int == i
                } else {
                    final(self).current as int == sync_point(t, i + 1)
                }
            }),
    {
        let ghost t = old(self).toks();
        let ghost i0 = old(self).current as int;
        if matches!(&self.tokens[self.current].token_type, TokenType::Eof) {
            return;
        }
        proof {
            self.lemma_not_eof_not_last();
        }
        self.current = self.current + 1;
        while !matches!(&self.tokens[self.current].token_type, TokenType::Eof)
            invariant
                self.wf(),
                self.tokens == old(self).tokens,
                t == self.toks(),
                i0 == old(self).current as int,
                1 <= self.current,
                i0 < self.current as int,
                sync_point(t, i0 + 1) == sync_point(t, self.current as int),
            decreases t.len() - self.current as int,
        {
            if matches!(&self.tokens[self.current - 1].token_type, TokenType::Semicolon) {
                return;
            }
            match &self.tokens[self.current].token_type {
                TokenType::Class | TokenType::Fun | TokenType::Var | TokenType::For
                    | TokenType::If | TokenType::While | TokenType::Print | TokenType::Return => {
                    return;
                },
                _ => {
                    proof {
                        self.lemma_not_eof_not_last();
                    }
                    self.current = self.current + 1;
                },
            }
        }
    }

    fn expression(&mut self) -> (r: Result<Expr, ParserError>)
        requires
            old(self).wf(),
        ensures
            final(self).wf(),
            final(self).tokens == old(self).tokens,
            ({
                let t = old(self).toks();
                let i = old(self).current as int;
                match spec_expression(t, i) {
                    SpecParsed::Parsed { expr, next } => {
                        &&& r matches Ok(e) && e@ == expr
                        &&& final(self).current as int == next
                        &&& i < next
                    },
                    SpecParsed::Failed { token, message } => r matches Err(pe) && pe.token@
                        == token && pe.message@ == message,
                }
            }),
        decreases old(self).toks().len() - old(self).current, 6int,
    {
        self.equality()
    }

    fn equality(&mut self) -> (r: Result<Expr, ParserError>)
        requires
            old(self).wf(),
        ensures
            final(self).wf(),
            final(self).tokens == old(self).tokens,
            ({
                let t = old(self).toks();
                let i = old(self).current as int;
                match spec_equality(t, i) {
                    SpecParsed::Parsed { expr, next } => {
                        &&& r matches Ok(e) && e@ == expr
                        &&& final(self).current as int == next
                        &&& i < next
                    },
                    SpecParsed::Failed { token, message } => r matches Err(pe) && pe.token@
                        == token && pe.message@ == message,
                }
            }),
        decreases old(self).toks().len() - old(self).current, 5int,
    {
        let ghost t = old(self).toks();
        let ghost i0 = old(self).current as int;
        let mut expr = match self.comparison() {
            Ok(e) => e,
            Err(e) => {
                return Err(e);
            },
        };
        while self.peek_is_equality_op()
            invariant
                self.wf(),
                self.tokens == old(self).tokens,
                t == self.toks(),
                i0 == old(self).current as int,
                i0 < self.current as int,
                spec_equality(t, i0) == spec_eq_rest(t, self.current as int, expr@),
            decreases t.len() - self.current as int,
        {
            let operator = self.peek_clone();
            proof {
                self.lemma_not_eof_not_last();
            }
            self.current = self.current + 1;
            let right = match self.comparison() {
                Ok(e) => e,
                Err(e) => {
                    return Err(e);
                },
            };
            expr = Expr::Binary { left: Box::new(expr), operator, right: Box::new(right) };
        }
        Ok(expr)
    }

    fn comparison(&mut self) -> (r: Result<Expr, ParserError>)
        requires
            old(self).wf(),
        ensures
            final(self).wf(),
            final(self).tokens == old(self).tokens,
            ({
                let t = old(self).toks();
                let i = old(self).current as int;
                match spec_comparison(t, i) {
                    SpecParsed::Parsed { expr, next } => {
                        &&& r matches Ok(e) && e@ == expr
                        &&& final(self).current as int == next
                        &&& i < next
                    },
                    SpecParsed::Failed { token, message } => r matches Err(pe) && pe.token@
                        == token && pe.message@ == message,
                }
            }),
        decreases old(self).toks().len() - old(self).current, 4int,
    {
        let ghost t = old(self).toks();
        let ghost i0 = old(self).current as int;
        let mut expr = match self.addition() {
            Ok(e) => e,
            Err(e) => {
                return Err(e);
            },
        };
        while self.peek_is_comparison_op()
            invariant
                self.wf(),
                self.tokens == old(self).tokens,
                t == self.toks(),
                i0 == old(self).current as int,
                i0 < self.current as int,
                spec_comparison(t, i0) == spec_comp_rest(t, self.current as int, expr@),
            decreases t.len() - self.current as int,
        {
            let operator = self.peek_clone();
            proof {
                self.lemma_not_eof_not_last();
            }
            self.current = self.current + 1;
            let right = match self.addition() {
                Ok(e) => e,
                Err(e) => {
                    return Err(e);
                },
            };
            expr = Expr::Binary { left: Box::new(expr), operator, right: Box::new(right) };
        }
        Ok(expr)
    }

    fn addition(&mut self) -> (r: Result<Expr, ParserError>)
        requires
            old(self).wf(),
        ensures
            final(self).wf(),
            final(self).tokens == old(self).tokens,
            ({
                let t = old(self).toks();
                let i = old(self).current as int;
                match spec_addition(t, i) {
                    SpecParsed::Parsed { expr, next } => {
                        &&& r matches Ok(e) && e@ == expr
                        &&& final(self).current as int == next
                        &&& i < next
                    },
                    SpecParsed::Failed { token, message } => r matches Err(pe) && pe.token@
                        == token && pe.message@ == message,
                }
            }),
        decreases old(self).toks().len() - old(self).current, 3int,
    {
        let ghost t = old(self).toks();
        let ghost i0 = old(self).current as int;
        let mut expr = match self.multiplication() {
            Ok(e) => e,
            Err(e) => {
                return Err(e);
            },
        };
        while self.peek_is_addition_op()
            invariant
                self.wf(),
                self.tokens == old(self).tokens,
                t == self.toks(),
                i0 == old(self).current as int,
                i0 < self.current as int,
                spec_addition(t, i0) == spec_add_rest(t, self.current as int, expr@),
            decreases t.len() - self.current as int,
        {
            let operator = self.peek_clone();
            proof {
                self.lemma_not_eof_not_last();
            }
            self.current = self.current + 1;
            let right = match self.multiplication() {
                Ok(e) => e,
                Err(e) => {
                    return Err(e);
                },
            };
            expr = Expr::Binary { left: Box::new(expr), operator, right: Box::new(right) };
        }
        Ok(expr)
    }

    fn multiplication(&mut self) -> (r: Result<Expr, ParserError>)
        requires
            old(self).wf(),
        ensures
            final(self).wf(),
            final(self).tokens == old(self).tokens,
            ({
                let t = old(self).toks();
                let i = old(self).current as int;
                match spec_multiplication(t, i) {
                    SpecParsed::Parsed { expr, next } => {
                        &&& r matches Ok(e) && e@ == expr
                        &&& final(self).current as int == next
                        &&& i < next
                    },
                    SpecParsed::Failed { token, message } => r matches Err(pe) && pe.token@
                        == token && pe.message@ == message,
                }
            }),
        decreases old(self).toks().len() - old(self).current, 2int,
    {
        let ghost t = old(self).toks();
        let ghost i0 = old(self).current as int;
        let mut expr = match self.unary() {
            Ok(e) => e,
            Err(e) => {
                return Err(e);
            },
        };
        while self.peek_is_multiplication_op()
            invariant
                self.wf(),
                self.tokens == old(self).tokens,
                t == self.toks(),
                i0 == old(self).current as int,
                i0 < self.current as int,
                spec_multiplication(t, i0) == spec_mult_rest(t, self.current as int, expr@),
            decreases t.len() - self.current as int,
        {
            let operator = self.peek_clone();
            proof {
                self.lemma_not_eof_not_last();
            }
            self.current = self.current + 1;
            let right = match self.unary() {
                Ok(e) => e,
                Err(e) => {
                    return Err(e);
                },
            };
            expr = Expr::Binary { left: Box::new(expr), operator, right: Box::new(right) };
        }
        Ok(expr)
    }

    fn unary(&mut self) -> (r: Result<Expr, ParserError>)
        requires
            old(self).wf(),
        ensures
            final(self).wf(),
            final(self).tokens == old(self).tokens,
            ({
                let t = old(self).toks();
                let i = old(self).current as int;
                match spec_unary(t, i) {
                    SpecParsed::Parsed { expr, next } => {
                        &&& r matches Ok(e) && e@ == expr
                        &&& final(self).current as int == next
                        &&& i < next
                    },
                    SpecParsed::Failed { token, message } => r matches Err(pe) && pe.token@
                        == token && pe.message@ == message,
                }
            }),
        decreases old(self).toks().len() - old(self).current, 1int,
    {
        if self.peek_is_unary_op() {
            let operator = self.peek_clone();
            proof {
                self.lemma_not_eof_not_last();
            }
            self.current = self.current + 1;
            let right = match self.unary() {
                Ok(e) => e,
                Err(e) => {
                    return Err(e);
                },
            };
            Ok(Expr::Unary { operator, right: Box::new(right) })
        } else {
            self.primary()
        }
    }

    fn primary(&mut self) -> (r: Result<Expr, ParserError>)
        requires
            old(self).wf(),
        ensures
            final(self).wf(),
            final(self).tokens == old(self).tokens,
            ({
                let t = old(self).toks();
                let i = old(self).current as int;
                match spec_primary(t, i) {
                    SpecParsed::Parsed { expr, next } => {
                        &&& r matches Ok(e) && e@ == expr
                        &&& final(self).current as int == next
                        &&& i < next
                    },
                    SpecParsed::Failed { token, message } => r matches Err(pe) && pe.token@
                        == token && pe.message@ == message,
                }
            }),
        decreases old(self).toks().len() - old(self).current, 0int,
    {
        match &self.tokens[self.current].token_type {
            TokenType::False => {
                proof {
                    self.lemma_not_eof_not_last();
                }
                self.current = self.current + 1;
                Ok(Expr::Literal { value: LiteralType::Boolean(false) })
            },
            TokenType::True => {
                proof {
                    self.lemma_not_eof_not_last();
                }
                self.current = self.current + 1;
                Ok(Expr::Literal { value: LiteralType::Boolean(true) })
            },
            TokenType::Nil => {
                proof {
                    self.lemma_not_eof_not_last();
                }
                self.current = self.current + 1;
                Ok(Expr::Literal { value: LiteralType::Nil })
            },
            TokenType::StringLiteral(s) => {
                let text = s.clone();
                proof {
                    self.lemma_not_eof_not_last();
                }
                self.current = self.current + 1;
                Ok(Expr::Literal { value: LiteralType::StringValue(text) })
            },
            TokenType::NumberLiteral(n) => {
                let text = n.clone();
                proof {
                    self.lemma_not_eof_not_last();
                }
                self.current = self.current + 1;
                Ok(Expr::Literal { value: LiteralType::Number(text) })
            },
            TokenType::LeftParen => {
                proof {
                    self.lemma_not_eof_not_last();
                }
                self.current = self.current + 1;
                let inner = match self.expression() {
                    Ok(e) => e,
                    Err(e) => {
                        return Err(e);
                    },
                };
                match &self.tokens[self.current].token_type {
                    TokenType::RightParen => {
                        proof {
                            self.lemma_not_eof_not_last();
                        }
                        self.current = self.current + 1;
                        Ok(Expr::Grouping { expression: Box::new(inner) })
                    },
                    _ => Err(
                        ParserError {
                            token: self.tokens[self.current].clone(),
                            message: "Expected ')' after expression.",
                        },
                    ),
                }
            },
            _ => Err(
                ParserError {
                    token: self.tokens[self.current].clone(),
                    message: "Expected expression.",
                },
            ),
        }
    }
}

/// A token that begins a statement-level construct: a safe place to resume
/// parsing after an error.
pub open spec fn is_sync_start(k: SpecTokenType) -> bool {
    ||| k is Class
    ||| k is Fun
    ||| k is Var
    ||| k is For
    ||| k is If
    ||| k is While
    ||| k is Print
    ||| k is Return
}

/// Where synchronization stops when the cursor stands at `i` with the
/// reported token already consumed: the first position whose predecessor is
/// a semicolon or which begins a statement-level construct, or the
/// end-of-input token.
pub open spec fn sync_point(t: Seq<SpecToken>, i: int) -> int
    decreases t.len() - i
        when 1 <= i < t.len()
{
    if !(t[i].token_type is Eof) && !(t[i - 1].token_type is Semicolon) && !is_sync_start(
        t[i].token_type,
    ) && i + 1 < t.len() {
        sync_point(t, i + 1)
    } else {
        i
    }
}

/// Parses the given tokens into one root expression. On success the result
/// is exactly the expression `spec_expression` derives at position 0; on the
/// first syntax error the parse aborts with the offending token and its
/// fixed message.
pub fn parse(tokens: Vec<Token>) -> (r: Result<Expr, ParserError>)
    requires
        wf_token_seq(token_views(tokens@)),
    ensures
        ({
            let t = token_views(tokens@);
            match spec_expression(t, 0) {
                SpecParsed::Parsed { expr, next } => r matches Ok(e) && e@ == expr,
                SpecParsed::Failed { token, message } => r matches Err(pe) && pe.token@ == token
                    && pe.message@ == message,
            }
        }),
{
    let mut parser = Parser { tokens, current: 0 };
    // Reading the length once pins the sequence length within usize range,
    // which bounds the cursor everywhere below.
    let n = parser.tokens.len();
    assert(parser.tokens@.len() == n as nat);
    parser.expression()
}

} // verus!

// ---------------------------------------------------------------------------
// Law: parsing and rendering ignore line numbers
// ---------------------------------------------------------------------------

verus! {

/// Two tokens that agree on everything the parser and the printer read:
/// category and lexeme. Their lines may differ.
pub open spec fn same_reading(a: SpecToken, b: SpecToken) -> bool {
    a.token_type == b.token_type && a.lexeme == b.lexeme
}

/// Two token sequences that agree pairwise on category and lexeme; their
/// lines may differ token by token.
pub open spec fn same_readings(t1: Seq<SpecToken>, t2: Seq<SpecToken>) -> bool {
    &&& t1.len() == t2.len()
    &&& forall|k: int| 0 <= k < t1.len() ==> same_reading(#[trigger] t1[k], t2[k])
}

/// Two expression trees that agree on everything the printer reads: equal
/// shapes and literal values, with operator tokens equal up to their line.
pub open spec fn same_tree(e1: SpecExpr, e2: SpecExpr) -> bool
    decreases e1,
{
    match (e1, e2) {
        (SpecExpr::Literal { value: v1 }, SpecExpr::Literal { value: v2 }) => v1 == v2,
        (SpecExpr::Grouping { expression: a }, SpecExpr::Grouping { expression: b }) => same_tree(
            *a,
            *b,
        ),
        (
            SpecExpr::Unary { operator: o1, right: r1 },
            SpecExpr::Unary { operator: o2, right: r2 },
        ) => same_reading(o1, o2) && same_tree(*r1, *r2),
        (
            SpecExpr::Binary { left: l1, operator: o1, right: r1 },
            SpecExpr::Binary { left: l2, operator: o2, right: r2 },
        ) => same_tree(*l1, *l2) && same_reading(o1, o2) && same_tree(*r1, *r2),
        _ => false,
    }
}

/// Two parse outcomes that correspond: both succeed at the same position
/// with trees the printer cannot tell apart, or both fail with the same
/// message at tokens read the same way.
pub open spec fn matching_results(r1: SpecParsed, r2: SpecParsed) -> bool {
    match (r1, r2) {
        (
            SpecParsed::Parsed { expr: e1, next: n1 },
            SpecParsed::Parsed { expr: e2, next: n2 },
        ) => n1 == n2 && same_tree(e1, e2),
        (
            SpecParsed::Failed { token: k1, message: m1 },
            SpecParsed::Failed { token: k2, message: m2 },
        ) => m1 == m2 && same_reading(k1, k2),
        _ => false,
    }
}

/// Trees the printer cannot tell apart render to the same text.
pub proof fn lemma_same_tree_render(e1: SpecExpr, e2: SpecExpr)
    requires
        same_tree(e1, e2),
    ensures
        crate::syntax::spec_render(e1) == crate::syntax::spec_render(e2),
    decreases e1,
{
    match (e1, e2) {
        (SpecExpr::Grouping { expression: a }, SpecExpr::Grouping { expression: b }) => {
            lemma_same_tree_render(*a, *b);
        },
        (
            SpecExpr::Unary { operator: o1, right: r1 },
            SpecExpr::Unary { operator: o2, right: r2 },
        ) => {
            lemma_same_tree_render(*r1, *r2);
        },
        (
            SpecExpr::Binary { left: l1, operator: o1, right: r1 },
            SpecExpr::Binary { left: l2, operator: o2, right: r2 },
        ) => {
            lemma_same_tree_render(*l1, *l2);
            lemma_same_tree_render(*r1, *r2);
        },
        _ => {},
    }
}

proof fn lemma_primary_same(t1: Seq<SpecToken>, t2: Seq<SpecToken>, i: int)
    requires
        same_readings(t1, t2),
    ensures
        matching_results(spec_primary(t1, i), spec_primary(t2, i)),
    decreases t1.len() - i, 0int,
{
    if 0 <= i < t1.len() {
        assert(same_reading(t1[i], t2[i]));
        if t1[i].token_type is LeftParen {
            lemma_expression_same(t1, t2, i + 1);
            match spec_expression(t1, i + 1) {
                SpecParsed::Parsed { expr, next } => {
                    if 0 <= next < t1.len() {
                        assert(same_reading(t1[next], t2[next]));
                    }
                },
                SpecParsed::Failed { token, message } => {},
            }
        }
    }
}

proof fn lemma_unary_same(t1: Seq<SpecToken>, t2: Seq<SpecToken>, i: int)
    requires
        same_readings(t1, t2),
    ensures
        matching_results(spec_unary(t1, i), spec_unary(t2, i)),
    decreases t1.len() - i, 1int,
{
    if 0 <= i < t1.len() {
        assert(same_reading(t1[i], t2[i]));
    }
    if 0 <= i < t1.len() && (t1[i].token_type is Bang || t1[i].token_type is Minus) {
        lemma_unary_same(t1, t2, i + 1);
    } else {
        lemma_primary_same(t1, t2, i);
    }
}

proof fn lemma_multiplication_same(t1: Seq<SpecToken>, t2: Seq<SpecToken>, i: int)
    requires
        same_readings(t1, t2),
    ensures
        matching_results(spec_multiplication(t1, i), spec_multiplication(t2, i)),
    decreases t1.len() - i, 2int,
{
    lemma_unary_same(t1, t2, i);
    match spec_unary(t1, i) {
        SpecParsed::Parsed { expr, next } => {
            if i < next <= t1.len() {
                match spec_unary(t2, i) {
                    SpecParsed::Parsed { expr: expr2, next: next2 } => {
                        lemma_mult_rest_same(t1, t2, next, expr, expr2);
                    },
                    SpecParsed::Failed { token, message } => {},
                }
            }
        },
        SpecParsed::Failed { token, message } => {},
    }
}

proof fn lemma_mult_rest_same(
    t1: Seq<SpecToken>,
    t2: Seq<SpecToken>,
    i: int,
    acc1: SpecExpr,
    acc2: SpecExpr,
)
    requires
        same_readings(t1, t2),
        same_tree(acc1, acc2),
    ensures
        matching_results(spec_mult_rest(t1, i, acc1), spec_mult_rest(t2, i, acc2)),
    decreases t1.len() - i, 2int,
{
    if 0 <= i < t1.len() {
        assert(same_reading(t1[i], t2[i]));
    }
    if 0 <= i < t1.len() && (t1[i].token_type is Slash || t1[i].token_type is Star) {
        lemma_unary_same(t1, t2, i + 1);
        match spec_unary(t1, i + 1) {
            SpecParsed::Parsed { expr, next } => {
                if i < next <= t1.len() {
                    match spec_unary(t2, i + 1) {
                        SpecParsed::Parsed { expr: expr2, next: next2 } => {
                            lemma_mult_rest_same(
                                t1,
                                t2,
                                next,
                                SpecExpr::Binary {
                                    left: Box::new(acc1),
                                    operator: t1[i],
                                    right: Box::new(expr),
                                },
                                SpecExpr::Binary {
                                    left: Box::new(acc2),
                                    operator: t2[i],
                                    right: Box::new(expr2),
                                },
                            );
                        },
                        SpecParsed::Failed { token, message } => {},
                    }
                }
            },
            SpecParsed::Failed { token, message } => {},
        }
    }
}

proof fn lemma_addition_same(t1: Seq<SpecToken>, t2: Seq<SpecToken>, i: int)
    requires
        same_readings(t1, t2),
    ensures
        matching_results(spec_addition(t1, i), spec_addition(t2, i)),
    decreases t1.len() - i, 3int,
{
    lemma_multiplication_same(t1, t2, i);
    match spec_multiplication(t1, i) {
        SpecParsed::Parsed { expr, next } => {
            if i < next <= t1.len() {
                match spec_multiplication(t2, i) {
                    SpecParsed::Parsed { expr: expr2, next: next2 } => {
                        lemma_add_rest_same(t1, t2, next, expr, expr2);
                    },
                    SpecParsed::Failed { token, message } => {},
                }
            }
        },
        SpecParsed::Failed { token, message } => {},
    }
}

proof fn lemma_add_rest_same(
    t1: Seq<SpecToken>,
    t2: Seq<SpecToken>,
    i: int,
    acc1: SpecExpr,
    acc2: SpecExpr,
)
    requires
        same_readings(t1, t2),
        same_tree(acc1, acc2),
    ensures
        matching_results(spec_add_rest(t1, i, acc1), spec_add_rest(t2, i, acc2)),
    decreases t1.len() - i, 3int,
{
    if 0 <= i < t1.len() {
        assert(same_reading(t1[i], t2[i]));
    }
    if 0 <= i < t1.len() && (t1[i].token_type is Minus || t1[i].token_type is Plus) {
        lemma_multiplication_same(t1, t2, i + 1);
        match spec_multiplication(t1, i + 1) {
            SpecParsed::Parsed { expr, next } => {
                if i < next <= t1.len() {
                    match spec_multiplication(t2, i + 1) {
                        SpecParsed::Parsed { expr: expr2, next: next2 } => {
                            lemma_add_rest_same(
                                t1,
                                t2,
                                next,
                                SpecExpr::Binary {
                                    left: Box::new(acc1),
                                    operator: t1[i],
                                    right: Box::new(expr),
                                },
                                SpecExpr::Binary {
                                    left: Box::new(acc2),
                                    operator: t2[i],
                                    right: Box::new(expr2),
                                },
                            );
                        },
                        SpecParsed::Failed { token, message } => {},
                    }
                }
            },
            SpecParsed::Failed { token, message } => {},
        }
    }
}

proof fn lemma_comparison_same(t1: Seq<SpecToken>, t2: Seq<SpecToken>, i: int)
    requires
        same_readings(t1, t2),
    ensures
        matching_results(spec_comparison(t1, i), spec_comparison(t2, i)),
    decreases t1.len() - i, 4int,
{
    lemma_addition_same(t1, t2, i);
    match spec_addition(t1, i) {
        SpecParsed::Parsed { expr, next } => {
            if i < next <= t1.len() {
                match spec_addition(t2, i) {
                    SpecParsed::Parsed { expr: expr2, next: next2 } => {
                        lemma_comp_rest_same(t1, t2, next, expr, expr2);
                    },
                    SpecParsed::Failed { token, message } => {},
                }
            }
        },
        SpecParsed::Failed { token, message } => {},
    }
}

proof fn lemma_comp_rest_same(
    t1: Seq<SpecToken>,
    t2: Seq<SpecToken>,
    i: int,
    acc1: SpecExpr,
    acc2: SpecExpr,
)
    requires
        same_readings(t1, t2),
        same_tree(acc1, acc2),
    ensures
        matching_results(spec_comp_rest(t1, i, acc1), spec_comp_rest(t2, i, acc2)),
    decreases t1.len() - i, 4int,
{
    if 0 <= i < t1.len() {
        assert(same_reading(t1[i], t2[i]));
    }
    if 0 <= i < t1.len() && is_comparison_op(t1[i].token_type) {
        lemma_addition_same(t1, t2, i + 1);
        match spec_addition(t1, i + 1) {
            SpecParsed::Parsed { expr, next } => {
                if i < next <= t1.len() {
                    match spec_addition(t2, i + 1) {
                        SpecParsed::Parsed { expr: expr2, next: next2 } => {
                            lemma_comp_rest_same(
                                t1,
                                t2,
                                next,
                                SpecExpr::Binary {
                                    left: Box::new(acc1),
                                    operator: t1[i],
                                    right: Box::new(expr),
                                },
                                SpecExpr::Binary {
                                    left: Box::new(acc2),
                                    operator: t2[i],
                                    right: Box::new(expr2),
                                },
                            );
                        },
                        SpecParsed::Failed { token, message } => {},
                    }
                }
            },
            SpecParsed::Failed { token, message } => {},
        }
    }
}

proof fn lemma_equality_same(t1: Seq<SpecToken>, t2: Seq<SpecToken>, i: int)
    requires
        same_readings(t1, t2),
    ensures
        matching_results(spec_equality(t1, i), spec_equality(t2, i)),
    decreases t1.len() - i, 5int,
{
    lemma_comparison_same(t1, t2, i);
    match spec_comparison(t1, i) {
        SpecParsed::Parsed { expr, next } => {
            if i < next <= t1.len() {
                match spec_comparison(t2, i) {
                    SpecParsed::Parsed { expr: expr2, next: next2 } => {
                        lemma_eq_rest_same(t1, t2, next, expr, expr2);
                    },
                    SpecParsed::Failed { token, message } => {},
                }
            }
        },
        SpecParsed::Failed { token, message } => {},
    }
}

proof fn lemma_eq_rest_same(
    t1: Seq<SpecToken>,
    t2: Seq<SpecToken>,
    i: int,
    acc1: SpecExpr,
    acc2: SpecExpr,
)
    requires
        same_readings(t1, t2),
        same_tree(acc1, acc2),
    ensures
        matching_results(spec_eq_rest(t1, i, acc1), spec_eq_rest(t2, i, acc2)),
    decreases t1.len() - i, 5int,
{
    if 0 <= i < t1.len() {
        assert(same_reading(t1[i], t2[i]));
    }
    if 0 <= i < t1.len() && (t1[i].token_type is BangEqual || t1[i].token_type is EqualEqual) {
        lemma_comparison_same(t1, t2, i + 1);
        match spec_comparison(t1, i + 1) {
            SpecParsed::Parsed { expr, next } => {
                if i < next <= t1.len() {
                    match spec_comparison(t2, i + 1) {
                        SpecParsed::Parsed { expr: expr2, next: next2 } => {
                            lemma_eq_rest_same(
                                t1,
                                t2,
                                next,
                                SpecExpr::Binary {
                                    left: Box::new(acc1),
                                    operator: t1[i],
                                    right: Box::new(expr),
                                },
                                SpecExpr::Binary {
                                    left: Box::new(acc2),
                                    operator: t2[i],
                                    right: Box::new(expr2),
                                },
                            );
                        },
                        SpecParsed::Failed { token, message } => {},
                    }
                }
            },
            SpecParsed::Failed { token, message } => {},
        }
    }
}

proof fn lemma_expression_same(t1: Seq<SpecToken>, t2: Seq<SpecToken>, i: int)
    requires
        same_readings(t1, t2),
    ensures
        matching_results(spec_expression(t1, i), spec_expression(t2, i)),
    decreases t1.len() - i, 6int,
{
    lemma_equality_same(t1, t2, i);
}

/// Law: what a token sequence parses and renders to does not depend on the
/// tokens' line numbers. Two token sequences whose tokens agree pairwise on
/// category and lexeme parse alike: both to trees that render to the same
/// text with the same position consumed, or both to failures with the same
/// message at tokens read the same way.
pub proof fn lemma_parse_render_ignores_lines(t1: Seq<SpecToken>, t2: Seq<SpecToken>)
    requires
        same_readings(t1, t2),
    ensures
        match (spec_expression(t1, 0), spec_expression(t2, 0)) {
            (
                SpecParsed::Parsed { expr: e1, next: n1 },
                SpecParsed::Parsed { expr: e2, next: n2 },
            ) => n1 == n2 && crate::syntax::spec_render(e1) == crate::syntax::spec_render(e2),
            (
                SpecParsed::Failed { token: k1, message: m1 },
                SpecParsed::Failed { token: k2, message: m2 },
            ) => m1 == m2 && same_reading(k1, k2),
            _ => false,
        },
{
    lemma_expression_same(t1, t2, 0);
    match (spec_expression(t1, 0), spec_expression(t2, 0)) {
        (
            SpecParsed::Parsed { expr: e1, next: n1 },
            SpecParsed::Parsed { expr: e2, next: n2 },
        ) => {
            lemma_same_tree_render(e1, e2);
        },
        _ => {},
    }
}

} // verus!
