//! The expression tree handed to the downstream parser, with a verified
//! textual rendering (a token is rendered by its lexeme; a number literal
//! by its exact scanned spelling).

use vstd::prelude::*;
use vstd::string::StringExecFns;

use crate::scanner::SpecTokenValue;
use crate::scanner::Token;
use crate::scanner::TokenValue;

verus! {

pub enum Expr {
    Value(TokenValue),
    Grouping(Box<Expr>),
    Unary(Token, Box<Expr>),
    Binary(Box<Expr>, Token, Box<Expr>),
}

/// The textual form of a literal value: a string in quotes, a number by
/// its scanned spelling, `null` for no value.
pub open spec fn value_text(v: SpecTokenValue) -> Seq<char> {
    match v {
        SpecTokenValue::SpecString(s) => "\""@ + s + "\""@,
        SpecTokenValue::SpecNumber(s) => s,
        SpecTokenValue::SpecNone => "null"@,
    }
}

/// The fully parenthesized textual form of an expression; an operator
/// token stands as its lexeme.
pub open spec fn expr_text(e: Expr) -> Seq<char>
    decreases e,
{
    match e {
        Expr::Value(v) => value_text(v@),
        Expr::Grouping(inner) => "(group "@ + expr_text(*inner) + ")"@,
        Expr::Unary(t, inner) => "("@ + t.lexeme@ + expr_text(*inner) + ")"@,
        Expr::Binary(lhs, t, rhs) => "("@ + expr_text(*lhs) + " "@ + t.lexeme@ + " "@ + expr_text(
            *rhs,
        ) + ")"@,
    }
}

impl Expr {
    /// Renders this expression as `expr_text` describes.
    pub fn render(&self) -> (s: String)
        ensures
            s@ == expr_text(*self),
        decreases *self,
    {
        match self {
            Expr::Value(v) => {
                match v {
                    TokenValue::String(text) => {
                        let mut s = String::from_str("\"");
                        s.append(text.as_str());
                        s.append("\"");
                        proof {
                            assert(s@ =~= expr_text(*self));
                        }
                        s
                    },
                    TokenValue::Number(text) => String::from_str(text.as_str()),
                    TokenValue::Empty => String::from_str("null"),
                }
            },
            Expr::Grouping(inner) => {
                let mut s = String::from_str("(group ");
                let body = inner.render();
                s.append(body.as_str());
                s.append(")");
                proof {
                    assert(s@ =~= expr_text(*self));
                }
                s
            },
            Expr::Unary(t, inner) => {
                let mut s = String::from_str("(");
                s.append(t.lexeme.as_str());
                let body = inner.render();
                s.append(body.as_str());
                s.append(")");
                proof {
                    assert(s@ =~= expr_text(*self));
                }
                s
            },
            Expr::Binary(lhs, t, rhs) => {
                let mut s = String::from_str("(");
                let left = lhs.render();
                s.append(left.as_str());
                s.append(" ");
                s.append(t.lexeme.as_str());
                s.append(" ");
                let right = rhs.render();
                s.append(right.as_str());
                s.append(")");
                proof {
                    assert(s@ =~= expr_text(*self));
                }
                s
            },
        }
    }
}

} // verus!
