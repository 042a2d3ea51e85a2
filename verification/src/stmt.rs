//! Statements: one line of the form `symbol=expression`. Parsing enforces
//! the grammar; execution evaluates the right-hand side and, on success,
//! binds the target symbol.

use crate::expr::{
    add_wf, mul_wf, val_models, vals_model, AddExpr, EvalErr, Expr, Expression, MulExpr, Outcome,
    ParseErr, Val,
};
use crate::symtab::{Symbol, SymbolTable};
use crate::text::{is_symbol, is_symbol_seq, is_val_token, split_on, split_str, trim_str, trimmed};
use vstd::prelude::*;

verus! {

/// A right-hand side that any of the three productions accepts.
pub open spec fn rhs_wf(t: Seq<char>) -> bool {
    is_val_token(t) || add_wf(t) || mul_wf(t)
}

/// A well-formed statement line: exactly one `=`, a symbol on the left
/// (after trimming), and a well-formed expression on the right (after
/// trimming).
pub open spec fn stmt_wf(s: Seq<char>) -> bool {
    &&& split_on(s, '=').len() == 2
    &&& is_symbol_seq(trimmed(split_on(s, '=')[0]))
    &&& rhs_wf(trimmed(split_on(s, '=')[1]))
}

/// Whether the expression `e` is what parsing the right-hand-side text `t`
/// yields. The single-operand production is tried first, then the sum, then
/// the product.
pub open spec fn expr_models(e: Expression, t: Seq<char>) -> bool {
    if is_val_token(t) {
        e matches Expression::Val(v) && val_models(v, t)
    } else if add_wf(t) {
        e matches Expression::Add(a) && vals_model(a.0@, split_on(t, '+'))
    } else if mul_wf(t) {
        e matches Expression::Mul(m) && vals_model(m.0@, split_on(t, '*'))
    } else {
        false
    }
}

/// Whether the statement `st` is what parsing the line `s` yields.
pub open spec fn stmt_models(st: Statement, s: Seq<char>) -> bool {
    &&& st.lhs@ == trimmed(split_on(s, '=')[0])
    &&& expr_models(st.rhs, trimmed(split_on(s, '=')[1]))
}

/// One parsed assignment: the target symbol and the expression whose value
/// it receives. Executing the statement consumes it.
#[derive(Debug)]
pub struct Statement {
    pub lhs: Symbol,
    pub rhs: Expression,
}

impl Statement {
    /// A statement assigning `rhs` to the symbol named `lhs`.
    pub fn new(lhs: &str, rhs: Expression) -> (r: Statement)
        ensures
            r.lhs@ == lhs@,
            r.rhs == rhs,
    {
        Statement { lhs: lhs.to_owned(), rhs }
    }

    /// Evaluates the right-hand side against `ctx`; on success binds the
    /// target symbol to the result, on failure leaves the table untouched
    /// and reports the evaluation error.
    pub fn execute(self, ctx: &mut SymbolTable) -> (r: Result<(), EvalErr>)
        ensures
            self.rhs.outcome(old(ctx)@) matches Outcome::Value(n) ==> r is Ok && final(ctx)@
                == old(ctx)@.insert(self.lhs@, n),
            self.rhs.outcome(old(ctx)@) matches Outcome::Unbound(name) ==> final(ctx)@ == old(
                ctx,
            )@ && (r matches Err(EvalErr::UninitializedVar(s)) && s@ == name),
    {
        match self.rhs.eval(&*ctx) {
            Ok(n) => {
                ctx.insert(self.lhs, n);
                Ok(())
            },
            Err(e) => Err(e),
        }
    }

    /// Parses one line: splits on `=` into exactly two parts, requires the
    /// trimmed left part to be a symbol, and tries the trimmed right part
    /// first as a single operand, then as a sum, then as a product.
    pub fn parse(s: &str) -> (r: Result<Statement, ParseErr>)
        ensures
            r is Ok <==> stmt_wf(s@),
            r matches Ok(st) ==> stmt_models(st, s@),
    {
        let parts = split_str(s, '=');
        if parts.len() != 2 {
            return Err(ParseErr);
        }
        let lhs = trim_str(parts[0]);
        let rhs = trim_str(parts[1]);
        if !is_symbol(lhs) {
            return Err(ParseErr);
        }
        match Val::parse(rhs) {
            Ok(v) => {
                return Ok(Statement { lhs: lhs.to_owned(), rhs: Expression::Val(v) });
            },
            Err(_) => {},
        }
        match AddExpr::parse(rhs) {
            Ok(e) => {
                return Ok(Statement { lhs: lhs.to_owned(), rhs: Expression::Add(e) });
            },
            Err(_) => {},
        }
        match MulExpr::parse(rhs) {
            Ok(e) => {
                return Ok(Statement { lhs: lhs.to_owned(), rhs: Expression::Mul(e) });
            },
            Err(_) => {},
        }
        Err(ParseErr)
    }
}

impl core::str::FromStr for Statement {
    type Err = ParseErr;

    fn from_str(s: &str) -> Result<Statement, ParseErr> {
        Statement::parse(s)
    }
}

} // verus!
