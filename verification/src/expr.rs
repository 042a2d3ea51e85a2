//! Expressions: a single operand, a sum of operands, or a product of
//! operands. Each form parses from text and evaluates against a symbol
//! table; the spec-level meaning of an expression is its [`Outcome`].
//!
//! Arithmetic wraps modulo 2^32: the sum and product forms combine their
//! operands left to right with wrapping 32-bit operations.

use crate::symtab::{Symbol, SymbolTable};
use crate::text::{
    digits_val, is_literal, is_symbol, is_symbol_seq, is_val_token, parse_u32, split_on, split_str,
    trim_str, trimmed,
};
use vstd::prelude::*;

verus! {

/// Evaluation failed: the named variable had no binding.
#[derive(PartialEq, Eq, Debug)]
pub enum EvalErr {
    UninitializedVar(Symbol),
}

/// The text did not conform to the grammar.
#[derive(PartialEq, Debug)]
pub struct ParseErr;

/// A parse failure of a sum or product production, naming its one cause.
#[derive(PartialEq, Debug)]
pub enum AddMulParseErr {
    InvalidToken,
}

/// The spec-level result of evaluating an expression against a table:
/// either the value it denotes, or the name of the first operand, in
/// left-to-right order, that is an unbound variable.
pub enum Outcome {
    Value(u32),
    Unbound(Seq<char>),
}

/// Whether the runtime result `r` is the one the outcome `o` calls for.
pub open spec fn matches_outcome(r: Result<u32, EvalErr>, o: Outcome) -> bool {
    match o {
        Outcome::Value(n) => r == Ok::<u32, EvalErr>(n),
        Outcome::Unbound(name) => r matches Err(EvalErr::UninitializedVar(s)) && s@ == name,
    }
}

/// Anything that evaluates against a symbol table.
pub trait Expr {
    /// The spec-level meaning of this expression under the table `st`.
    spec fn outcome(&self, st: Map<Seq<char>, u32>) -> Outcome;

    /// Evaluates the expression. Never mutates the table.
    fn eval(&self, ctx: &SymbolTable) -> (r: Result<u32, EvalErr>)
        ensures
            matches_outcome(r, self.outcome(ctx@)),
    ;
}

/// A single operand: a literal value or a variable reference.
#[derive(PartialEq, Eq, Debug)]
pub enum Val {
    Lit(u32),
    Var(Symbol),
}

/// Whether the operand has a value under `st`: literals always do,
/// variables only when bound.
pub open spec fn val_bound(v: Val, st: Map<Seq<char>, u32>) -> bool {
    match v {
        Val::Lit(_) => true,
        Val::Var(s) => st.contains_key(s@),
    }
}

/// The value of a bound operand under `st`.
pub open spec fn val_value(v: Val, st: Map<Seq<char>, u32>) -> u32 {
    match v {
        Val::Lit(n) => n,
        Val::Var(s) => st[s@],
    }
}

/// The variable name an operand refers to; empty for a literal.
pub open spec fn val_name(v: Val) -> Seq<char> {
    match v {
        Val::Lit(_) => Seq::empty(),
        Val::Var(s) => s@,
    }
}

/// Whether the operand `v` is what parsing the token `t` yields: a literal
/// token gives its decimal value, a symbol token gives a variable with that
/// name.
pub open spec fn val_models(v: Val, t: Seq<char>) -> bool {
    if is_literal(t) {
        v matches Val::Lit(n) && n == digits_val(t)
    } else if is_symbol_seq(t) {
        v matches Val::Var(s) && s@ == t
    } else {
        false
    }
}

impl Expr for Val {
    open spec fn outcome(&self, st: Map<Seq<char>, u32>) -> Outcome {
        match *self {
            Val::Lit(n) => Outcome::Value(n),
            Val::Var(s) => if st.contains_key(s@) {
                Outcome::Value(st[s@])
            } else {
                Outcome::Unbound(s@)
            },
        }
    }

    fn eval(&self, ctx: &SymbolTable) -> (r: Result<u32, EvalErr>) {
        match self {
            Val::Lit(n) => Ok(*n),
            Val::Var(s) => match ctx.get(s.as_str()) {
                Some(v) => Ok(v),
                None => Err(EvalErr::UninitializedVar(s.clone())),
            },
        }
    }
}

impl Val {
    /// Parses one operand token: a decimal literal if the whole token is
    /// digits and fits in 32 bits, else a variable if the token is a single
    /// lowercase letter, else an error. The token is not trimmed here.
    pub fn parse(s: &str) -> (r: Result<Val, ParseErr>)
        ensures
            r is Ok <==> is_val_token(s@),
            r matches Ok(v) ==> val_models(v, s@),
    {
        match parse_u32(s) {
            Some(n) => {
                proof {
                    crate::text::lemma_digits_val_nonneg(s@);
                }
                Ok(Val::Lit(n))
            },
            None => {
                if is_symbol(s) {
                    Ok(Val::Var(s.to_owned()))
                } else {
                    Err(ParseErr)
                }
            },
        }
    }
}

impl core::str::FromStr for Val {
    type Err = ParseErr;

    fn from_str(s: &str) -> Result<Val, ParseErr> {
        Val::parse(s)
    }
}

/// The name of the first operand of `vals`, left to right, that is an
/// unbound variable under `st`; `None` when every operand is bound.
pub open spec fn first_unbound(vals: Seq<Val>, st: Map<Seq<char>, u32>) -> Option<Seq<char>>
    decreases vals.len(),
{
    if vals.len() == 0 {
        None
    } else if !val_bound(vals[0], st) {
        Some(val_name(vals[0]))
    } else {
        first_unbound(vals.drop_first(), st)
    }
}

/// The left-to-right wrapping 32-bit sum of the operands' values.
pub open spec fn sum_wrapped(vals: Seq<Val>, st: Map<Seq<char>, u32>) -> u32
    decreases vals.len(),
{
    if vals.len() == 0 {
        0u32
    } else {
        sum_wrapped(vals.drop_last(), st).wrapping_add(val_value(vals.last(), st))
    }
}

/// The left-to-right wrapping 32-bit product of the operands' values.
pub open spec fn product_wrapped(vals: Seq<Val>, st: Map<Seq<char>, u32>) -> u32
    decreases vals.len(),
{
    if vals.len() == 0 {
        1u32
    } else {
        product_wrapped(vals.drop_last(), st).wrapping_mul(val_value(vals.last(), st))
    }
}

/// Appending an operand leaves an earlier unbound variable in place; with
/// an all-bound prefix the appended operand decides.
pub proof fn lemma_first_unbound_push(vals: Seq<Val>, v: Val, st: Map<Seq<char>, u32>)
    ensures
        first_unbound(vals.push(v), st) == if first_unbound(vals, st) is Some {
            first_unbound(vals, st)
        } else if !val_bound(v, st) {
            Some(val_name(v))
        } else {
            None::<Seq<char>>
        },
    decreases vals.len(),
{
    if vals.len() == 0 {
        assert(vals.push(v)[0] == v);
        assert(vals.push(v).drop_first() =~= Seq::<Val>::empty());
        assert(first_unbound(vals.push(v).drop_first(), st) is None);
        assert(first_unbound(vals, st) is None);
    } else {
        assert(vals.push(v)[0] == vals[0]);
        assert(vals.push(v).drop_first() =~= vals.drop_first().push(v));
        lemma_first_unbound_push(vals.drop_first(), v, st);
    }
}

/// With every operand of `vals` bound, the operand `v` appended at position
/// `vals.len()` is the first unbound one if it is unbound.
pub proof fn lemma_first_unbound_at(vals: Seq<Val>, i: int, st: Map<Seq<char>, u32>)
    requires
        0 <= i < vals.len(),
        first_unbound(vals.take(i), st) is None,
        !val_bound(vals[i], st),
    ensures
        first_unbound(vals, st) == Some(val_name(vals[i])),
    decreases i,
{
    if i == 0 {
        assert(first_unbound(vals, st) == Some(val_name(vals[0])));
    } else {
        assert(vals.take(i)[0] == vals[0]);
        assert(val_bound(vals[0], st));
        assert(vals.take(i).drop_first() =~= vals.drop_first().take(i - 1));
        lemma_first_unbound_at(vals.drop_first(), i - 1, st);
    }
}

/// A flat sum of two or more operands, combined left to right.
#[derive(PartialEq, Eq, Debug)]
pub struct AddExpr(pub Vec<Val>);

/// A flat product of two or more operands, combined left to right.
#[derive(PartialEq, Eq, Debug)]
pub struct MulExpr(pub Vec<Val>);

impl Expr for AddExpr {
    open spec fn outcome(&self, st: Map<Seq<char>, u32>) -> Outcome {
        match first_unbound(self.0@, st) {
            Some(name) => Outcome::Unbound(name),
            None => Outcome::Value(sum_wrapped(self.0@, st)),
        }
    }

    fn eval(&self, ctx: &SymbolTable) -> (r: Result<u32, EvalErr>) {
        let mut acc: u32 = 0;
        let n = self.0.len();
        for i in 0..n
            invariant
                n == self.0@.len(),
                first_unbound(self.0@.take(i as int), ctx@) is None,
                acc == sum_wrapped(self.0@.take(i as int), ctx@),
        {
            proof {
                assert(self.0@.take(i as int + 1) =~= self.0@.take(i as int).push(
                    self.0@[i as int],
                ));
                assert(self.0@.take(i as int + 1).drop_last() =~= self.0@.take(i as int));
                lemma_first_unbound_push(self.0@.take(i as int), self.0@[i as int], ctx@);
            }
            let operand = match &self.0[i] {
                Val::Lit(v) => *v,
                Val::Var(s) => match ctx.get(s.as_str()) {
                    Some(v) => v,
                    None => {
                        proof {
                            lemma_first_unbound_at(self.0@, i as int, ctx@);
                        }
                        return Err(EvalErr::UninitializedVar(s.clone()));
                    },
                },
            };
            acc = acc.wrapping_add(operand);
        }
        proof {
            assert(self.0@.take(n as int) =~= self.0@);
        }
        Ok(acc)
    }
}

impl Expr for MulExpr {
    open spec fn outcome(&self, st: Map<Seq<char>, u32>) -> Outcome {
        match first_unbound(self.0@, st) {
            Some(name) => Outcome::Unbound(name),
            None => Outcome::Value(product_wrapped(self.0@, st)),
        }
    }

    fn eval(&self, ctx: &SymbolTable) -> (r: Result<u32, EvalErr>) {
        let mut acc: u32 = 1;
        let n = self.0.len();
        for i in 0..n
            invariant
                n == self.0@.len(),
                first_unbound(self.0@.take(i as int), ctx@) is None,
                acc == product_wrapped(self.0@.take(i as int), ctx@),
        {
            proof {
                assert(self.0@.take(i as int + 1) =~= self.0@.take(i as int).push(
                    self.0@[i as int],
                ));
                assert(self.0@.take(i as int + 1).drop_last() =~= self.0@.take(i as int));
                lemma_first_unbound_push(self.0@.take(i as int), self.0@[i as int], ctx@);
            }
            let operand = match &self.0[i] {
                Val::Lit(v) => *v,
                Val::Var(s) => match ctx.get(s.as_str()) {
                    Some(v) => v,
                    None => {
                        proof {
                            lemma_first_unbound_at(self.0@, i as int, ctx@);
                        }
                        return Err(EvalErr::UninitializedVar(s.clone()));
                    },
                },
            };
            acc = acc.wrapping_mul(operand);
        }
        proof {
            assert(self.0@.take(n as int) =~= self.0@);
        }
        Ok(acc)
    }
}

/// Whether the operands `vals` are what parsing the split `pieces` yields:
/// one operand per piece, each modelling its trimmed token.
pub open spec fn vals_model(vals: Seq<Val>, pieces: Seq<Seq<char>>) -> bool {
    vals.len() == pieces.len() && forall|i: int|
        0 <= i < vals.len() ==> val_models(vals[i], trimmed(#[trigger] pieces[i]))
}

/// A well-formed sum text: it holds at least one `+`, and every `+`-separated
/// piece trims to a single operand token.
pub open spec fn add_wf(t: Seq<char>) -> bool {
    t.contains('+') && forall|i: int|
        0 <= i < split_on(t, '+').len() ==> is_val_token(trimmed(#[trigger] split_on(t, '+')[i]))
}

/// A well-formed product text: as [`add_wf`], with `*` for `+`.
pub open spec fn mul_wf(t: Seq<char>) -> bool {
    t.contains('*') && forall|i: int|
        0 <= i < split_on(t, '*').len() ==> is_val_token(trimmed(#[trigger] split_on(t, '*')[i]))
}

/// Splits `s` on `sep` and parses every trimmed piece as an operand.
/// Fails unless `s` holds at least one separator and every piece parses.
fn parse_operands(s: &str, sep: char) -> (r: Result<Vec<Val>, ParseErr>)
    ensures
        r is Ok <==> (s@.contains(sep) && forall|i: int|
            0 <= i < split_on(s@, sep).len() ==> is_val_token(
                trimmed(#[trigger] split_on(s@, sep)[i]),
            )),
        r matches Ok(vals) ==> vals_model(vals@, split_on(s@, sep)) && vals@.len() >= 2,
{
    if !crate::text::contains_char(s, sep) {
        return Err(ParseErr);
    }
    proof {
        crate::text::lemma_split_on_contains(s@, sep);
    }
    let pieces = split_str(s, sep);
    let mut vals: Vec<Val> = Vec::new();
    let n = pieces.len();
    for i in 0..n
        invariant
            n == pieces@.len(),
            pieces@.len() == split_on(s@, sep).len(),
            forall|j: int| 0 <= j < n ==> pieces@[j]@ == #[trigger] split_on(s@, sep)[j],
            vals@.len() == i,
            forall|j: int|
                0 <= j < i ==> val_models(vals@[j], trimmed(#[trigger] split_on(s@, sep)[j])),
    {
        let token = trim_str(pieces[i]);
        match Val::parse(token) {
            Ok(v) => vals.push(v),
            Err(_) => {
                assert(!is_val_token(trimmed(split_on(s@, sep)[i as int])));
                return Err(ParseErr);
            },
        }
    }
    Ok(vals)
}

impl AddExpr {
    /// Parses a sum: the text must hold at least one `+`, and every
    /// `+`-separated piece must trim to a single operand token. Text
    /// without `+` fails outright, so the production can be tried and
    /// rejected without effect. A sum always has two or more operands.
    pub fn parse(s: &str) -> (r: Result<AddExpr, ParseErr>)
        ensures
            r is Ok <==> add_wf(s@),
            r matches Ok(e) ==> vals_model(e.0@, split_on(s@, '+')) && e.0@.len() >= 2,
    {
        match parse_operands(s, '+') {
            Ok(vals) => Ok(AddExpr(vals)),
            Err(e) => Err(e),
        }
    }
}

impl MulExpr {
    /// Parses a product: as [`AddExpr::parse`], with `*` for `+`. A product
    /// always has two or more operands.
    pub fn parse(s: &str) -> (r: Result<MulExpr, ParseErr>)
        ensures
            r is Ok <==> mul_wf(s@),
            r matches Ok(e) ==> vals_model(e.0@, split_on(s@, '*')) && e.0@.len() >= 2,
    {
        match parse_operands(s, '*') {
            Ok(vals) => Ok(MulExpr(vals)),
            Err(e) => Err(e),
        }
    }
}

impl core::str::FromStr for AddExpr {
    type Err = ParseErr;

    fn from_str(s: &str) -> Result<AddExpr, ParseErr> {
        AddExpr::parse(s)
    }
}

impl core::str::FromStr for MulExpr {
    type Err = ParseErr;

    fn from_str(s: &str) -> Result<MulExpr, ParseErr> {
        MulExpr::parse(s)
    }
}

/// Every operand is bound exactly when no operand is the first unbound one.
pub proof fn lemma_first_unbound_none_iff(vals: Seq<Val>, st: Map<Seq<char>, u32>)
    ensures
        first_unbound(vals, st) is None <==> forall|i: int|
            0 <= i < vals.len() ==> val_bound(#[trigger] vals[i], st),
    decreases vals.len(),
{
    if vals.len() > 0 {
        lemma_first_unbound_none_iff(vals.drop_first(), st);
        assert(forall|i: int|
            0 < i < vals.len() ==> #[trigger] vals[i] == vals.drop_first()[i - 1]);
    }
}

/// The exact (unbounded) sum of the operands' values.
pub open spec fn sum_values(vals: Seq<Val>, st: Map<Seq<char>, u32>) -> int
    decreases vals.len(),
{
    if vals.len() == 0 {
        0
    } else {
        sum_values(vals.drop_last(), st) + val_value(vals.last(), st)
    }
}

/// The exact (unbounded) product of the operands' values.
pub open spec fn product_values(vals: Seq<Val>, st: Map<Seq<char>, u32>) -> int
    decreases vals.len(),
{
    if vals.len() == 0 {
        1
    } else {
        product_values(vals.drop_last(), st) * val_value(vals.last(), st)
    }
}

/// The wrapping sum is the exact sum reduced modulo 2^32.
pub proof fn lemma_sum_wrapped_is_mod(vals: Seq<Val>, st: Map<Seq<char>, u32>)
    ensures
        sum_values(vals, st) >= 0,
        sum_wrapped(vals, st) == sum_values(vals, st) % 0x1_0000_0000,
    decreases vals.len(),
{
    let m: int = 0x1_0000_0000;
    if vals.len() == 0 {
    } else {
        lemma_sum_wrapped_is_mod(vals.drop_last(), st);
        let prior = sum_values(vals.drop_last(), st);
        let x = val_value(vals.last(), st) as int;
        vstd::arithmetic::div_mod::lemma_add_mod_noop(prior, x, m);
        vstd::arithmetic::div_mod::lemma_small_mod(x as nat, m as nat);
        vstd::arithmetic::div_mod::lemma_mod_bound(prior, m);
        let partial = (prior % m) + x;
        if partial < m {
            vstd::arithmetic::div_mod::lemma_small_mod(partial as nat, m as nat);
        } else {
            vstd::arithmetic::div_mod::lemma_mod_sub_multiples_vanish(partial, m);
            vstd::arithmetic::div_mod::lemma_small_mod((partial - m) as nat, m as nat);
        }
    }
}

/// The wrapping product is the exact product reduced modulo 2^32.
pub proof fn lemma_product_wrapped_is_mod(vals: Seq<Val>, st: Map<Seq<char>, u32>)
    ensures
        product_values(vals, st) >= 0,
        product_wrapped(vals, st) == product_values(vals, st) % 0x1_0000_0000,
    decreases vals.len(),
{
    let m: int = 0x1_0000_0000;
    if vals.len() == 0 {
    } else {
        lemma_product_wrapped_is_mod(vals.drop_last(), st);
        let prior = product_values(vals.drop_last(), st);
        let x = val_value(vals.last(), st) as int;
        vstd::arithmetic::mul::lemma_mul_nonnegative(prior, x);
        vstd::arithmetic::div_mod::lemma_mul_mod_noop_left(prior, x, m);
        vstd::arithmetic::div_mod::lemma_mod_bound(prior, m);
        assert(product_wrapped(vals, st) == ((prior % m) * x) % m);
    }
}

/// The value a single trimmed token denotes under `st`: its decimal value
/// if it is a literal, else the value bound to it.
pub open spec fn token_value(t: Seq<char>, st: Map<Seq<char>, u32>) -> int {
    if is_literal(t) {
        digits_val(t)
    } else {
        st[t] as int
    }
}

/// Every piece that trims to a variable token has a binding in `st`.
pub open spec fn tokens_bound(pieces: Seq<Seq<char>>, st: Map<Seq<char>, u32>) -> bool {
    forall|i: int|
        0 <= i < pieces.len() && is_symbol_seq(trimmed(#[trigger] pieces[i])) ==> st.contains_key(
            trimmed(pieces[i]),
        )
}

/// The exact sum of the values the trimmed pieces denote under `st`.
pub open spec fn tokens_sum(pieces: Seq<Seq<char>>, st: Map<Seq<char>, u32>) -> int
    decreases pieces.len(),
{
    if pieces.len() == 0 {
        0
    } else {
        tokens_sum(pieces.drop_last(), st) + token_value(trimmed(pieces.last()), st)
    }
}

/// The exact product of the values the trimmed pieces denote under `st`.
pub open spec fn tokens_product(pieces: Seq<Seq<char>>, st: Map<Seq<char>, u32>) -> int
    decreases pieces.len(),
{
    if pieces.len() == 0 {
        1
    } else {
        tokens_product(pieces.drop_last(), st) * token_value(trimmed(pieces.last()), st)
    }
}

/// Operands that model all-bound tokens are all bound, and their exact sum
/// and product are those of the tokens.
pub proof fn lemma_vals_follow_tokens(
    vals: Seq<Val>,
    pieces: Seq<Seq<char>>,
    st: Map<Seq<char>, u32>,
)
    requires
        vals_model(vals, pieces),
        tokens_bound(pieces, st),
    ensures
        first_unbound(vals, st) is None,
        sum_values(vals, st) == tokens_sum(pieces, st),
        product_values(vals, st) == tokens_product(pieces, st),
    decreases vals.len(),
{
    lemma_first_unbound_none_iff(vals, st);
    assert forall|i: int| 0 <= i < vals.len() implies val_bound(#[trigger] vals[i], st) by {
        assert(val_models(vals[i], trimmed(pieces[i])));
        if is_literal(trimmed(pieces[i])) {
        } else {
            assert(is_symbol_seq(trimmed(pieces[i])));
        }
    }
    if vals.len() > 0 {
        assert(vals_model(vals.drop_last(), pieces.drop_last())) by {
            assert(forall|i: int|
                0 <= i < vals.len() - 1 ==> #[trigger] vals.drop_last()[i] == vals[i]
                    && pieces.drop_last()[i] == pieces[i]);
        }
        assert(tokens_bound(pieces.drop_last(), st)) by {
            assert(forall|i: int|
                0 <= i < pieces.len() - 1 ==> #[trigger] pieces.drop_last()[i] == pieces[i]);
        }
        lemma_vals_follow_tokens(vals.drop_last(), pieces.drop_last(), st);
        assert(val_models(vals.last(), trimmed(pieces.last())));
        if is_literal(trimmed(pieces.last())) {
            crate::text::lemma_digits_val_nonneg(trimmed(pieces.last()));
        }
        assert(val_value(vals.last(), st) == token_value(trimmed(pieces.last()), st));
    }
}

/// Parsing the decimal text of any 32-bit value gives a literal operand
/// that evaluates to that value under every table.
pub proof fn lemma_literal_round_trip(n: u32, v: Val, st: Map<Seq<char>, u32>)
    requires
        val_models(v, crate::text::dec_digits(n as int)),
    ensures
        is_literal(crate::text::dec_digits(n as int)),
        v.outcome(st) == Outcome::Value(n),
{
    crate::text::lemma_dec_digits(n as int);
}

/// A single-letter token parses to a variable of that name; it evaluates
/// to the table's binding when one exists and reports the name unbound
/// otherwise.
pub proof fn lemma_variable_round_trip(t: Seq<char>, v: Val, st: Map<Seq<char>, u32>)
    requires
        is_symbol_seq(t),
        val_models(v, t),
    ensures
        st.contains_key(t) ==> v.outcome(st) == Outcome::Value(st[t]),
        !st.contains_key(t) ==> v.outcome(st) == Outcome::Unbound(t),
{
    assert(!crate::text::is_literal(t));
}

/// A well-formed sum whose variables are all bound and whose exact sum
/// fits in 32 bits evaluates to the arithmetic sum of its resolved
/// operands, left to right.
pub proof fn lemma_sum_round_trip(e: AddExpr, t: Seq<char>, st: Map<Seq<char>, u32>)
    requires
        add_wf(t),
        vals_model(e.0@, split_on(t, '+')),
        tokens_bound(split_on(t, '+'), st),
        tokens_sum(split_on(t, '+'), st) <= u32::MAX,
    ensures
        e.outcome(st) == Outcome::Value(tokens_sum(split_on(t, '+'), st) as u32),
{
    lemma_vals_follow_tokens(e.0@, split_on(t, '+'), st);
    lemma_sum_wrapped_is_mod(e.0@, st);
    vstd::arithmetic::div_mod::lemma_small_mod(
        sum_values(e.0@, st) as nat,
        0x1_0000_0000nat,
    );
}

/// A well-formed product whose variables are all bound and whose exact
/// product fits in 32 bits evaluates to the arithmetic product of its
/// resolved operands, left to right.
pub proof fn lemma_product_round_trip(e: MulExpr, t: Seq<char>, st: Map<Seq<char>, u32>)
    requires
        mul_wf(t),
        vals_model(e.0@, split_on(t, '*')),
        tokens_bound(split_on(t, '*'), st),
        tokens_product(split_on(t, '*'), st) <= u32::MAX,
    ensures
        e.outcome(st) == Outcome::Value(tokens_product(split_on(t, '*'), st) as u32),
{
    lemma_vals_follow_tokens(e.0@, split_on(t, '*'), st);
    lemma_product_wrapped_is_mod(e.0@, st);
    vstd::arithmetic::div_mod::lemma_small_mod(
        product_values(e.0@, st) as nat,
        0x1_0000_0000nat,
    );
}

/// Text holding both operators is rejected by all three productions: the
/// grammar has no mixed-precedence arithmetic.
pub proof fn lemma_mixed_operators_reject(t: Seq<char>)
    requires
        t.contains('+'),
        t.contains('*'),
    ensures
        !is_val_token(t),
        !add_wf(t),
        !mul_wf(t),
{
    crate::text::lemma_foreign_char_not_val_token(t, '+');
    if add_wf(t) {
        crate::text::lemma_split_on_covers(t, '+', '*');
        let i = choose|i: int|
            0 <= i < split_on(t, '+').len() && #[trigger] split_on(t, '+')[i].contains('*');
        crate::text::lemma_trimmed_keeps(split_on(t, '+')[i], '*');
        crate::text::lemma_foreign_char_not_val_token(trimmed(split_on(t, '+')[i]), '*');
    }
    if mul_wf(t) {
        crate::text::lemma_split_on_covers(t, '*', '+');
        let i = choose|i: int|
            0 <= i < split_on(t, '*').len() && #[trigger] split_on(t, '*')[i].contains('+');
        crate::text::lemma_trimmed_keeps(split_on(t, '*')[i], '+');
        crate::text::lemma_foreign_char_not_val_token(trimmed(split_on(t, '*')[i]), '+');
    }
}

/// A parsed right-hand side: one operand, a sum, or a product.
#[derive(PartialEq, Eq, Debug)]
pub enum Expression {
    Val(Val),
    Add(AddExpr),
    Mul(MulExpr),
}

impl Expr for Expression {
    open spec fn outcome(&self, st: Map<Seq<char>, u32>) -> Outcome {
        match self {
            Expression::Val(v) => v.outcome(st),
            Expression::Add(e) => e.outcome(st),
            Expression::Mul(e) => e.outcome(st),
        }
    }

    fn eval(&self, ctx: &SymbolTable) -> (r: Result<u32, EvalErr>) {
        match self {
            Expression::Val(v) => v.eval(ctx),
            Expression::Add(e) => e.eval(ctx),
            Expression::Mul(e) => e.eval(ctx),
        }
    }
}

} // verus!
