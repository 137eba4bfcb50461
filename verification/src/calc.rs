//! Calculations: when a query is taken for an expression, how it is
//! prepared, and what is shown for its value.
use vstd::prelude::*;
use vstd::string::StringExecFns;
use vstd::utf8::encode_utf8;

use crate::text::{chars_of, contains_char, string_from_chars, strip_prefix_char, strip_prefix_of};

verus! {

/// The prefix that restricts a query to calculations.
pub const CALC_PREFIX: char = '=';

/// The characters of an operator; a query with none of them is a constant
/// and is not calculated.
pub open spec fn is_operand(c: char) -> bool {
    c == '+' || c == '-' || c == '*' || c == '/' || c == '^' || c == '%' || c == '<' || c == '>'
        || c == '=' || c == '&' || c == '|'
}

pub open spec fn has_operand(q: Seq<char>) -> bool {
    exists|i: int| 0 <= i < q.len() && is_operand(#[trigger] q[i])
}

/// The expression that `query` asks to evaluate: none where, without its
/// prefix, it has fewer than two UTF-8 bytes or no operator. A division
/// without a `.` gets a trailing `.`, so that it is evaluated in floating point.
pub open spec fn calc_expression_of(query: Seq<char>) -> Option<Seq<char>> {
    let q = strip_prefix_char(query, CALC_PREFIX);
    if encode_utf8(q).len() < 2 || !has_operand(q) {
        None
    } else if q.contains('/') && !q.contains('.') {
        Some(q.push('.'))
    } else {
        Some(q)
    }
}

proof fn lemma_encode_len(q: Seq<char>)
    ensures
        encode_utf8(q).len() >= q.len(),
    decreases q.len(),
{
    if q.len() > 0 {
        lemma_encode_len(q.drop_first());
    }
}

/// Fewer than two UTF-8 bytes: no character, or one ASCII character.
proof fn lemma_utf8_len(q: Seq<char>)
    ensures
        (encode_utf8(q).len() < 2) == (q.len() == 0 || (q.len() == 1 && (q[0] as u32) < 0x80)),
{
    lemma_encode_len(q);
    if q.len() == 1 {
        assert(q.drop_first().len() == 0);
        assert(encode_utf8(q) == vstd::utf8::encode_scalar(q[0] as u32) + encode_utf8(
            q.drop_first(),
        ));
    }
}

fn operand_in(q: &Vec<char>) -> (r: bool)
    ensures
        r == has_operand(q@),
{
    let mut i: usize = 0;
    while i < q.len()
        invariant
            i <= q.len(),
            forall|k: int| 0 <= k < i ==> !is_operand(#[trigger] q@[k]),
        decreases q.len() - i,
    {
        let c = q[i];
        if c == '+' || c == '-' || c == '*' || c == '/' || c == '^' || c == '%' || c == '<' || c
            == '>' || c == '=' || c == '&' || c == '|' {
            return true;
        }
        i = i + 1;
    }
    false
}

/// The expression to evaluate for `query`, if it asks for one.
pub fn calc_expression(query: &str) -> (r: Option<String>)
    ensures
        match r {
            Some(e) => calc_expression_of(query@) == Some(e@),
            None => calc_expression_of(query@) is None,
        },
{
    let q = strip_prefix_of(&chars_of(query), CALC_PREFIX);
    let qs = string_from_chars(&q);
    proof {
        lemma_utf8_len(q@);
    }
    let short = q.len() == 0 || (q.len() == 1 && (q[0] as u32) < 0x80);
    if short || !operand_in(&q) {
        return None;
    }
    if contains_char(&q, '/') && !contains_char(&q, '.') {
        let mut e = q.clone();
        e.push('.');
        Some(string_from_chars(&e))
    } else {
        Some(qs)
    }
}

/// What evaluating an expression gives.
#[derive(Debug, Clone)]
pub enum Evaluation {
    /// The expression could not be evaluated.
    Failed,
    /// It evaluated to the empty value.
    Empty,
    /// It evaluated to a value, written out.
    Value(String),
}

pub enum Evaluated {
    Failed,
    Empty,
    Value(Seq<char>),
}

impl View for Evaluation {
    type V = Evaluated;

    open spec fn view(&self) -> Evaluated {
        match self {
            Evaluation::Failed => Evaluated::Failed,
            Evaluation::Empty => Evaluated::Empty,
            Evaluation::Value(s) => Evaluated::Value(s@),
        }
    }
}

/// What `evalexpr::eval` gives for an expression: an error, the empty
/// value, or a value with its `Display` text.
pub uninterp spec fn evalexpr_outcome(expr: Seq<char>) -> Evaluated;

/// Calls `evalexpr::eval` and tells its error, its empty value and any
/// other value (written with `Display`) apart; the result is
/// `evalexpr_outcome` of the expression.
#[verifier::external_body]
fn evaluate(expr: &str) -> (r: Evaluation)
    ensures
        r@ == evalexpr_outcome(expr@),
{
    match evalexpr::eval(expr) {
        Ok(evalexpr::Value::Empty) => Evaluation::Empty,
        Ok(v) => Evaluation::Value(v.to_string()),
        Err(_) => Evaluation::Failed,
    }
}

/// A calculation to show: its value above, the query below.
#[derive(Debug, Clone)]
pub struct Calculation {
    pub result: String,
    pub expression: String,
}

/// What is shown for `query` once its expression evaluated to `outcome`:
/// the value and the query without its prefix, where there is a value.
pub open spec fn calculation_of(query: Seq<char>, outcome: Evaluated) -> Option<(Seq<char>, Seq<char>)> {
    match calc_expression_of(query) {
        None => None,
        Some(_) => match outcome {
            Evaluated::Value(v) => Some((v, strip_prefix_char(query, CALC_PREFIX))),
            _ => None,
        },
    }
}

pub open spec fn calc_view(c: Option<Calculation>) -> Option<(Seq<char>, Seq<char>)> {
    match c {
        Some(c) => Some((c.result@, c.expression@)),
        None => None,
    }
}

/// The calculation shown for `query` where its expression evaluated to `outcome`.
pub fn calculation_from(query: &str, outcome: &Evaluation) -> (r: Option<Calculation>)
    ensures
        calc_view(r) == calculation_of(query@, outcome@),
{
    if calc_expression(query).is_none() {
        return None;
    }
    match outcome {
        Evaluation::Value(v) => Some(
            Calculation {
                result: v.clone(),
                expression: string_from_chars(&strip_prefix_of(&chars_of(query), CALC_PREFIX)),
            },
        ),
        _ => None,
    }
}

/// The calculation shown for `query`, if any: its expression is evaluated
/// and the outcome shown as `calculation_of` says.
pub fn calculate(query: &str) -> (r: Option<Calculation>)
    ensures
        match calc_expression_of(query@) {
            None => r is None,
            Some(e) => calc_view(r) == calculation_of(query@, evalexpr_outcome(e)),
        },
{
    match calc_expression(query) {
        None => None,
        Some(e) => {
            let outcome = evaluate(e.as_str());
            calculation_from(query, &outcome)
        },
    }
}

/// A calculation is shown only for a query that holds an operator.
pub proof fn law_constants_not_calculated(query: Seq<char>, outcome: Evaluated)
    requires
        !has_operand(strip_prefix_char(query, CALC_PREFIX)),
    ensures
        calculation_of(query, outcome) is None,
{
}

/// Each of `+ - * / ^ % < > = & |` is an operator.
pub open spec fn is_operator_symbol(c: char) -> bool {
    ||| c == '+'
    ||| c == '-'
    ||| c == '*'
    ||| c == '/'
    ||| c == '^'
    ||| c == '%'
    ||| c == '<'
    ||| c == '>'
    ||| c == '='
    ||| c == '&'
    ||| c == '|'
}

/// A query whose text after the `=` prefix has at least two UTF-8 bytes and
/// holds any of `+ - * / ^ % < > = & |`, at any position, is an expression:
/// that text, with a `.` appended where it divides and has no `.`.
pub proof fn law_operators_calculated(query: Seq<char>, i: int)
    requires
        encode_utf8(strip_prefix_char(query, '=')).len() >= 2,
        0 <= i < strip_prefix_char(query, '=').len(),
        is_operator_symbol(strip_prefix_char(query, '=')[i]),
    ensures
        calc_expression_of(query) == Some(
            if strip_prefix_char(query, '=').contains('/') && !strip_prefix_char(
                query,
                '=',
            ).contains('.') {
                strip_prefix_char(query, '=').push('.')
            } else {
                strip_prefix_char(query, '=')
            },
        ),
{
    let q = strip_prefix_char(query, '=');
    assert(is_operand(q[i]));
}

/// A query whose text after the `=` prefix holds none of
/// `+ - * / ^ % < > = & |` is a constant: it is not calculated.
pub proof fn law_no_operator_no_expression(query: Seq<char>)
    requires
        forall|i: int|
            0 <= i < strip_prefix_char(query, '=').len() ==> !is_operator_symbol(
                #[trigger] strip_prefix_char(query, '=')[i],
            ),
    ensures
        calc_expression_of(query) is None,
{
    let q = strip_prefix_char(query, '=');
    assert forall|i: int| 0 <= i < q.len() implies !is_operand(#[trigger] q[i]) by {
        assert(!is_operator_symbol(q[i]));
    }
}

} // verus!
