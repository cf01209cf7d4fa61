//! The conditions of `if`: truth of one operand, comparison of two.
use super::ast::{CondView, ExprView, Expression, IfExpr, Op};
use super::error::{RenderFault, TemplusError};
use crate::text::{parse_i64, parse_integer, same_text};
use crate::value::{field, Value, ValueView};
use vstd::prelude::*;

verus! {

/// The value that a literal stands for on the right of a comparison:
/// the boolean that it names, or the integer that it spells, or else
/// itself as a string.
pub open spec fn literal_value(text: Seq<char>) -> ValueView {
    if text == "true"@ {
        ValueView::Bool(true)
    } else if text == "false"@ {
        ValueView::Bool(false)
    } else {
        match parse_integer(text) {
            Some(n) => ValueView::Number(n),
            None => ValueView::String(text),
        }
    }
}

/// `left op right` on integers.
pub open spec fn number_holds(left: i64, op: Op, right: i64) -> bool {
    match op {
        Op::Eq => left == right,
        Op::Neq => left != right,
        Op::Gt => left > right,
        Op::Gte => left >= right,
        Op::Lt => left < right,
        Op::Lte => left <= right,
    }
}

/// A comparison whose left side is the integer `left`: the right side has
/// to be an integer too.
pub open spec fn number_test(left: i64, op: Op, right: ValueView) -> Result<bool, TemplusError> {
    match right {
        ValueView::Number(n) => Ok(number_holds(left, op, n)),
        ValueView::OtherNumber => Err(TemplusError::RenderError(RenderFault::NotAnInteger)),
        _ => Err(TemplusError::RenderError(RenderFault::TypeMismatch)),
    }
}

/// A comparison whose left side is the boolean `left`: the right side has
/// to be a boolean too, and the operator `==` or `!=`.
pub open spec fn bool_test(left: bool, op: Op, right: ValueView) -> Result<bool, TemplusError> {
    match right {
        ValueView::Bool(b) => match op {
            Op::Eq => Ok(left == b),
            Op::Neq => Ok(left != b),
            _ => Err(TemplusError::RenderError(RenderFault::UnsupportedOperator)),
        },
        _ => Err(TemplusError::RenderError(RenderFault::TypeMismatch)),
    }
}

/// A comparison whose left side is the string `left`: the right side has
/// to be a string too, and the operator `==` or `!=`.
pub open spec fn string_test(left: Seq<char>, op: Op, right: ValueView) -> Result<
    bool,
    TemplusError,
> {
    match right {
        ValueView::String(s) => match op {
            Op::Eq => Ok(left == s),
            Op::Neq => Ok(left != s),
            _ => Err(TemplusError::RenderError(RenderFault::UnsupportedOperator)),
        },
        _ => Err(TemplusError::RenderError(RenderFault::TypeMismatch)),
    }
}

/// A comparison of two values. The type of the left value decides how the
/// two are compared; null, arrays and objects are not compared at all.
pub open spec fn compare(left: ValueView, op: Op, right: ValueView) -> Result<bool, TemplusError> {
    match left {
        ValueView::Bool(b) => bool_test(b, op, right),
        ValueView::Number(n) => number_test(n, op, right),
        ValueView::String(s) => string_test(s, op, right),
        ValueView::OtherNumber => Err(TemplusError::RenderError(RenderFault::NotAnInteger)),
        _ => Err(TemplusError::RenderError(RenderFault::NotComparable)),
    }
}

/// Whether a field counts as true: a missing field and null do not, a
/// boolean is itself, a number is true unless it is 0, a string and an
/// array unless they are empty, and an object always.
pub open spec fn truthy(value: Option<ValueView>) -> Result<bool, TemplusError> {
    match value {
        None => Ok(false),
        Some(ValueView::Null) => Ok(false),
        Some(ValueView::Bool(b)) => Ok(b),
        Some(ValueView::Number(n)) => Ok(n != 0),
        Some(ValueView::OtherNumber) => Err(TemplusError::RenderError(RenderFault::NotAnInteger)),
        Some(ValueView::String(s)) => Ok(s.len() > 0),
        Some(ValueView::Array(items)) => Ok(items.len() > 0),
        Some(ValueView::Object(_)) => Ok(true),
    }
}

/// The value of the right operand of a comparison: the field that a
/// variable names, or what a literal stands for.
pub open spec fn right_value(right: ExprView, ctx: ValueView) -> Result<ValueView, TemplusError> {
    match right {
        ExprView::Variable(name) => match field(ctx, name) {
            Some(v) => Ok(v),
            None => Err(TemplusError::RenderError(RenderFault::MissingKey)),
        },
        ExprView::Literal(text) => Ok(literal_value(text)),
        _ => Err(TemplusError::RenderError(RenderFault::MalformedCondition)),
    }
}

/// Whether the condition `cond` holds in the context `ctx`.
///
/// Without an operator, the left operand alone is tested: a variable by
/// [`truthy`], and a literal is always true. With an operator, the left
/// operand has to be a variable whose field exists, and is compared with
/// the right operand by [`compare`].
pub open spec fn holds(cond: CondView, ctx: ValueView) -> Result<bool, TemplusError> {
    match cond.op {
        None => match *cond.left {
            ExprView::Variable(name) => truthy(field(ctx, name)),
            ExprView::Literal(_) => Ok(true),
            _ => Err(TemplusError::RenderError(RenderFault::MalformedCondition)),
        },
        Some(op) => match *cond.left {
            ExprView::Variable(name) => match field(ctx, name) {
                None => Err(TemplusError::RenderError(RenderFault::MissingKey)),
                Some(left) => match cond.right {
                    None => Err(TemplusError::RenderError(RenderFault::MalformedCondition)),
                    Some(right) => match right_value(*right, ctx) {
                        Err(e) => Err(e),
                        Ok(value) => compare(left, op, value),
                    },
                },
            },
            _ => Err(TemplusError::RenderError(RenderFault::MalformedCondition)),
        },
    }
}

/// The value that a literal stands for on the right of a comparison.
fn coerce(text: &String) -> (r: Value)
    ensures
        r@ == literal_value(text@),
{
    if same_text(text.as_str(), "true") {
        Value::Bool(true)
    } else if same_text(text.as_str(), "false") {
        Value::Bool(false)
    } else {
        match parse_i64(text.as_str()) {
            Some(n) => Value::Number(n),
            None => Value::String(text.clone()),
        }
    }
}

/// Compares two values by the type of the left one.
fn weigh(left: &Value, op: &Op, right: &Value) -> (r: Result<bool, TemplusError>)
    ensures
        r == compare(left@, *op, right@),
{
    match left {
        Value::Bool(b) => IfExpr::eval_bool(b, op, right),
        Value::Number(n) => IfExpr::eval_number(*n, op, right),
        Value::String(s) => IfExpr::eval_string(s.as_str(), op, right),
        Value::OtherNumber => Err(TemplusError::RenderError(RenderFault::NotAnInteger)),
        _ => Err(TemplusError::RenderError(RenderFault::NotComparable)),
    }
}

impl IfExpr {
    /// Decides the condition in the context `ctx`.
    pub fn eval(&self, ctx: &Value) -> (r: Result<bool, TemplusError>)
        ensures
            r == holds(self@, ctx@),
    {
        match &self.op {
            Some(op) => match &*self.left {
                Expression::Variable(var_name) => {
                    let left_value = match ctx.get(var_name.as_str()) {
                        Some(v) => v,
                        None => {
                            return Err(TemplusError::RenderError(RenderFault::MissingKey));
                        },
                    };
                    let right_expr = match &self.right {
                        Some(e) => e,
                        None => {
                            return Err(TemplusError::RenderError(RenderFault::MalformedCondition));
                        },
                    };
                    match &**right_expr {
                        Expression::Variable(name) => match ctx.get(name.as_str()) {
                            Some(right_value) => weigh(left_value, op, right_value),
                            None => Err(TemplusError::RenderError(RenderFault::MissingKey)),
                        },
                        Expression::Literal(lit) => {
                            let right_value = coerce(lit);
                            weigh(left_value, op, &right_value)
                        },
                        _ => Err(TemplusError::RenderError(RenderFault::MalformedCondition)),
                    }
                },
                _ => Err(TemplusError::RenderError(RenderFault::MalformedCondition)),
            },
            None => match &*self.left {
                Expression::Variable(var) => match ctx.get(var.as_str()) {
                    Some(v) => match v {
                        Value::Null => Ok(false),
                        Value::Bool(b) => Ok(*b),
                        Value::Number(n) => Ok(*n != 0),
                        Value::OtherNumber => Err(
                            TemplusError::RenderError(RenderFault::NotAnInteger),
                        ),
                        Value::String(s) => Ok(!s.as_str().is_empty()),
                        Value::Array(items) => Ok(items.len() > 0),
                        Value::Object(_) => Ok(true),
                    },
                    None => Ok(false),
                },
                Expression::Literal(_) => Ok(true),
                _ => Err(TemplusError::RenderError(RenderFault::MalformedCondition)),
            },
        }
    }

    /// Compares the integer `left` with `right`.
    pub fn eval_number(left: i64, op: &Op, right: &Value) -> (r: Result<bool, TemplusError>)
        ensures
            r == number_test(left, *op, right@),
    {
        let num = match right {
            Value::Number(num) => *num,
            Value::OtherNumber => {
                return Err(TemplusError::RenderError(RenderFault::NotAnInteger));
            },
            _ => {
                return Err(TemplusError::RenderError(RenderFault::TypeMismatch));
            },
        };
        match op {
            Op::Eq => Ok(left == num),
            Op::Neq => Ok(left != num),
            Op::Gt => Ok(left > num),
            Op::Gte => Ok(left >= num),
            Op::Lt => Ok(left < num),
            Op::Lte => Ok(left <= num),
        }
    }

    /// Compares the boolean `left` with `right`.
    pub fn eval_bool(left: &bool, op: &Op, right: &Value) -> (r: Result<bool, TemplusError>)
        ensures
            r == bool_test(*left, *op, right@),
    {
        let other = match right {
            Value::Bool(b) => *b,
            _ => {
                return Err(TemplusError::RenderError(RenderFault::TypeMismatch));
            },
        };
        match op {
            Op::Eq => Ok(*left == other),
            Op::Neq => Ok(*left != other),
            _ => Err(TemplusError::RenderError(RenderFault::UnsupportedOperator)),
        }
    }

    /// Compares the string `left` with `right`.
    pub fn eval_string(left: &str, op: &Op, right: &Value) -> (r: Result<bool, TemplusError>)
        ensures
            r == string_test(left@, *op, right@),
    {
        let other = match right {
            Value::String(s) => s,
            _ => {
                return Err(TemplusError::RenderError(RenderFault::TypeMismatch));
            },
        };
        match op {
            Op::Eq => Ok(same_text(left, other.as_str())),
            Op::Neq => Ok(!same_text(left, other.as_str())),
            _ => Err(TemplusError::RenderError(RenderFault::UnsupportedOperator)),
        }
    }
}

} // verus!
