//! Runtime values.

use vstd::prelude::*;
use std::cmp::Ordering;
use crate::callable::Callable;
use crate::err::{ErrorModel, LoxError};
use crate::model::Value;
use crate::number::{is_nan, number_eq, rank, Number};
use crate::text::chars_of;

verus! {

/// A runtime value.
#[derive(Debug)]
pub enum LoxType {
    String(std::string::String),
    Number(Number),
    Nil,
    Boolean(bool),
    Callable(Callable),
}

/// How one value stands to another.
#[derive(Clone, Copy, Debug, PartialEq, Eq, Structural)]
pub enum Order {
    Less,
    Equal,
    Greater,
}

/// The truth of a value: nil is false, a boolean is itself, everything else
/// is true.
pub open spec fn truthy(v: Value) -> bool {
    match v {
        Value::Nil => false,
        Value::Boolean(b) => b,
        _ => true,
    }
}

/// Equality of values: only values of one kind are equal, and a callable is
/// equal to nothing, itself included.
pub open spec fn values_equal(a: Value, b: Value) -> bool {
    match (a, b) {
        (Value::Text(x), Value::Text(y)) => x == y,
        (Value::Number(x), Value::Number(y)) => number_eq(x, y),
        (Value::Nil, Value::Nil) => true,
        (Value::Boolean(x), Value::Boolean(y)) => x == y,
        _ => false,
    }
}

/// The order of two texts from position `i` on, their characters before `i`
/// being the same: by the first character that differs, else by length.
pub open spec fn text_order_from(a: Seq<char>, b: Seq<char>, i: int) -> Order
    decreases a.len() - i,
{
    if i >= a.len() && i >= b.len() {
        Order::Equal
    } else if i >= a.len() {
        Order::Less
    } else if i >= b.len() {
        Order::Greater
    } else if a[i] < b[i] {
        Order::Less
    } else if a[i] > b[i] {
        Order::Greater
    } else {
        text_order_from(a, b, i + 1)
    }
}

/// The lexicographic order of two texts, character by character.
pub open spec fn text_order(a: Seq<char>, b: Seq<char>) -> Order {
    text_order_from(a, b, 0)
}

/// The order of two numbers; a NaN stands in no order to anything.
pub open spec fn number_order(a: u64, b: u64) -> Option<Order> {
    if is_nan(a) || is_nan(b) {
        None
    } else if rank(a) < rank(b) {
        Some(Order::Less)
    } else if rank(a) > rank(b) {
        Some(Order::Greater)
    } else {
        Some(Order::Equal)
    }
}

/// The order of two values: only values of one kind are ordered, and
/// callables never.
pub open spec fn value_order(a: Value, b: Value) -> Option<Order> {
    match (a, b) {
        (Value::Text(x), Value::Text(y)) => Some(text_order(x, y)),
        (Value::Number(x), Value::Number(y)) => number_order(x, y),
        (Value::Nil, Value::Nil) => Some(Order::Equal),
        (Value::Boolean(x), Value::Boolean(y)) => Some(
            if x == y {
                Order::Equal
            } else if y {
                Order::Less
            } else {
                Order::Greater
            },
        ),
        _ => None,
    }
}

/// The error of a failed conversion.
pub open spec fn cast_failure(target: Seq<char>) -> ErrorModel {
    ErrorModel { message: "Failed to cast LoxType into "@ + target, line: 0 }
}

fn cast_error(target: &str) -> (e: LoxError)
    ensures
        e@ == cast_failure(target@),
{
    let mut message = "Failed to cast LoxType into ".to_owned();
    crate::text::push_text(&mut message, target);
    LoxError::new(message, 0)
}

/// The order of two texts.
pub fn compare_text(a: &str, b: &str) -> (r: Order)
    ensures
        r == text_order(a@, b@),
{
    let x = chars_of(a);
    let y = chars_of(b);
    let mut i: usize = 0;
    loop
        invariant
            x@ == a@,
            y@ == b@,
            i <= x.len(),
            i <= y.len(),
            text_order(a@, b@) == text_order_from(a@, b@, i as int),
        decreases x.len() - i,
    {
        if i >= x.len() && i >= y.len() {
            return Order::Equal;
        } else if i >= x.len() {
            return Order::Less;
        } else if i >= y.len() {
            return Order::Greater;
        } else if x[i] < y[i] {
            return Order::Less;
        } else if x[i] > y[i] {
            return Order::Greater;
        }
        i += 1;
    }
}

impl LoxType {
    /// The truth of this value.
    pub fn truthy(&self) -> (r: bool)
        ensures
            r == truthy(self@),
    {
        match self {
            LoxType::Nil => false,
            LoxType::Boolean(b) => *b,
            _ => true,
        }
    }

    /// Whether this value equals `other`.
    pub fn equals(&self, other: &LoxType) -> (r: bool)
        ensures
            r == values_equal(self@, other@),
    {
        match (self, other) {
            (LoxType::String(s), LoxType::String(o)) => *s == *o,
            (LoxType::Number(s), LoxType::Number(o)) => s.equals(o),
            (LoxType::Nil, LoxType::Nil) => true,
            (LoxType::Boolean(s), LoxType::Boolean(o)) => *s == *o,
            _ => false,
        }
    }

    /// How this value stands to `other`, if they are ordered.
    pub fn order(&self, other: &LoxType) -> (r: Option<Order>)
        ensures
            r == value_order(self@, other@),
    {
        match (self, other) {
            (LoxType::String(s), LoxType::String(o)) => Some(compare_text(s.as_str(), o.as_str())),
            (LoxType::Number(s), LoxType::Number(o)) => {
                if s.is_nan() || o.is_nan() {
                    None
                } else if s.less(o) {
                    Some(Order::Less)
                } else if o.less(s) {
                    Some(Order::Greater)
                } else {
                    Some(Order::Equal)
                }
            },
            (LoxType::Nil, LoxType::Nil) => Some(Order::Equal),
            (LoxType::Boolean(s), LoxType::Boolean(o)) => Some(
                if *s == *o {
                    Order::Equal
                } else if *o {
                    Order::Less
                } else {
                    Order::Greater
                },
            ),
            _ => None,
        }
    }

    /// The number that this value is; any other value is an error.
    pub fn into_number(self) -> (r: Result<Number, LoxError>)
        ensures
            match r {
                Ok(n) => self@ == Value::Number(n.bits),
                Err(e) => !(self@ is Number) && e@ == cast_failure("f64"@),
            },
    {
        if let LoxType::Number(n) = self {
            Ok(n)
        } else {
            Err(cast_error("f64"))
        }
    }

    /// The text that this value is; any other value is an error.
    pub fn into_text(self) -> (r: Result<std::string::String, LoxError>)
        ensures
            match r {
                Ok(s) => self@ == Value::Text(s@),
                Err(e) => !(self@ is Text) && e@ == cast_failure("String"@),
            },
    {
        if let LoxType::String(s) = self {
            Ok(s)
        } else {
            Err(cast_error("String"))
        }
    }

    /// The boolean that this value is; any other value is an error.
    pub fn into_boolean(self) -> (r: Result<bool, LoxError>)
        ensures
            match r {
                Ok(b) => self@ == Value::Boolean(b),
                Err(e) => !(self@ is Boolean) && e@ == cast_failure("bool"@),
            },
    {
        if let LoxType::Boolean(b) = self {
            Ok(b)
        } else {
            Err(cast_error("bool"))
        }
    }

    /// Succeeds on nil; any other value is an error.
    pub fn into_nil(self) -> (r: Result<(), LoxError>)
        ensures
            match r {
                Ok(_) => self@ == Value::Nil,
                Err(e) => !(self@ is Nil) && e@ == cast_failure("()"@),
            },
    {
        if let LoxType::Nil = self {
            Ok(())
        } else {
            Err(cast_error("()"))
        }
    }
}

impl PartialEq for LoxType {
    fn eq(&self, other: &LoxType) -> (r: bool) {
        self.equals(other)
    }
}

impl vstd::std_specs::cmp::PartialEqSpecImpl for LoxType {
    open spec fn obeys_eq_spec() -> bool {
        true
    }

    open spec fn eq_spec(&self, other: &LoxType) -> bool {
        values_equal(self@, other@)
    }
}

impl PartialOrd for LoxType {
    fn partial_cmp(&self, other: &LoxType) -> (r: Option<Ordering>) {
        match self.order(other) {
            Some(Order::Less) => Some(Ordering::Less),
            Some(Order::Equal) => Some(Ordering::Equal),
            Some(Order::Greater) => Some(Ordering::Greater),
            None => None,
        }
    }
}

impl vstd::std_specs::cmp::PartialOrdSpecImpl for LoxType {
    open spec fn obeys_partial_cmp_spec() -> bool {
        true
    }

    open spec fn partial_cmp_spec(&self, other: &LoxType) -> Option<Ordering> {
        match value_order(self@, other@) {
            Some(Order::Less) => Some(Ordering::Less),
            Some(Order::Equal) => Some(Ordering::Equal),
            Some(Order::Greater) => Some(Ordering::Greater),
            None => None,
        }
    }
}

impl Clone for LoxType {
    fn clone(&self) -> (r: LoxType)
        ensures
            r@ == self@,
    {
        match self {
            LoxType::String(s) => LoxType::String(s.clone()),
            LoxType::Number(n) => LoxType::Number(*n),
            LoxType::Nil => LoxType::Nil,
            LoxType::Boolean(b) => LoxType::Boolean(*b),
            LoxType::Callable(c) => LoxType::Callable(c.clone()),
        }
    }
}

} // verus!
