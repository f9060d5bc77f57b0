//! Runtime values and the operations the machine performs on them.

use crate::error::{ErrorView, VMError};
use vstd::prelude::*;
use vstd::string::*;

verus! {

/// A value as the machine holds it on its stack and in its variables.
#[derive(Debug)]
pub enum Value {
    Number(i32),
    Boolean(bool),
    Array(Vec<Value>),
    Null,
}

/// The mathematical content of a [`Value`]: an array is a sequence.
pub enum ValueView {
    Number(i32),
    Boolean(bool),
    Array(Seq<ValueView>),
    Null,
}

impl View for Value {
    type V = ValueView;

    open spec fn view(&self) -> ValueView
        decreases self,
    {
        match self {
            Value::Number(n) => ValueView::Number(*n),
            Value::Boolean(b) => ValueView::Boolean(*b),
            Value::Array(items) => ValueView::Array(views(items@)),
            Value::Null => ValueView::Null,
        }
    }
}

/// The views of a sequence of values, item by item.
pub open spec fn views(items: Seq<Value>) -> Seq<ValueView>
    decreases items,
{
    if items.len() == 0 {
        Seq::empty()
    } else {
        views(items.drop_last()).push(items.last()@)
    }
}

/// `views` keeps the length and views each item in place.
pub proof fn lemma_views(items: Seq<Value>)
    ensures
        views(items).len() == items.len(),
        forall|i: int| 0 <= i < items.len() ==> #[trigger] views(items)[i] == items[i]@,
    decreases items.len(),
{
    if items.len() > 0 {
        lemma_views(items.drop_last());
        assert(views(items) == views(items.drop_last()).push(items.last()@));
    } else {
        assert(views(items) == Seq::<ValueView>::empty());
    }
}

/// Viewing commutes with appending one item.
pub proof fn lemma_views_push(items: Seq<Value>, item: Value)
    ensures
        views(items.push(item)) == views(items).push(item@),
{
    assert(items.push(item).drop_last() =~= items);
    assert(views(items.push(item)) == views(items.push(item).drop_last()).push(
        items.push(item).last()@,
    ));
}

/// Viewing commutes with dropping the last item.
pub proof fn lemma_views_drop_last(items: Seq<Value>)
    requires
        items.len() > 0,
    ensures
        views(items.drop_last()) == views(items).drop_last(),
        views(items).last() == items.last()@,
{
    lemma_views(items);
    lemma_views(items.drop_last());
    assert(views(items.drop_last()) =~= views(items).drop_last());
}

/// Viewing commutes with replacing one item.
pub proof fn lemma_views_update(items: Seq<Value>, i: int, item: Value)
    requires
        0 <= i < items.len(),
    ensures
        views(items.update(i, item)) == views(items).update(i, item@),
{
    lemma_views(items);
    lemma_views(items.update(i, item));
    assert(views(items.update(i, item)) =~= views(items).update(i, item@));
}

/// An item of an array is a smaller value than the array: recursion into it ends.
pub proof fn lemma_item_is_smaller(array: Value, i: int)
    requires
        array is Array,
        0 <= i < array->Array_0.len(),
    ensures
        decreases_to!(array => array->Array_0[i]),
{
    vstd::std_specs::vec::axiom_vec_index_decreases(array->Array_0, i);
    assert(decreases_to!(array => array->Array_0));
}

/// The error for arithmetic whose result does not fit the number type.
pub open spec fn overflow_error() -> ErrorView {
    ErrorView::ExecutionError { message: "Integer overflow"@, line: 0, position: 0 }
}

/// The message of a type error: what was attempted, and on which two kinds.
pub open spec fn operands_message(action: Seq<char>, left: ValueView, right: ValueView) -> Seq<
    char,
> {
    "Cannot "@ + action + " "@ + left.kind_name() + " and "@ + right.kind_name()
}

/// The message of a type error in a comparison with the given sign.
pub open spec fn compared_message(sign: Seq<char>, left: ValueView, right: ValueView) -> Seq<
    char,
> {
    operands_message("compare"@, left, right) + " with "@ + sign
}

/// The quotient of `a` by `b`, rounded toward zero.
pub open spec fn truncated_quotient(a: int, b: int) -> int
    recommends
        b != 0,
{
    if a >= 0 {
        if b > 0 {
            a / b
        } else {
            -(a / (-b))
        }
    } else {
        if b > 0 {
            -((-a) / b)
        } else {
            (-a) / (-b)
        }
    }
}

impl ValueView {
    /// The name of the value's kind, as error messages spell it.
    pub open spec fn kind_name(self) -> Seq<char> {
        match self {
            ValueView::Number(_) => "number"@,
            ValueView::Boolean(_) => "boolean"@,
            ValueView::Array(_) => "array"@,
            ValueView::Null => "null"@,
        }
    }

    /// Whether a conditional takes the value for true: a number above zero,
    /// the boolean `true`, an array that holds something.
    pub open spec fn is_truthy(self) -> bool {
        match self {
            ValueView::Number(n) => n > 0,
            ValueView::Boolean(b) => b,
            ValueView::Array(items) => items.len() > 0,
            ValueView::Null => false,
        }
    }

    /// Addition: of two numbers, their sum where it fits.
    pub open spec fn sum(self, other: ValueView) -> Result<ValueView, ErrorView> {
        match (self, other) {
            (ValueView::Number(a), ValueView::Number(b)) => if i32::MIN <= a + b <= i32::MAX {
                Ok(ValueView::Number((a + b) as i32))
            } else {
                Err(overflow_error())
            },
            _ => Err(ErrorView::TypeError { message: operands_message("add"@, self, other) }),
        }
    }

    /// Subtraction: of two numbers, their difference where it fits.
    pub open spec fn difference(self, other: ValueView) -> Result<ValueView, ErrorView> {
        match (self, other) {
            (ValueView::Number(a), ValueView::Number(b)) => if i32::MIN <= a - b <= i32::MAX {
                Ok(ValueView::Number((a - b) as i32))
            } else {
                Err(overflow_error())
            },
            _ => Err(
                ErrorView::TypeError { message: operands_message("subtract"@, self, other) },
            ),
        }
    }

    /// Multiplication: of two numbers, their product where it fits.
    pub open spec fn product(self, other: ValueView) -> Result<ValueView, ErrorView> {
        match (self, other) {
            (ValueView::Number(a), ValueView::Number(b)) => if i32::MIN <= a * b <= i32::MAX {
                Ok(ValueView::Number((a * b) as i32))
            } else {
                Err(overflow_error())
            },
            _ => Err(
                ErrorView::TypeError { message: operands_message("multiply"@, self, other) },
            ),
        }
    }

    /// Division: of two numbers, the quotient rounded toward zero; a zero
    /// divisor is an error of its own.
    pub open spec fn quotient(self, other: ValueView) -> Result<ValueView, ErrorView> {
        match (self, other) {
            (ValueView::Number(a), ValueView::Number(b)) => if b == 0 {
                Err(ErrorView::DivisionByZero)
            } else if truncated_quotient(a as int, b as int) <= i32::MAX {
                Ok(ValueView::Number(truncated_quotient(a as int, b as int) as i32))
            } else {
                Err(overflow_error())
            },
            _ => Err(ErrorView::TypeError { message: operands_message("divide"@, self, other) }),
        }
    }

    /// Whether `self` is the smaller of two numbers.
    pub open spec fn less(self, other: ValueView) -> Result<bool, ErrorView> {
        match (self, other) {
            (ValueView::Number(a), ValueView::Number(b)) => Ok(a < b),
            _ => Err(ErrorView::TypeError { message: compared_message("<"@, self, other) }),
        }
    }

    /// Whether `self` is the greater of two numbers.
    pub open spec fn greater(self, other: ValueView) -> Result<bool, ErrorView> {
        match (self, other) {
            (ValueView::Number(a), ValueView::Number(b)) => Ok(a > b),
            _ => Err(ErrorView::TypeError { message: compared_message(">"@, self, other) }),
        }
    }

    /// The array with `item` appended.
    pub open spec fn pushed(self, item: ValueView) -> Result<ValueView, ErrorView> {
        match self {
            ValueView::Array(items) => Ok(ValueView::Array(items.push(item))),
            _ => Err(ErrorView::NotAnArray),
        }
    }

    /// The array without its last item, and that item.
    pub open spec fn popped(self) -> Result<(ValueView, ValueView), ErrorView> {
        match self {
            ValueView::Array(items) => if items.len() > 0 {
                Ok((ValueView::Array(items.drop_last()), items.last()))
            } else {
                Err(ErrorView::IndexError { index: 0, len: 0 })
            },
            _ => Err(ErrorView::NotAnArray),
        }
    }

    /// The item at `index`; no index stands for -1.
    pub open spec fn item(self, index: Option<i32>) -> Result<ValueView, ErrorView> {
        match self {
            ValueView::Array(items) => match index {
                None => Err(ErrorView::IndexError { index: -1i32, len: items.len() as usize }),
                Some(i) => if 0 <= i < items.len() {
                    Ok(items[i as int])
                } else {
                    Err(ErrorView::IndexError { index: i, len: items.len() as usize })
                },
            },
            _ => Err(ErrorView::NotAnArray),
        }
    }

    /// The array with the item at `index` replaced; no index stands for -1.
    pub open spec fn with_item(self, index: Option<i32>, item: ValueView) -> Result<
        ValueView,
        ErrorView,
    > {
        match self {
            ValueView::Array(items) => match index {
                None => Err(ErrorView::IndexError { index: -1i32, len: items.len() as usize }),
                Some(i) => if 0 <= i < items.len() {
                    Ok(ValueView::Array(items.update(i as int, item)))
                } else {
                    Err(ErrorView::IndexError { index: i, len: items.len() as usize })
                },
            },
            _ => Err(ErrorView::NotAnArray),
        }
    }
}

/// The view of an operation's outcome: of the value or of the error.
pub open spec fn outcome_view(r: Result<Value, VMError>) -> Result<ValueView, ErrorView> {
    match r {
        Ok(v) => Ok(v@),
        Err(e) => Err(e@),
    }
}

/// The view of a comparison's outcome.
pub open spec fn verdict_view(r: Result<bool, VMError>) -> Result<bool, ErrorView> {
    match r {
        Ok(b) => Ok(b),
        Err(e) => Err(e@),
    }
}

impl Clone for Value {
    /// A copy with the same content, arrays copied item by item.
    fn clone(&self) -> (copy: Self)
        ensures
            copy@ == self@,
        decreases self,
    {
        match self {
            Value::Number(n) => Value::Number(*n),
            Value::Boolean(b) => Value::Boolean(*b),
            Value::Array(items) => {
                let mut copies: Vec<Value> = Vec::new();
                let mut i: usize = 0;
                while i < items.len()
                    invariant
                        *self == Value::Array(*items),
                        i <= items.len(),
                        copies.len() == i,
                        forall|j: int| 0 <= j < i ==> copies[j]@ == items[j]@,
                    decreases items.len() - i,
                {
                    proof {
                        lemma_item_is_smaller(*self, i as int);
                    }
                    copies.push(items[i].clone());
                    i += 1;
                }
                proof {
                    lemma_views(items@);
                    lemma_views(copies@);
                    assert(views(copies@) =~= views(items@));
                }
                Value::Array(copies)
            },
            Value::Null => Value::Null,
        }
    }
}

impl Value {
    /// The name of the value's kind.
    pub fn kind_name(&self) -> (name: &'static str)
        ensures
            name@ == self@.kind_name(),
    {
        match self {
            Value::Number(_) => "number",
            Value::Boolean(_) => "boolean",
            Value::Array(_) => "array",
            Value::Null => "null",
        }
    }

    /// The items of an array, to change in place; a type error for any
    /// other kind of value.
    pub fn as_array_mut(&mut self) -> (r: Result<&mut Vec<Value>, VMError>)
        ensures
            match r {
                Ok(items) => *old(self) is Array && *items == (*old(self))->Array_0
                    && *final(self) == Value::Array(*final(items)),
                Err(e) => !(*old(self) is Array) && e@ == (ErrorView::TypeError {
                    message: "Expected array, got "@ + old(self)@.kind_name(),
                }) && *final(self) == *old(self),
            },
    {
        match self {
            Value::Array(items) => Ok(items),
            _ => {
                let mut message = String::from_str("Expected array, got ");
                message.append(self.kind_name());
                Err(VMError::TypeError { message })
            },
        }
    }

    /// Whether a conditional takes the value for true.
    pub fn is_truthy(&self) -> (truthy: bool)
        ensures
            truthy == self@.is_truthy(),
    {
        match self {
            Value::Number(n) => *n > 0,
            Value::Boolean(b) => *b,
            Value::Array(items) => {
                proof {
                    lemma_views(items@);
                }
                items.len() > 0
            },
            Value::Null => false,
        }
    }
}

/// The type error for an operation on two values of the wrong kinds.
fn operands_error(action: &str, left: &Value, right: &Value) -> (e: VMError)
    ensures
        e@ == (ErrorView::TypeError { message: operands_message(action@, left@, right@) }),
{
    let mut message = String::from_str("Cannot ");
    message.append(action);
    message.append(" ");
    message.append(left.kind_name());
    message.append(" and ");
    message.append(right.kind_name());
    VMError::TypeError { message }
}

/// The type error for a comparison of two values of the wrong kinds.
fn compared_error(sign: &str, left: &Value, right: &Value) -> (e: VMError)
    ensures
        e@ == (ErrorView::TypeError { message: compared_message(sign@, left@, right@) }),
{
    let mut message = String::from_str("Cannot ");
    message.append("compare");
    message.append(" ");
    message.append(left.kind_name());
    message.append(" and ");
    message.append(right.kind_name());
    message.append(" with ");
    message.append(sign);
    VMError::TypeError { message }
}

/// The error for a result that does not fit the number type.
fn overflow() -> (e: VMError)
    ensures
        e@ == overflow_error(),
{
    VMError::ExecutionError { message: String::from_str("Integer overflow"), line: 0, position: 0 }
}

/// Arithmetic on two values.
pub trait VMBinaryOp {
    fn add(&self, other: &Value) -> Result<Value, VMError>;

    fn sub(&self, other: &Value) -> Result<Value, VMError>;

    fn mul(&self, other: &Value) -> Result<Value, VMError>;

    fn div(&self, other: &Value) -> Result<Value, VMError>;
}

/// Comparison of two values.
pub trait VMCompare {
    fn eq(&self, other: &Value) -> bool;

    fn lt(&self, other: &Value) -> Result<bool, VMError>;

    fn gt(&self, other: &Value) -> Result<bool, VMError>;
}

/// The operations of an array.
pub trait VMArray {
    fn push(&mut self, value: Value) -> Result<(), VMError>;

    fn pop(&mut self) -> Result<Value, VMError>;

    fn get(&self, index: Option<i32>) -> Result<Value, VMError>;

    fn set(&mut self, index: Option<i32>, value: Value) -> Result<(), VMError>;
}

impl VMBinaryOp for Value {
    /// The sum of two numbers; an error for other kinds, and where the sum
    /// does not fit.
    fn add(&self, other: &Value) -> (r: Result<Value, VMError>)
        ensures
            outcome_view(r) == self@.sum(other@),
    {
        match (self, other) {
            (Value::Number(a), Value::Number(b)) => match a.checked_add(*b) {
                Some(n) => Ok(Value::Number(n)),
                None => Err(overflow()),
            },
            _ => Err(operands_error("add", self, other)),
        }
    }

    /// The difference of two numbers; an error for other kinds, and where
    /// the difference does not fit.
    fn sub(&self, other: &Value) -> (r: Result<Value, VMError>)
        ensures
            outcome_view(r) == self@.difference(other@),
    {
        match (self, other) {
            (Value::Number(a), Value::Number(b)) => match a.checked_sub(*b) {
                Some(n) => Ok(Value::Number(n)),
                None => Err(overflow()),
            },
            _ => Err(operands_error("subtract", self, other)),
        }
    }

    /// The product of two numbers; an error for other kinds, and where the
    /// product does not fit.
    fn mul(&self, other: &Value) -> (r: Result<Value, VMError>)
        ensures
            outcome_view(r) == self@.product(other@),
    {
        match (self, other) {
            (Value::Number(a), Value::Number(b)) => match a.checked_mul(*b) {
                Some(n) => Ok(Value::Number(n)),
                None => Err(overflow()),
            },
            _ => Err(operands_error("multiply", self, other)),
        }
    }

    /// The quotient of two numbers, rounded toward zero; an error for other
    /// kinds, for a zero divisor, and where the quotient does not fit.
    fn div(&self, other: &Value) -> (r: Result<Value, VMError>)
        ensures
            outcome_view(r) == self@.quotient(other@),
    {
        match (self, other) {
            (Value::Number(a), Value::Number(b)) => {
                if *b == 0 {
                    Err(VMError::DivisionByZero)
                } else {
                    match a.checked_div(*b) {
                        Some(n) => Ok(Value::Number(n)),
                        None => Err(overflow()),
                    }
                }
            },
            _ => Err(operands_error("divide", self, other)),
        }
    }
}

impl VMCompare for Value {
    /// Whether two values have the same content: numbers and booleans by
    /// value, arrays item by item, null only with null. Values of different
    /// kinds are unequal.
    fn eq(&self, other: &Value) -> (same: bool)
        ensures
            same == (self@ == other@),
        decreases self,
    {
        match (self, other) {
            (Value::Number(a), Value::Number(b)) => *a == *b,
            (Value::Boolean(a), Value::Boolean(b)) => *a == *b,
            (Value::Array(a), Value::Array(b)) => {
                proof {
                    lemma_views(a@);
                    lemma_views(b@);
                }
                if a.len() != b.len() {
                    return false;
                }
                let mut i: usize = 0;
                while i < a.len()
                    invariant
                        *self == Value::Array(*a),
                        *other == Value::Array(*b),
                        a.len() == b.len(),
                        i <= a.len(),
                        views(a@).len() == a.len(),
                        views(b@).len() == b.len(),
                        forall|j: int| 0 <= j < a.len() ==> #[trigger] views(a@)[j] == a[j]@,
                        forall|j: int| 0 <= j < b.len() ==> #[trigger] views(b@)[j] == b[j]@,
                        forall|j: int| 0 <= j < i ==> a[j]@ == b[j]@,
                    decreases a.len() - i,
                {
                    proof {
                        lemma_item_is_smaller(*self, i as int);
                    }
                    if !a[i].eq(&b[i]) {
                        assert(views(a@)[i as int] != views(b@)[i as int]);
                        return false;
                    }
                    i += 1;
                }
                assert(views(a@) =~= views(b@));
                true
            },
            (Value::Null, Value::Null) => true,
            _ => false,
        }
    }

    /// Whether `self` is the smaller of two numbers; an error for other kinds.
    fn lt(&self, other: &Value) -> (r: Result<bool, VMError>)
        ensures
            verdict_view(r) == self@.less(other@),
    {
        match (self, other) {
            (Value::Number(a), Value::Number(b)) => Ok(*a < *b),
            _ => Err(compared_error("<", self, other)),
        }
    }

    /// Whether `self` is the greater of two numbers; an error for other kinds.
    fn gt(&self, other: &Value) -> (r: Result<bool, VMError>)
        ensures
            verdict_view(r) == self@.greater(other@),
    {
        match (self, other) {
            (Value::Number(a), Value::Number(b)) => Ok(*a > *b),
            _ => Err(compared_error(">", self, other)),
        }
    }
}

impl VMArray for Value {
    /// Appends `value` to an array; any other receiver stays as it is.
    fn push(&mut self, value: Value) -> (r: Result<(), VMError>)
        ensures
            match old(self)@.pushed(value@) {
                Ok(array) => r is Ok && final(self)@ == array,
                Err(e) => r is Err && r->Err_0@ == e && final(self)@ == old(self)@,
            },
    {
        match self {
            Value::Array(items) => {
                proof {
                    lemma_views_push(items@, value);
                }
                items.push(value);
                Ok(())
            },
            _ => Err(VMError::NotAnArray),
        }
    }

    /// Takes the last item off an array; an empty array and any other
    /// receiver stay as they are.
    fn pop(&mut self) -> (r: Result<Value, VMError>)
        ensures
            match old(self)@.popped() {
                Ok((array, item)) => r is Ok && r->Ok_0@ == item && final(self)@ == array,
                Err(e) => r is Err && r->Err_0@ == e && final(self)@ == old(self)@,
            },
    {
        match self {
            Value::Array(items) => {
                proof {
                    lemma_views(items@);
                    if items.len() > 0 {
                        lemma_views_drop_last(items@);
                    }
                }
                match items.pop() {
                    Some(item) => Ok(item),
                    None => Err(VMError::IndexError { index: 0, len: 0 }),
                }
            },
            _ => Err(VMError::NotAnArray),
        }
    }

    /// A copy of the item at `index`.
    fn get(&self, index: Option<i32>) -> (r: Result<Value, VMError>)
        ensures
            outcome_view(r) == self@.item(index),
    {
        match self {
            Value::Array(items) => {
                proof {
                    lemma_views(items@);
                }
                match index {
                    None => Err(VMError::IndexError { index: -1, len: items.len() }),
                    Some(i) => {
                        if i < 0 || i as usize >= items.len() {
                            Err(VMError::IndexError { index: i, len: items.len() })
                        } else {
                            Ok(items[i as usize].clone())
                        }
                    },
                }
            },
            _ => Err(VMError::NotAnArray),
        }
    }

    /// Replaces the item at `index` by `value`; on an error the receiver
    /// stays as it is.
    fn set(&mut self, index: Option<i32>, value: Value) -> (r: Result<(), VMError>)
        ensures
            match old(self)@.with_item(index, value@) {
                Ok(array) => r is Ok && final(self)@ == array,
                Err(e) => r is Err && r->Err_0@ == e && final(self)@ == old(self)@,
            },
    {
        match self {
            Value::Array(items) => {
                proof {
                    lemma_views(items@);
                }
                match index {
                    None => Err(VMError::IndexError { index: -1, len: items.len() }),
                    Some(i) => {
                        if i < 0 || i as usize >= items.len() {
                            Err(VMError::IndexError { index: i, len: items.len() })
                        } else {
                            proof {
                                lemma_views_update(items@, i as int, value);
                            }
                            items[i as usize] = value;
                            Ok(())
                        }
                    },
                }
            },
            _ => Err(VMError::NotAnArray),
        }
    }
}

} // verus!
