//! The values that evaluation produces and that the constant pool holds.

use vstd::prelude::*;
use vstd::string::*;
use crate::ast::{clone_idents, view_idents, view_statements, Block, Ident, StmtView};
use crate::text::{signed_decimal, signed_decimal_string};
use crate::token::{Token, TokenView};

verus! {

/// A value.
#[derive(Debug, PartialEq, Eq)]
pub enum Object {
    /// A failure of evaluation, with its message.
    Error(String),
    /// The value of a `return` on its way out of the blocks around it.
    Return(Box<Object>),
    Int(isize),
    Bool(bool),
    /// A closure: the token of `fn`, the parameters, the body, and the
    /// number of the scope in which the function literal was evaluated.
    Function(Token, Vec<Ident>, Block, usize),
    Null,
    /// The instructions of a compiled function body.
    CompiledFunction(Vec<u8>),
}

/// The mathematical value of an [`Object`].
pub ghost enum ObjectView {
    Error(Seq<char>),
    Return(Box<ObjectView>),
    Int(int),
    Bool(bool),
    Function(TokenView, Seq<TokenView>, Seq<StmtView>, nat),
    Null,
    CompiledFunction(Seq<u8>),
}

/// The mathematical value of an object.
pub open spec fn view_object(o: Object) -> ObjectView
    decreases o,
{
    match o {
        Object::Error(message) => ObjectView::Error(message@),
        Object::Return(inner) => ObjectView::Return(Box::new(view_object(*inner))),
        Object::Int(i) => ObjectView::Int(i as int),
        Object::Bool(b) => ObjectView::Bool(b),
        Object::Function(token, params, body, scope) => ObjectView::Function(
            token@,
            view_idents(params@),
            body@,
            scope as nat,
        ),
        Object::Null => ObjectView::Null,
        Object::CompiledFunction(code) => ObjectView::CompiledFunction(code@),
    }
}

impl View for Object {
    type V = ObjectView;

    open spec fn view(&self) -> ObjectView {
        view_object(*self)
    }
}

/// The views of a list of objects.
pub open spec fn view_objects(v: Seq<Object>) -> Seq<ObjectView> {
    Seq::new(v.len(), |i: int| v[i]@)
}

/// A copy of an object.
pub fn clone_object(o: &Object) -> (r: Object)
    ensures
        r@ == o@,
    decreases o,
{
    match o {
        Object::Error(message) => Object::Error(message.clone()),
        Object::Return(inner) => Object::Return(Box::new(clone_object(inner))),
        Object::Int(i) => Object::Int(*i),
        Object::Bool(b) => Object::Bool(*b),
        Object::Function(token, params, body, scope) => Object::Function(
            token.clone(),
            clone_idents(params),
            body.clone(),
            *scope,
        ),
        Object::Null => Object::Null,
        Object::CompiledFunction(code) => {
            let copy = code.clone();
            assert(copy@ =~= code@);
            Object::CompiledFunction(copy)
        },
    }
}

impl Clone for Object {
    fn clone(&self) -> (r: Object)
        ensures
            r@ == self@,
    {
        clone_object(self)
    }
}

impl ObjectView {
    /// Whether a value counts as true where a condition is asked for: all
    /// but `Null` and `false` do.
    pub open spec fn truthy(self) -> bool {
        match self {
            ObjectView::Null => false,
            ObjectView::Bool(b) => b,
            _ => true,
        }
    }

    /// The value without the marks of `return` around it.
    pub open spec fn unwrapped(self) -> ObjectView
        decreases self,
    {
        match self {
            ObjectView::Return(inner) => inner.unwrapped(),
            _ => self,
        }
    }

    /// How a value is written in a message: an integer and a boolean in
    /// parentheses after `Int` and `Bool`, `Null`, a returned value in
    /// parentheses after `Return`, a message between double quotes and in
    /// parentheses after `Error`, and a function by the word alone.
    pub open spec fn describe(self) -> Seq<char>
        decreases self,
    {
        match self {
            ObjectView::Error(message) => "Error(\""@ + message + "\")"@,
            ObjectView::Return(inner) => "Return("@ + inner.describe() + ")"@,
            ObjectView::Int(i) => "Int("@ + signed_decimal(i) + ")"@,
            ObjectView::Bool(b) => if b {
                "Bool(true)"@
            } else {
                "Bool(false)"@
            },
            ObjectView::Function(_, _, _, _) => "Function"@,
            ObjectView::Null => "Null"@,
            ObjectView::CompiledFunction(_) => "CompiledFunction"@,
        }
    }

    /// The sum of two integers. It is an error if an operand is no integer
    /// or the sum does not fit.
    pub open spec fn add(self, rhs: ObjectView) -> Result<ObjectView, Seq<char>> {
        match (self, rhs) {
            (ObjectView::Int(a), ObjectView::Int(b)) => fitting(a + b),
            _ => Err("Addition requires that both operands are integers"@),
        }
    }

    /// The difference of two integers.
    pub open spec fn sub(self, rhs: ObjectView) -> Result<ObjectView, Seq<char>> {
        match (self, rhs) {
            (ObjectView::Int(a), ObjectView::Int(b)) => fitting(a - b),
            _ => Err("Subtraction requires that both operands are integers"@),
        }
    }

    /// The product of two integers.
    pub open spec fn mul(self, rhs: ObjectView) -> Result<ObjectView, Seq<char>> {
        match (self, rhs) {
            (ObjectView::Int(a), ObjectView::Int(b)) => fitting(a * b),
            _ => Err("Multiplication requires that both operands are integers"@),
        }
    }

    /// The quotient of two integers, rounded towards zero. It is an error to
    /// divide by zero.
    pub open spec fn div(self, rhs: ObjectView) -> Result<ObjectView, Seq<char>> {
        match (self, rhs) {
            (ObjectView::Int(a), ObjectView::Int(b)) => if b == 0 {
                Err("Division by zero"@)
            } else {
                fitting(quotient(a, b))
            },
            _ => Err("Division requires that both operands are integers"@),
        }
    }

    /// Whether two values are equal. Only two integers, two booleans or two
    /// nulls can be compared.
    pub open spec fn eq(self, rhs: ObjectView) -> Result<ObjectView, Seq<char>> {
        match (self, rhs) {
            (ObjectView::Null, ObjectView::Null) => Ok(ObjectView::Bool(true)),
            (ObjectView::Int(a), ObjectView::Int(b)) => Ok(ObjectView::Bool(a == b)),
            (ObjectView::Bool(a), ObjectView::Bool(b)) => Ok(ObjectView::Bool(a == b)),
            _ => Err(
                "==/!= operator is not valid for types: "@ + self.describe() + ", "@
                    + rhs.describe(),
            ),
        }
    }

    /// Whether two values differ.
    pub open spec fn not_eq(self, rhs: ObjectView) -> Result<ObjectView, Seq<char>> {
        match self.eq(rhs) {
            Ok(ObjectView::Bool(b)) => Ok(ObjectView::Bool(!b)),
            other => other,
        }
    }

    /// Whether an integer is greater than another.
    pub open spec fn gt(self, rhs: ObjectView) -> Result<ObjectView, Seq<char>> {
        match (self, rhs) {
            (ObjectView::Int(a), ObjectView::Int(b)) => Ok(ObjectView::Bool(a > b)),
            _ => Err(
                ">/< operator is not valid for types: "@ + self.describe() + ", "@
                    + rhs.describe(),
            ),
        }
    }

    /// Whether an integer is less than another.
    pub open spec fn lt(self, rhs: ObjectView) -> Result<ObjectView, Seq<char>> {
        match (self, rhs) {
            (ObjectView::Int(a), ObjectView::Int(b)) => Ok(ObjectView::Bool(a < b)),
            _ => Err(
                ">/< operator is not valid for types: "@ + self.describe() + ", "@
                    + rhs.describe(),
            ),
        }
    }
}

/// A value without the marks of `return` around it bears no such mark.
pub proof fn lemma_unwrapped_is_no_return(o: ObjectView)
    ensures
        !(o.unwrapped() is Return),
    decreases o,
{
    match o {
        ObjectView::Return(inner) => {
            lemma_unwrapped_is_no_return(*inner);
        },
        _ => {},
    }
}

/// The integer object of `i`, or an error if `i` is out of the range of the
/// machine's integers.
pub open spec fn fitting(i: int) -> Result<ObjectView, Seq<char>> {
    if isize::MIN <= i <= isize::MAX {
        Ok(ObjectView::Int(i))
    } else {
        Err("Integer overflow"@)
    }
}

/// The quotient of `a` by `b`, rounded towards zero.
pub open spec fn quotient(a: int, b: int) -> int
    recommends
        b != 0,
{
    if a >= 0 && b > 0 {
        a / b
    } else if a < 0 && b < 0 {
        (-a) / (-b)
    } else if a < 0 {
        -((-a) / b)
    } else {
        -(a / (-b))
    }
}

/// The view of the result of an operation.
pub open spec fn view_result(r: Result<Object, String>) -> Result<ObjectView, Seq<char>> {
    match r {
        Ok(o) => Ok(o@),
        Err(e) => Err(e@),
    }
}

fn overflow() -> (r: Result<Object, String>)
    ensures
        view_result(r) == Err::<ObjectView, Seq<char>>("Integer overflow"@),
{
    Err(String::from_str("Integer overflow"))
}

impl Object {
    /// The boolean object of `value`.
    pub fn from_bool(value: bool) -> (r: Object)
        ensures
            r@ == ObjectView::Bool(value),
    {
        Object::Bool(value)
    }

    /// Whether this value counts as true.
    pub fn into_bool(self) -> (r: bool)
        ensures
            r == self@.truthy(),
    {
        match self {
            Object::Null | Object::Bool(false) => false,
            _ => true,
        }
    }

    /// This value without the marks of `return` around it.
    pub fn unwrapped(self) -> (r: Object)
        ensures
            r@ == self@.unwrapped(),
        decreases self,
    {
        match self {
            Object::Return(inner) => (*inner).unwrapped(),
            other => other,
        }
    }

    /// This value as a message shows it.
    pub fn describe(&self) -> (r: String)
        ensures
            r@ == self@.describe(),
        decreases self,
    {
        match self {
            Object::Error(message) => String::from_str("Error(\"").concat(message.as_str()).concat(
                "\")",
            ),
            Object::Return(inner) => String::from_str("Return(").concat(
                inner.describe().as_str(),
            ).concat(")"),
            Object::Int(i) => String::from_str("Int(").concat(
                signed_decimal_string(*i).as_str(),
            ).concat(")"),
            Object::Bool(b) => if *b {
                String::from_str("Bool(true)")
            } else {
                String::from_str("Bool(false)")
            },
            Object::Function(_, _, _, _) => String::from_str("Function"),
            Object::Null => String::from_str("Null"),
            Object::CompiledFunction(_) => String::from_str("CompiledFunction"),
        }
    }

    /// The sum of two integers.
    pub fn add(self, rhs: Object) -> (r: Result<Object, String>)
        ensures
            view_result(r) == self@.add(rhs@),
    {
        match (self, rhs) {
            (Object::Int(lhs), Object::Int(rhs)) => match lhs.checked_add(rhs) {
                Some(sum) => Ok(Object::Int(sum)),
                None => overflow(),
            },
            _ => Err(String::from_str("Addition requires that both operands are integers")),
        }
    }

    /// The difference of two integers.
    pub fn sub(self, rhs: Object) -> (r: Result<Object, String>)
        ensures
            view_result(r) == self@.sub(rhs@),
    {
        match (self, rhs) {
            (Object::Int(lhs), Object::Int(rhs)) => match lhs.checked_sub(rhs) {
                Some(difference) => Ok(Object::Int(difference)),
                None => overflow(),
            },
            _ => Err(String::from_str("Subtraction requires that both operands are integers")),
        }
    }

    /// The product of two integers.
    pub fn mul(self, rhs: Object) -> (r: Result<Object, String>)
        ensures
            view_result(r) == self@.mul(rhs@),
    {
        match (self, rhs) {
            (Object::Int(lhs), Object::Int(rhs)) => match lhs.checked_mul(rhs) {
                Some(product) => Ok(Object::Int(product)),
                None => overflow(),
            },
            _ => Err(
                String::from_str("Multiplication requires that both operands are integers"),
            ),
        }
    }

    /// The quotient of two integers, rounded towards zero.
    pub fn div(self, rhs: Object) -> (r: Result<Object, String>)
        ensures
            view_result(r) == self@.div(rhs@),
    {
        match (self, rhs) {
            (Object::Int(lhs), Object::Int(rhs)) => {
                if rhs == 0 {
                    Err(String::from_str("Division by zero"))
                } else {
                    match lhs.checked_div(rhs) {
                        Some(q) => Ok(Object::Int(q)),
                        None => overflow(),
                    }
                }
            },
            _ => Err(String::from_str("Division requires that both operands are integers")),
        }
    }

    /// Whether two values are equal.
    pub fn eq(self, rhs: Object) -> (r: Result<Object, String>)
        ensures
            view_result(r) == self@.eq(rhs@),
    {
        match (&self, &rhs) {
            (Object::Null, Object::Null) => Ok(Object::Bool(true)),
            (Object::Int(one), Object::Int(two)) => Ok(Object::Bool(*one == *two)),
            (Object::Bool(one), Object::Bool(two)) => Ok(Object::Bool(*one == *two)),
            _ => Err(
                String::from_str("==/!= operator is not valid for types: ").concat(
                    self.describe().as_str(),
                ).concat(", ").concat(rhs.describe().as_str()),
            ),
        }
    }

    /// Whether two values differ.
    pub fn not_eq(self, rhs: Object) -> (r: Result<Object, String>)
        ensures
            view_result(r) == self@.not_eq(rhs@),
    {
        match self.eq(rhs) {
            Ok(Object::Bool(b)) => Ok(Object::Bool(!b)),
            other => other,
        }
    }

    /// Whether an integer is greater than another.
    pub fn gt(self, rhs: Object) -> (r: Result<Object, String>)
        ensures
            view_result(r) == self@.gt(rhs@),
    {
        match (&self, &rhs) {
            (Object::Int(one), Object::Int(two)) => Ok(Object::Bool(*one > *two)),
            _ => Err(
                String::from_str(">/< operator is not valid for types: ").concat(
                    self.describe().as_str(),
                ).concat(", ").concat(rhs.describe().as_str()),
            ),
        }
    }

    /// Whether an integer is less than another.
    pub fn lt(self, rhs: Object) -> (r: Result<Object, String>)
        ensures
            view_result(r) == self@.lt(rhs@),
    {
        match (&self, &rhs) {
            (Object::Int(one), Object::Int(two)) => Ok(Object::Bool(*one < *two)),
            _ => Err(
                String::from_str(">/< operator is not valid for types: ").concat(
                    self.describe().as_str(),
                ).concat(", ").concat(rhs.describe().as_str()),
            ),
        }
    }
}

} // verus!
