//! Runtime values.
use crate::number;
use vstd::prelude::*;
use vstd::string::*;

verus! {

/// The kinds of heap object. Strings are the only kind.
#[derive(Debug, Clone, Copy, PartialEq, Eq, Structural)]
pub enum ObjType {
    String,
}

/// A heap object, owned by the value that holds it.
#[derive(Debug)]
pub enum Obj {
    String(String),
}

/// A value of the language.
///
/// A number is held as its IEEE-754 binary64 bit pattern (see
/// [`crate::number`]). A string is owned by its value and never shared.
#[derive(Debug)]
pub enum Value {
    Number(u64),
    Bool(bool),
    Nil,
    Obj(Obj),
}

/// What a value is, as mathematics: a string is the sequence of its
/// characters.
pub enum ValueView {
    Number(u64),
    Bool(bool),
    Nil,
    String(Seq<char>),
}

impl ValueView {
    /// `Nil` and `false` are falsey, every other value is truthy.
    pub open spec fn is_falsey(self) -> bool {
        self is Nil || self == ValueView::Bool(false)
    }

    /// The value in print, for all but a number: a boolean as `true` or
    /// `false`, `Nil` as `nil`, a string as its characters. The text of a
    /// number is for the host to give.
    pub open spec fn text(self) -> Option<Seq<char>> {
        match self {
            ValueView::Number(bits) => None,
            ValueView::Bool(b) => Some(
                if b {
                    "true"@
                } else {
                    "false"@
                },
            ),
            ValueView::Nil => Some("nil"@),
            ValueView::String(s) => Some(s),
        }
    }

    /// Equality of values: numbers compare numerically, booleans by value,
    /// `Nil` equals `Nil`. Values of different kinds are unequal, and a string
    /// equals nothing, not even a string of the same characters.
    pub open spec fn equals(self, other: ValueView) -> bool {
        match (self, other) {
            (ValueView::Number(a), ValueView::Number(b)) => number::numbers_equal(a, b),
            (ValueView::Bool(a), ValueView::Bool(b)) => a == b,
            (ValueView::Nil, ValueView::Nil) => true,
            _ => false,
        }
    }
}

impl View for Obj {
    type V = Seq<char>;

    open spec fn view(&self) -> Seq<char> {
        match self {
            Obj::String(s) => s@,
        }
    }
}

impl View for Value {
    type V = ValueView;

    open spec fn view(&self) -> ValueView {
        match self {
            Value::Number(bits) => ValueView::Number(*bits),
            Value::Bool(b) => ValueView::Bool(*b),
            Value::Nil => ValueView::Nil,
            Value::Obj(obj) => ValueView::String(obj@),
        }
    }
}

impl Obj {
    /// The kind of this object.
    pub open spec fn obj_type(&self) -> ObjType {
        ObjType::String
    }

    /// Tells whether the object is of the given kind.
    pub fn is_type(&self, obj_type: ObjType) -> (r: bool)
        ensures
            r == (self.obj_type() == obj_type),
    {
        match self {
            Obj::String(_) => match obj_type {
                ObjType::String => true,
            },
        }
    }
}

impl Clone for Obj {
    fn clone(&self) -> (r: Obj)
        ensures
            r@ == self@,
    {
        match self {
            Obj::String(s) => Obj::String(s.clone()),
        }
    }
}

impl Clone for Value {
    fn clone(&self) -> (r: Value)
        ensures
            r@ == self@,
    {
        match self {
            Value::Number(bits) => Value::Number(*bits),
            Value::Bool(b) => Value::Bool(*b),
            Value::Nil => Value::Nil,
            Value::Obj(obj) => Value::Obj(obj.clone()),
        }
    }
}

impl Value {
    /// The bit pattern of a number, `None` for any other value.
    pub fn as_f64(&self) -> (r: Option<u64>)
        ensures
            r == match self@ {
                ValueView::Number(bits) => Some(bits),
                _ => None,
            },
    {
        match self {
            Value::Number(bits) => Some(*bits),
            _ => None,
        }
    }

    /// The boolean held, `None` for any other value.
    pub fn as_bool(&self) -> (r: Option<bool>)
        ensures
            r == match self@ {
                ValueView::Bool(b) => Some(b),
                _ => None,
            },
    {
        match self {
            Value::Bool(b) => Some(*b),
            _ => None,
        }
    }

    pub fn is_number(&self) -> (r: bool)
        ensures
            r == (self@ is Number),
    {
        match self {
            Value::Number(_) => true,
            _ => false,
        }
    }

    pub fn is_bool(&self) -> (r: bool)
        ensures
            r == (self@ is Bool),
    {
        match self {
            Value::Bool(_) => true,
            _ => false,
        }
    }

    pub fn is_nil(&self) -> (r: bool)
        ensures
            r == (self@ is Nil),
    {
        match self {
            Value::Nil => true,
            _ => false,
        }
    }

    /// Tells whether the value counts as false in a logical context.
    pub fn is_falsey(&self) -> (r: bool)
        ensures
            r == self@.is_falsey(),
    {
        match self {
            Value::Nil | Value::Bool(false) => true,
            _ => false,
        }
    }

    /// Tells whether the value is a heap object of the given kind.
    pub fn is_obj_type(&self, obj_type: ObjType) -> (r: bool)
        ensures
            r == (self@ is String && obj_type == ObjType::String),
    {
        match self {
            Value::Obj(obj) => obj.is_type(obj_type),
            _ => false,
        }
    }

    /// The value in print, `None` for a number.
    pub fn text_of(&self) -> (text: Option<String>)
        ensures
            match self@.text() {
                Some(expected) => text is Some && text->0@ == expected,
                None => text is None,
            },
    {
        match self {
            Value::Number(_) => None,
            Value::Bool(true) => Some(String::from_str("true")),
            Value::Bool(false) => Some(String::from_str("false")),
            Value::Nil => Some(String::from_str("nil")),
            Value::Obj(Obj::String(s)) => Some(s.clone()),
        }
    }

    /// Takes the string out of a string value, `None` for any other value.
    pub fn as_string(self) -> (r: Option<String>)
        ensures
            match self@ {
                ValueView::String(s) => r is Some && r->0@ == s,
                _ => r is None,
            },
    {
        match self {
            Value::Obj(Obj::String(s)) => Some(s),
            _ => None,
        }
    }
}

impl PartialEq for Value {
    fn eq(&self, other: &Value) -> (r: bool) {
        match (self, other) {
            (Value::Number(a), Value::Number(b)) => number::equal(*a, *b),
            (Value::Bool(a), Value::Bool(b)) => *a == *b,
            (Value::Nil, Value::Nil) => true,
            _ => false,
        }
    }
}

impl vstd::std_specs::cmp::PartialEqSpecImpl for Value {
    open spec fn obeys_eq_spec() -> bool {
        true
    }

    open spec fn eq_spec(&self, other: &Value) -> bool {
        self@.equals(other@)
    }
}

} // verus!
