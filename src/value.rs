use vstd::prelude::*;

verus! {

/// A key of an associative array.
#[derive(Debug)]
pub enum Key {
    Int(i64),
    Str(Vec<u8>),
}

/// A dynamically typed argument of a query template.
///
/// `List` holds its items in order; `Assoc` holds key/value pairs in insertion
/// order. A `Assoc` whose keys are `0, 1, ..., n-1` in that order is list-shaped
/// and is treated as a list. `Skip` is the marker that drops the enclosing
/// conditional block.
#[derive(Debug)]
pub enum Value {
    Null,
    Bool(bool),
    Integer(i64),
    /// A floating value, held as its canonical decimal text (`"1.5"`, `"-0.25"`).
    Float(Vec<u8>),
    Str(Vec<u8>),
    List(Vec<Value>),
    Assoc(Vec<(Key, Value)>),
    Skip,
    /// A host value of no other kind (an object, a resource): auto
    /// formatting rejects it.
    Other,
}

/// Why a template could not be rendered.
#[derive(Clone, Copy, Debug, PartialEq, Eq, Structural)]
pub enum QueryError {
    /// A `{` inside a conditional block.
    NestedConditional,
    /// A `}` outside any conditional block.
    UnmatchedClose,
    /// The template ends inside a conditional block.
    UnterminatedConditional,
    /// A placeholder found no argument left.
    TooFewArguments,
    /// Arguments are left after the last placeholder.
    TooManyArguments,
    /// `?a` got a value that is not an array.
    ExpectedArrayOrList,
    /// `?a` got an associative array with an integer key.
    ExpectedStringKeys,
    /// Auto formatting got a value it cannot render (an array, the skip marker).
    UnsupportedType,
    /// `?#` got something other than a string or an array of strings.
    InvalidFieldType,
    /// The skip marker was bound to a placeholder outside a conditional block.
    SkipOutsideConditional,
    /// The escape delegate refused a string.
    EscapeFailed,
    /// A value's numeric prefix does not fit in a 64-bit integer.
    CoercionFailed,
}

/// `k` is the integer key `i`.
pub open spec fn is_index_key(k: Key, i: int) -> bool {
    match k {
        Key::Int(n) => n as int == i,
        Key::Str(_) => false,
    }
}

impl Value {
    /// The number of items of an array value (zero for anything else).
    pub open spec fn array_len(self) -> nat {
        match self {
            Value::List(items) => items@.len(),
            Value::Assoc(entries) => entries@.len(),
            _ => 0,
        }
    }

    /// An array is list-shaped when it is a `List`, or a `Assoc` whose keys are
    /// the integers `0, 1, ..., n-1` in order.
    pub open spec fn is_list_shaped(self) -> bool {
        match self {
            Value::List(_) => true,
            Value::Assoc(entries) => forall|i: int|
                0 <= i < entries@.len() ==> is_index_key(#[trigger] entries@[i].0, i),
            _ => false,
        }
    }

    pub open spec fn is_array(self) -> bool {
        self is List || self is Assoc
    }
}

/// Tells whether `entries` form a list: keys `0, 1, ..., n-1` in order.
pub fn array_is_list(entries: &Vec<(Key, Value)>) -> (r: bool)
    ensures
        r == (forall|i: int|
            0 <= i < entries@.len() ==> is_index_key(#[trigger] entries@[i].0, i)),
{
    let mut i: usize = 0;
    while i < entries.len()
        invariant
            i <= entries@.len(),
            forall|j: int| 0 <= j < i ==> is_index_key(#[trigger] entries@[j].0, j),
        decreases entries@.len() - i,
    {
        match &entries[i].0 {
            Key::Int(k) => {
                if *k < 0 || *k as u64 != i as u64 {
                    assert(!is_index_key(entries@[i as int].0, i as int));
                    return false;
                }
            },
            Key::Str(_) => {
                assert(!is_index_key(entries@[i as int].0, i as int));
                return false;
            },
        }
        i = i + 1;
    }
    true
}

} // verus!
