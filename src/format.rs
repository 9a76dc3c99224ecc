use vstd::prelude::*;
use crate::bytes::{push_all, BACKTICK, COMMA, DIGIT_ONE, DIGIT_ZERO, EQUALS, QUOTE, SPACE};
use crate::escape::Escape;
use crate::numeric::{as_float_as_string, as_long_as_string, float_coercion, int_coercion, int_text};
use crate::value::{array_is_list, Key, QueryError, Value};

verus! {

/// What may follow a `?`: the byte after it picks the format.
#[derive(Clone, Copy, Debug, PartialEq, Eq, Structural)]
pub enum FormatSpec {
    /// `?d`
    Integer,
    /// `?f`
    Float,
    /// `?a`
    Array,
    /// `?#`
    Field,
    /// a bare `?`
    Auto,
}

pub open spec fn null_text() -> Seq<u8> {
    seq![78u8, 85u8, 76u8, 76u8]
}

pub open spec fn comma_space() -> Seq<u8> {
    seq![COMMA, SPACE]
}

/// `'e'`
pub open spec fn quoted(e: Seq<u8>) -> Seq<u8> {
    seq![QUOTE] + e + seq![QUOTE]
}

/// The view of a formatting result.
pub open spec fn text_of(r: Result<Vec<u8>, QueryError>) -> Result<Seq<u8>, QueryError> {
    match r {
        Ok(t) => Ok(t@),
        Err(e) => Err(e),
    }
}

/// Auto formatting, by the value's own tag.
pub open spec fn auto_text<E: Escape>(esc: E, v: Value) -> Result<Seq<u8>, QueryError> {
    match v {
        Value::Str(s) => match esc.escaped(s@) {
            Some(e) => Ok(quoted(e)),
            None => Err(QueryError::EscapeFailed),
        },
        Value::Null => Ok(null_text()),
        Value::Integer(n) => Ok(int_text(n as int)),
        Value::Float(t) => Ok(t@),
        Value::Bool(b) => Ok(if b { seq![DIGIT_ONE] } else { seq![DIGIT_ZERO] }),
        _ => Err(QueryError::UnsupportedType),
    }
}

/// `?d`: `NULL` for null, else the integer coercion in decimal.
pub open spec fn integer_text(v: Value) -> Result<Seq<u8>, QueryError> {
    if v is Null {
        Ok(null_text())
    } else {
        match int_coercion(v) {
            Some(n) => Ok(int_text(n)),
            None => Err(QueryError::CoercionFailed),
        }
    }
}

/// `?f`: `NULL` for null, else the floating coercion as text.
pub open spec fn float_text(v: Value) -> Result<Seq<u8>, QueryError> {
    if v is Null {
        Ok(null_text())
    } else {
        Ok(float_coercion(v))
    }
}

/// `a` and `b` joined by `, `, where both are non-empty.
pub open spec fn join_pieces(a: Seq<u8>, b: Seq<u8>) -> Seq<u8> {
    if a.len() == 0 {
        b
    } else if b.len() == 0 {
        a
    } else {
        a + comma_space() + b
    }
}

/// The first `n` items of a list-shaped array, comma-joined. An item that is
/// itself a list-shaped array is flattened into the same run (an empty one
/// adds nothing); any other item is auto-formatted.
pub open spec fn list_text<E: Escape>(esc: E, v: Value, n: nat) -> Result<Seq<u8>, QueryError>
    decreases v, n,
{
    if n == 0 {
        Ok(Seq::empty())
    } else {
        match list_text(esc, v, (n - 1) as nat) {
            Err(x) => Err(x),
            Ok(prefix) => {
                match v {
                    Value::List(items) => if n <= items@.len() {
                        let e = items@[n - 1];
                        let piece = if e.is_array() && e.is_list_shaped() {
                            list_text(esc, e, e.array_len())
                        } else {
                            auto_text(esc, e)
                        };
                        match piece {
                            Err(x) => Err(x),
                            Ok(t) => Ok(join_pieces(prefix, t)),
                        }
                    } else {
                        Ok(prefix)
                    },
                    Value::Assoc(entries) => if n <= entries@.len() {
                        let e = entries@[n - 1].1;
                        let piece = if e.is_array() && e.is_list_shaped() {
                            list_text(esc, e, e.array_len())
                        } else {
                            auto_text(esc, e)
                        };
                        match piece {
                            Err(x) => Err(x),
                            Ok(t) => Ok(join_pieces(prefix, t)),
                        }
                    } else {
                        Ok(prefix)
                    },
                    _ => Ok(prefix),
                }
            },
        }
    }
}

/// The first `n` pairs of an associative array, as `` `key` = value ``
/// joined by `, `; every key must be a string.
pub open spec fn assoc_text<E: Escape>(esc: E, entries: Seq<(Key, Value)>, n: nat) -> Result<
    Seq<u8>,
    QueryError,
>
    decreases n,
{
    if n == 0 {
        Ok(Seq::empty())
    } else {
        match assoc_text(esc, entries, (n - 1) as nat) {
            Err(x) => Err(x),
            Ok(prefix) => {
                let sep = if n > 1 {
                    comma_space()
                } else {
                    Seq::empty()
                };
                match entries[n - 1].0 {
                    Key::Int(_) => Err(QueryError::ExpectedStringKeys),
                    Key::Str(k) => match auto_text(esc, entries[n - 1].1) {
                        Err(x) => Err(x),
                        Ok(t) => Ok(
                            prefix + sep + seq![BACKTICK] + k@ + seq![BACKTICK, SPACE, EQUALS, SPACE]
                                + t,
                        ),
                    },
                }
            },
        }
    }
}

/// The values of an array value, in order.
pub open spec fn array_values(v: Value) -> Seq<Value> {
    match v {
        Value::List(items) => items@,
        Value::Assoc(entries) => entries@.map_values(|e: (Key, Value)| e.1),
        _ => Seq::empty(),
    }
}

/// The first `n` of `vals`, each a string, back-tick quoted and joined by `, `.
pub open spec fn field_list_text(vals: Seq<Value>, n: nat) -> Result<Seq<u8>, QueryError>
    decreases n,
{
    if n == 0 {
        Ok(Seq::empty())
    } else {
        match field_list_text(vals, (n - 1) as nat) {
            Err(x) => Err(x),
            Ok(prefix) => {
                let sep = if n > 1 {
                    comma_space()
                } else {
                    Seq::empty()
                };
                match vals[n - 1] {
                    Value::Str(s) => Ok(prefix + sep + seq![BACKTICK] + s@ + seq![BACKTICK]),
                    _ => Err(QueryError::InvalidFieldType),
                }
            },
        }
    }
}

/// `?#`: a string as one quoted identifier, a list-shaped array of strings
/// as a list of them; any other shape is an error.
pub open spec fn fields_text(v: Value) -> Result<Seq<u8>, QueryError> {
    match v {
        Value::Str(s) => Ok(seq![BACKTICK] + s@ + seq![BACKTICK]),
        Value::List(items) => field_list_text(items@, items@.len()),
        Value::Assoc(entries) => if v.is_list_shaped() {
            field_list_text(array_values(v), entries@.len())
        } else {
            Err(QueryError::InvalidFieldType)
        },
        _ => Err(QueryError::InvalidFieldType),
    }
}

/// `?a`: a list-shaped array as a flat list, any other array as pairs.
pub open spec fn array_text<E: Escape>(esc: E, v: Value) -> Result<Seq<u8>, QueryError> {
    match v {
        Value::List(_) => list_text(esc, v, v.array_len()),
        Value::Assoc(entries) => if v.is_list_shaped() {
            list_text(esc, v, v.array_len())
        } else {
            assoc_text(esc, entries@, entries@.len())
        },
        _ => Err(QueryError::ExpectedArrayOrList),
    }
}

/// The text of `v` under a format spec.
pub open spec fn format_text<E: Escape>(esc: E, v: Value, spec: FormatSpec) -> Result<
    Seq<u8>,
    QueryError,
> {
    match spec {
        FormatSpec::Integer => integer_text(v),
        FormatSpec::Float => float_text(v),
        FormatSpec::Array => array_text(esc, v),
        FormatSpec::Field => fields_text(v),
        FormatSpec::Auto => auto_text(esc, v),
    }
}

/// Escapes `s` and wraps it in single quotes.
fn escape_string<E: Escape>(esc: &E, s: &[u8]) -> (r: Result<Vec<u8>, QueryError>)
    ensures
        text_of(r) == match esc.escaped(s@) {
            Some(e) => Ok(quoted(e)),
            None => Err::<Seq<u8>, QueryError>(QueryError::EscapeFailed),
        },
{
    match esc.escape(s) {
        None => Err(QueryError::EscapeFailed),
        Some(e) => {
            let mut res: Vec<u8> = Vec::new();
            res.push(QUOTE);
            push_all(&mut res, e.as_slice());
            res.push(QUOTE);
            assert(res@ =~= quoted(e@));
            Ok(res)
        },
    }
}

fn null_bytes() -> (r: Vec<u8>)
    ensures
        r@ == null_text(),
{
    vec![78u8, 85u8, 76u8, 76u8]
}

/// Auto formatting of one value.
pub fn format_unspecified<E: Escape>(esc: &E, v: &Value) -> (r: Result<Vec<u8>, QueryError>)
    ensures
        text_of(r) == auto_text(*esc, *v),
{
    match v {
        Value::Str(s) => {
            let sl = s.as_slice();
            assert(sl@ == s@);
            escape_string(esc, sl)
        },
        Value::Null => Ok(null_bytes()),
        Value::Integer(_) => format_integer(v),
        Value::Float(_) => Ok(format_float(v)),
        Value::Bool(b) => {
            let t = if *b { vec![DIGIT_ONE] } else { vec![DIGIT_ZERO] };
            assert(t@ =~= (if *b { seq![DIGIT_ONE] } else { seq![DIGIT_ZERO] }));
            Ok(t)
        },
        _ => Err(QueryError::UnsupportedType),
    }
}

/// `?d`
pub fn format_integer(v: &Value) -> (r: Result<Vec<u8>, QueryError>)
    ensures
        text_of(r) == integer_text(*v),
{
    if let Value::Null = v {
        return Ok(null_bytes());
    }
    as_long_as_string(v)
}

/// `?f`
pub fn format_float(v: &Value) -> (r: Vec<u8>)
    ensures
        float_text(*v) == Ok::<Seq<u8>, QueryError>(r@),
{
    if let Value::Null = v {
        return null_bytes();
    }
    as_float_as_string(v)
}

/// Tells whether `v` is a list-shaped array.
pub fn is_list(v: &Value) -> (r: bool)
    ensures
        r == (v.is_array() && v.is_list_shaped()),
{
    match v {
        Value::List(_) => true,
        Value::Assoc(entries) => array_is_list(entries),
        _ => false,
    }
}

proof fn lemma_list_text_err<E: Escape>(esc: E, v: Value, k: nat, n: nat)
    requires
        k <= n,
        list_text(esc, v, k) is Err,
    ensures
        list_text(esc, v, n) == list_text(esc, v, k),
    decreases n,
{
    if k < n {
        lemma_list_text_err(esc, v, k, (n - 1) as nat);
    }
}

/// Formats a list-shaped array as one flat, comma-joined run.
pub fn format_list<E: Escape>(esc: &E, v: &Value) -> (r: Result<Vec<u8>, QueryError>)
    ensures
        text_of(r) == list_text(*esc, *v, v.array_len()),
    decreases v,
{
    let mut out: Vec<u8> = Vec::new();
    match v {
        Value::List(items) => {
            let mut i: usize = 0;
            while i < items.len()
                invariant
                    *v == Value::List(*items),
                    i <= items@.len(),
                    list_text(*esc, *v, i as nat) == Ok::<Seq<u8>, QueryError>(out@),
                decreases items@.len() - i,
            {
                let e = &items[i];
                let piece = if is_list(e) {
                    format_list(esc, e)
                } else {
                    format_unspecified(esc, e)
                };
                match piece {
                    Err(x) => {
                        proof {
                            lemma_list_text_err(*esc, *v, (i + 1) as nat, v.array_len());
                        }
                        return Err(x);
                    },
                    Ok(t) => {
                        let ghost prefix = out@;
                        if out.len() > 0 && t.len() > 0 {
                            out.push(COMMA);
                            out.push(SPACE);
                        }
                        push_all(&mut out, t.as_slice());
                        assert(out@ =~= join_pieces(prefix, t@));
                    },
                }
                i = i + 1;
            }
            Ok(out)
        },
        Value::Assoc(entries) => {
            let mut i: usize = 0;
            while i < entries.len()
                invariant
                    *v == Value::Assoc(*entries),
                    i <= entries@.len(),
                    list_text(*esc, *v, i as nat) == Ok::<Seq<u8>, QueryError>(out@),
                decreases entries@.len() - i,
            {
                let e = &entries[i].1;
                let piece = if is_list(e) {
                    format_list(esc, e)
                } else {
                    format_unspecified(esc, e)
                };
                match piece {
                    Err(x) => {
                        proof {
                            lemma_list_text_err(*esc, *v, (i + 1) as nat, v.array_len());
                        }
                        return Err(x);
                    },
                    Ok(t) => {
                        let ghost prefix = out@;
                        if out.len() > 0 && t.len() > 0 {
                            out.push(COMMA);
                            out.push(SPACE);
                        }
                        push_all(&mut out, t.as_slice());
                        assert(out@ =~= join_pieces(prefix, t@));
                    },
                }
                i = i + 1;
            }
            Ok(out)
        },
        _ => Ok(out),
    }
}

proof fn lemma_assoc_text_err<E: Escape>(esc: E, entries: Seq<(Key, Value)>, k: nat, n: nat)
    requires
        k <= n,
        assoc_text(esc, entries, k) is Err,
    ensures
        assoc_text(esc, entries, n) == assoc_text(esc, entries, k),
    decreases n,
{
    if k < n {
        lemma_assoc_text_err(esc, entries, k, (n - 1) as nat);
    }
}

proof fn lemma_field_list_text_err(vals: Seq<Value>, k: nat, n: nat)
    requires
        k <= n,
        field_list_text(vals, k) is Err,
    ensures
        field_list_text(vals, n) == field_list_text(vals, k),
    decreases n,
{
    if k < n {
        lemma_field_list_text_err(vals, k, (n - 1) as nat);
    }
}

/// Formats an associative array as `` `key` = value `` pairs.
pub fn format_assoc<E: Escape>(esc: &E, entries: &Vec<(Key, Value)>) -> (r: Result<
    Vec<u8>,
    QueryError,
>)
    ensures
        text_of(r) == assoc_text(*esc, entries@, entries@.len()),
{
    let mut out: Vec<u8> = Vec::new();
    let mut i: usize = 0;
    while i < entries.len()
        invariant
            i <= entries@.len(),
            assoc_text(*esc, entries@, i as nat) == Ok::<Seq<u8>, QueryError>(out@),
        decreases entries@.len() - i,
    {
        match &entries[i].0 {
            Key::Int(_) => {
                proof {
                    lemma_assoc_text_err(*esc, entries@, (i + 1) as nat, entries@.len());
                }
                return Err(QueryError::ExpectedStringKeys);
            },
            Key::Str(k) => {
                match format_unspecified(esc, &entries[i].1) {
                    Err(x) => {
                        proof {
                            lemma_assoc_text_err(*esc, entries@, (i + 1) as nat, entries@.len());
                        }
                        return Err(x);
                    },
                    Ok(t) => {
                        let ghost prefix = out@;
                        if i > 0 {
                            out.push(COMMA);
                            out.push(SPACE);
                        }
                        out.push(BACKTICK);
                        push_all(&mut out, k.as_slice());
                        out.push(BACKTICK);
                        out.push(SPACE);
                        out.push(EQUALS);
                        out.push(SPACE);
                        push_all(&mut out, t.as_slice());
                        assert(out@ =~= prefix + (if i > 0 {
                            comma_space()
                        } else {
                            Seq::empty()
                        }) + seq![BACKTICK] + k@ + seq![BACKTICK, SPACE, EQUALS, SPACE] + t@);
                    },
                }
            },
        }
        i = i + 1;
    }
    Ok(out)
}

/// `?a`: a list-shaped array as a flat list, any other array as pairs.
pub fn format_ht<E: Escape>(esc: &E, v: &Value) -> (r: Result<Vec<u8>, QueryError>)
    ensures
        text_of(r) == array_text(*esc, *v),
{
    match v {
        Value::List(_) => format_list(esc, v),
        Value::Assoc(entries) => {
            if array_is_list(entries) {
                format_list(esc, v)
            } else {
                format_assoc(esc, entries)
            }
        },
        _ => Err(QueryError::ExpectedArrayOrList),
    }
}

/// `?#`: back-tick quoted identifiers.
pub fn format_fields(v: &Value) -> (r: Result<Vec<u8>, QueryError>)
    ensures
        text_of(r) == fields_text(*v),
{
    let mut out: Vec<u8> = Vec::new();
    match v {
        Value::Str(s) => {
            out.push(BACKTICK);
            push_all(&mut out, s.as_slice());
            out.push(BACKTICK);
            assert(out@ =~= seq![BACKTICK] + s@ + seq![BACKTICK]);
            Ok(out)
        },
        Value::List(items) => {
            let mut i: usize = 0;
            while i < items.len()
                invariant
                    i <= items@.len(),
                    array_values(*v) == items@,
                    field_list_text(items@, i as nat) == Ok::<Seq<u8>, QueryError>(out@),
                decreases items@.len() - i,
            {
                match &items[i] {
                    Value::Str(s) => {
                        let ghost prefix = out@;
                        if i > 0 {
                            out.push(COMMA);
                            out.push(SPACE);
                        }
                        out.push(BACKTICK);
                        push_all(&mut out, s.as_slice());
                        out.push(BACKTICK);
                        assert(out@ =~= prefix + (if i > 0 {
                            comma_space()
                        } else {
                            Seq::empty()
                        }) + seq![BACKTICK] + s@ + seq![BACKTICK]);
                    },
                    _ => {
                        proof {
                            lemma_field_list_text_err(items@, (i + 1) as nat, items@.len());
                        }
                        return Err(QueryError::InvalidFieldType);
                    },
                }
                i = i + 1;
            }
            Ok(out)
        },
        Value::Assoc(entries) => {
            if !array_is_list(entries) {
                return Err(QueryError::InvalidFieldType);
            }
            let ghost vals = array_values(*v);
            let mut i: usize = 0;
            while i < entries.len()
                invariant
                    i <= entries@.len(),
                    vals == entries@.map_values(|e: (Key, Value)| e.1),
                    vals == array_values(*v),
                    field_list_text(vals, i as nat) == Ok::<Seq<u8>, QueryError>(out@),
                decreases entries@.len() - i,
            {
                assert(vals[i as int] == entries@[i as int].1);
                match &entries[i].1 {
                    Value::Str(s) => {
                        let ghost prefix = out@;
                        if i > 0 {
                            out.push(COMMA);
                            out.push(SPACE);
                        }
                        out.push(BACKTICK);
                        push_all(&mut out, s.as_slice());
                        out.push(BACKTICK);
                        assert(out@ =~= prefix + (if i > 0 {
                            comma_space()
                        } else {
                            Seq::empty()
                        }) + seq![BACKTICK] + s@ + seq![BACKTICK]);
                    },
                    _ => {
                        proof {
                            assert(vals.len() == entries@.len());
                            assert(!(vals[i as int] is Str));
                            assert(field_list_text(vals, (i + 1) as nat) is Err);
                            lemma_field_list_text_err(vals, (i + 1) as nat, entries@.len());
                        }
                        return Err(QueryError::InvalidFieldType);
                    },
                }
                i = i + 1;
            }
            Ok(out)
        },
        _ => Err(QueryError::InvalidFieldType),
    }
}

/// Formats `v` under a format spec.
pub fn format_value<E: Escape>(esc: &E, v: &Value, spec: FormatSpec) -> (r: Result<
    Vec<u8>,
    QueryError,
>)
    ensures
        text_of(r) == format_text(*esc, *v, spec),
{
    match spec {
        FormatSpec::Integer => format_integer(v),
        FormatSpec::Float => Ok(format_float(v)),
        FormatSpec::Array => format_ht(esc, v),
        FormatSpec::Field => format_fields(v),
        FormatSpec::Auto => format_unspecified(esc, v),
    }
}

} // verus!
