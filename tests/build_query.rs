use fpdb::{
    as_float_as_string, as_long_as_string, decimal, BackslashEscape, Escape, EscapeTable, IdentityEscape, Key, QueryError, QueryParser,
    Rendered, Value,
};

fn parser() -> QueryParser<IdentityEscape> {
    QueryParser::new(IdentityEscape)
}

fn s(text: &str) -> Value {
    Value::Str(text.as_bytes().to_vec())
}

fn render(template: &str, args: Vec<Value>) -> Result<String, QueryError> {
    parser()
        .build_query(template.as_bytes(), &args)
        .map(|r| String::from_utf8(r.as_bytes().to_vec()).unwrap())
}

#[test]
fn literal_template_is_returned_unchanged() {
    let template = b"SELECT 1 FROM dual";
    let r = parser().build_query(template, &vec![]).unwrap();
    match r {
        Rendered::Unchanged(t) => assert!(std::ptr::eq(t, &template[..])),
        Rendered::Built(_) => panic!("expected the template itself"),
    }
    assert_eq!(render("", vec![]), Ok(String::new()));
}

#[test]
fn literal_template_with_arguments_is_too_many() {
    assert_eq!(render("SELECT 1", vec![Value::Integer(1)]), Err(QueryError::TooManyArguments));
    assert_eq!(render("", vec![Value::Null]), Err(QueryError::TooManyArguments));
}

#[test]
fn integer_placeholder() {
    assert_eq!(
        render("SELECT * FROM t WHERE id=?d", vec![Value::Integer(5)]),
        Ok("SELECT * FROM t WHERE id=5".to_string())
    );
}

#[test]
fn integer_placeholder_with_null() {
    assert_eq!(render("?d", vec![Value::Null]), Ok("NULL".to_string()));
    assert_eq!(render("?f", vec![Value::Null]), Ok("NULL".to_string()));
}

#[test]
fn array_placeholder_list() {
    let list = Value::List(vec![Value::Integer(1), Value::Integer(2), Value::Integer(3)]);
    assert_eq!(render("?a", vec![list]), Ok("1, 2, 3".to_string()));
}

#[test]
fn array_placeholder_nested_list_is_flattened() {
    let inner = Value::List(vec![Value::Integer(1), Value::Integer(2)]);
    let list = Value::List(vec![inner, Value::Integer(3)]);
    assert_eq!(render("?a", vec![list]), Ok("1, 2, 3".to_string()));
}

#[test]
fn array_placeholder_list_shaped_map_is_a_list() {
    let map = Value::Assoc(vec![(Key::Int(0), s("x")), (Key::Int(1), Value::Bool(true))]);
    assert_eq!(render("?a", vec![map]), Ok("'x', 1".to_string()));
}

#[test]
fn array_placeholder_map() {
    let map = Value::Assoc(vec![
        (Key::Str(b"a".to_vec()), Value::Integer(1)),
        (Key::Str(b"b".to_vec()), s("x")),
    ]);
    assert_eq!(render("?a", vec![map]), Ok("`a` = 1, `b` = 'x'".to_string()));
}

#[test]
fn array_placeholder_non_string_key() {
    let map = Value::Assoc(vec![(Key::Int(1), s("x"))]);
    assert_eq!(render("?a", vec![map]), Err(QueryError::ExpectedStringKeys));
}

#[test]
fn array_placeholder_scalar_is_an_error() {
    assert_eq!(render("?a", vec![Value::Integer(1)]), Err(QueryError::ExpectedArrayOrList));
}

#[test]
fn array_placeholder_map_inside_list_is_unsupported() {
    let map = Value::Assoc(vec![(Key::Str(b"k".to_vec()), Value::Integer(1))]);
    let list = Value::List(vec![Value::Integer(1), map]);
    assert_eq!(render("?a", vec![list]), Err(QueryError::UnsupportedType));
}

#[test]
fn skipped_block_is_omitted() {
    assert_eq!(render("x {?d} y", vec![Value::Skip]), Ok("x  y".to_string()));
    let skip = parser().skip();
    assert_eq!(
        render("a{ b ?d c ? }z", vec![Value::Integer(1), skip]),
        Ok("az".to_string())
    );
}

#[test]
fn placeholders_after_skip_still_consume_arguments() {
    assert_eq!(
        render("{?d ?d} ?d", vec![Value::Skip, Value::Integer(7), Value::Integer(8)]),
        Ok(" 8".to_string())
    );
    assert_eq!(render("{?d ?d}", vec![Value::Skip]), Err(QueryError::TooFewArguments));
}

#[test]
fn rendered_block_is_kept() {
    assert_eq!(render("x {?d}", vec![Value::Integer(5)]), Ok("x 5".to_string()));
}

#[test]
fn block_syntax_errors() {
    assert_eq!(render("{ { } }", vec![]), Err(QueryError::NestedConditional));
    assert_eq!(render("}", vec![]), Err(QueryError::UnmatchedClose));
    assert_eq!(render("{", vec![]), Err(QueryError::UnterminatedConditional));
}

#[test]
fn arity_errors() {
    assert_eq!(render("?d", vec![]), Err(QueryError::TooFewArguments));
    assert_eq!(
        render("?", vec![Value::Integer(1), Value::Integer(2)]),
        Err(QueryError::TooManyArguments)
    );
}

#[test]
fn field_placeholder() {
    assert_eq!(render("?#", vec![s("col")]), Ok("`col`".to_string()));
    assert_eq!(render("?#", vec![Value::List(vec![s("a"), s("b")])]), Ok("`a`, `b`".to_string()));
    assert_eq!(render("?#", vec![Value::Integer(123)]), Err(QueryError::InvalidFieldType));
    assert_eq!(
        render("?#", vec![Value::List(vec![s("a"), Value::Integer(1)])]),
        Err(QueryError::InvalidFieldType)
    );
}

#[test]
fn skip_outside_block_is_an_error() {
    assert_eq!(render("x = ?d", vec![Value::Skip]), Err(QueryError::SkipOutsideConditional));
}

#[test]
fn auto_string_is_escaped_and_quoted() {
    assert_eq!(render("?", vec![s("it's")]), Ok("'it's'".to_string()));
    assert_eq!(render("?", vec![s("")]), Ok("''".to_string()));
}

#[test]
fn auto_formatting_of_scalars() {
    assert_eq!(
        render(
            "? ? ? ? ?",
            vec![Value::Null, Value::Bool(true), Value::Bool(false), Value::Integer(-42), Value::Float(b"1.5".to_vec())]
        ),
        Ok("NULL 1 0 -42 1.5".to_string())
    );
    assert_eq!(render("?", vec![Value::List(vec![])]), Err(QueryError::UnsupportedType));
    assert_eq!(render("{?}", vec![Value::Skip]), Ok(String::new()));
}

#[test]
fn unknown_spec_byte_is_auto_and_kept() {
    assert_eq!(render("?x", vec![Value::Integer(3)]), Ok("3x".to_string()));
}

#[test]
fn integer_coercion() {
    assert_eq!(render("?d", vec![s("12abc")]), Ok("12".to_string()));
    assert_eq!(render("?d", vec![s("abc")]), Ok("0".to_string()));
    assert_eq!(render("?d", vec![Value::Float(b"-2.7".to_vec())]), Ok("-2".to_string()));
    assert_eq!(render("?d", vec![Value::Bool(true)]), Ok("1".to_string()));
    assert_eq!(render("?d", vec![s("99999999999999999999")]), Err(QueryError::CoercionFailed));
    assert_eq!(as_long_as_string(&s("-9223372036854775808")), Ok(b"-9223372036854775808".to_vec()));
    assert_eq!(as_long_as_string(&s("9223372036854775808")), Err(QueryError::CoercionFailed));
    assert_eq!(as_long_as_string(&s("9223372036854775807")), Ok(b"9223372036854775807".to_vec()));
}

#[test]
fn float_coercion() {
    assert_eq!(render("?f", vec![s("1.25kg")]), Ok("1.25".to_string()));
    assert_eq!(render("?f", vec![s("3.")]), Ok("3".to_string()));
    assert_eq!(render("?f", vec![s("x")]), Ok("0".to_string()));
    assert_eq!(render("?f", vec![Value::Integer(7)]), Ok("7".to_string()));
    assert_eq!(as_float_as_string(&Value::Float(b"2.5".to_vec())), b"2.5".to_vec());
}

#[test]
fn decimal_text() {
    assert_eq!(decimal(0), b"0".to_vec());
    assert_eq!(decimal(1234567890), b"1234567890".to_vec());
    assert_eq!(decimal(i64::MIN), b"-9223372036854775808".to_vec());
    assert_eq!(decimal(i64::MAX), b"9223372036854775807".to_vec());
}

#[test]
fn empty_arrays() {
    assert_eq!(render("?a", vec![Value::List(vec![])]), Ok(String::new()));
    assert_eq!(render("?#", vec![Value::List(vec![])]), Ok(String::new()));
}

#[test]
fn host_value_of_no_other_kind() {
    assert_eq!(render("?", vec![Value::Other]), Err(QueryError::UnsupportedType));
    assert_eq!(render("?d", vec![Value::Other]), Ok("1".to_string()));
}

#[test]
fn backslash_escape_in_auto_strings() {
    let p = QueryParser::new(BackslashEscape);
    let args = vec![s("it's \"a\"\n\\")];
    let r = p.build_query(b"x = ?", &args).unwrap();
    assert_eq!(r.as_bytes(), &b"x = 'it\\'s \\\"a\\\"\\n\\\\'"[..]);
    let zero = vec![Value::Str(vec![0u8, 26u8, 13u8])];
    let r = p.build_query(b"?", &zero).unwrap();
    assert_eq!(r.as_bytes(), &b"'\\0\\Z\\r'"[..]);
}

#[test]
fn identity_escape_keeps_the_string() {
    assert_eq!(IdentityEscape.escape(b"a'b"), Some(b"a'b".to_vec()));
    assert_eq!(BackslashEscape.escape(b"a'b"), Some(b"a\\'b".to_vec()));
}

#[test]
fn empty_nested_list_adds_no_item() {
    let empty = || Value::List(vec![]);
    let list = Value::List(vec![Value::Integer(1), empty(), Value::Integer(2)]);
    assert_eq!(render("?a", vec![list]), Ok("1, 2".to_string()));
    let list = Value::List(vec![empty(), Value::Integer(1)]);
    assert_eq!(render("?a", vec![list]), Ok("1".to_string()));
    let list = Value::List(vec![Value::List(vec![empty()]), empty()]);
    assert_eq!(render("?a", vec![list]), Ok(String::new()));
}

#[test]
fn field_placeholder_rejects_maps() {
    let map = Value::Assoc(vec![(Key::Str(b"k".to_vec()), s("a"))]);
    assert_eq!(render("?#", vec![map]), Err(QueryError::InvalidFieldType));
    let listed = Value::Assoc(vec![(Key::Int(0), s("a")), (Key::Int(1), s("b"))]);
    assert_eq!(render("?#", vec![listed]), Ok("`a`, `b`".to_string()));
}

#[test]
fn float_coercion_is_canonical() {
    assert_eq!(render("?f", vec![s("007")]), Ok("7".to_string()));
    assert_eq!(render("?f", vec![s("1.50")]), Ok("1.5".to_string()));
    assert_eq!(render("?f", vec![s("-0012.3400x")]), Ok("-12.34".to_string()));
    assert_eq!(render("?f", vec![s("0.000")]), Ok("0".to_string()));
    assert_eq!(as_float_as_string(&s("000")), b"0".to_vec());
}

#[test]
fn escape_table_escapes_known_strings_and_refuses_others() {
    let mut table = EscapeTable::new();
    table.insert(b"it's".to_vec(), b"it''s".to_vec());
    let p = QueryParser::new(table);
    let r = p.build_query(b"?", &vec![s("it's")]).unwrap();
    assert_eq!(r.as_bytes(), &b"'it''s'"[..]);
    assert_eq!(p.build_query(b"?", &vec![s("other")]).err(), Some(QueryError::EscapeFailed));
}
