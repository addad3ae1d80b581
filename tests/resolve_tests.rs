use libcorn::error::{format_parser_err, Error, SyntaxError};
use libcorn::parser::Rule;
use libcorn::parse;
use libcorn::parser::AstParser;
use libcorn::resolve::{resolve_document, Env};
use libcorn::value::{ObjectMap, Value};

fn no_env() -> Env {
    Env { vars: vec![] }
}

fn env_with(name: &str, value: &str) -> Env {
    Env { vars: vec![(name.to_string(), value.to_string())] }
}

fn obj(entries: Vec<(&str, Value)>) -> Value {
    Value::Object(ObjectMap::from_entries(entries.into_iter().map(|(k, v)| (k.to_string(), v)).collect()))
}

fn keys(v: &Value) -> Vec<String> {
    match v {
        Value::Object(m) => m.to_entries().into_iter().map(|(k, _)| k).collect(),
        other => panic!("not an object: {:?}", other),
    }
}

fn s(text: &str) -> Value {
    Value::String(text.to_string())
}

fn run(text: &str) -> Result<Value, Error> {
    parse(text, &no_env())
}

#[test]
fn basic_string_pair() {
    assert_eq!(run("{ foo = \"bar\" }").unwrap(), obj(vec![("foo", s("bar"))]));
}

#[test]
fn empty_document_is_empty_object() {
    assert_eq!(run("{}").unwrap(), obj(vec![]));
}

#[test]
fn scalars() {
    let v = run("{ a = 42 b = -7 c = 1_000_000 d = 0xFF e = 3.5 f = true g = false h = null }").unwrap();
    assert_eq!(
        v,
        obj(vec![
            ("a", Value::Integer(42)),
            ("b", Value::Integer(-7)),
            ("c", Value::Integer(1000000)),
            ("d", Value::Integer(255)),
            ("e", Value::Float("3.5".to_string())),
            ("f", Value::Boolean(true)),
            ("g", Value::Boolean(false)),
            ("h", Value::Null),
        ])
    );
}

#[test]
fn integer_limits() {
    assert_eq!(
        run("{ a = 9223372036854775807 b = -9223372036854775808 }").unwrap(),
        obj(vec![("a", Value::Integer(i64::MAX)), ("b", Value::Integer(i64::MIN))])
    );
    assert!(matches!(run("{ a = 9223372036854775808 }"), Err(Error::ParserError(_))));
}

#[test]
fn array_and_nested_object() {
    let v = run("{ arr = [1 \"two\" { three = 3 }] }").unwrap();
    assert_eq!(
        v,
        obj(vec![(
            "arr",
            Value::Array(vec![Value::Integer(1), s("two"), obj(vec![("three", Value::Integer(3))])])
        )])
    );
}

#[test]
fn comments_are_skipped() {
    let v = run("// leading\n{\n  // inside\n  a = 1 // trailing\n}\n// end").unwrap();
    assert_eq!(v, obj(vec![("a", Value::Integer(1))]));
}

#[test]
fn inputs_are_resolved() {
    let v = run("let { $name = \"corn\" $n = 5 } in { name = $name count = $n }").unwrap();
    assert_eq!(v, obj(vec![("name", s("corn")), ("count", Value::Integer(5))]));
}

#[test]
fn later_input_sees_earlier_one() {
    let v = run("let { $a = 1 $b = [$a $a] } in { b = $b }").unwrap();
    assert_eq!(v, obj(vec![("b", Value::Array(vec![Value::Integer(1), Value::Integer(1)]))]));
}

#[test]
fn forward_reference_fails() {
    let r = run("let { $x = $y $y = 1 } in {}");
    assert_eq!(r, Err(Error::InputResolveError("$y".to_string())));
}

#[test]
fn undeclared_input_fails() {
    assert_eq!(run("{ a = $missing }"), Err(Error::InputResolveError("$missing".to_string())));
}

#[test]
fn path_nesting() {
    let v = run("{ a.b.c = 1 }").unwrap();
    assert_eq!(v, obj(vec![("a", obj(vec![("b", obj(vec![("c", Value::Integer(1))]))]))]));
}

#[test]
fn path_extends_existing_object_in_place() {
    let v = run("{ a.x = 1 b = 2 a.y = 3 }").unwrap();
    assert_eq!(
        v,
        obj(vec![
            ("a", obj(vec![("x", Value::Integer(1)), ("y", Value::Integer(3))])),
            ("b", Value::Integer(2)),
        ])
    );
    assert_eq!(keys(&v), vec!["a".to_string(), "b".to_string()]);
}

#[test]
fn keys_keep_insertion_order() {
    let v = run("{ z = 1 a = 2 m = 3 a = 4 }").unwrap();
    assert_eq!(keys(&v), vec!["z".to_string(), "a".to_string(), "m".to_string()]);
    assert_eq!(v, obj(vec![("z", Value::Integer(1)), ("a", Value::Integer(4)), ("m", Value::Integer(3))]));
}

#[test]
fn quoted_path_segment() {
    let v = run("{ 'a.b'.c = 1 }").unwrap();
    assert_eq!(v, obj(vec![("a.b", obj(vec![("c", Value::Integer(1))]))]));
}

#[test]
fn path_conflict_fails() {
    assert_eq!(run("{ a = 1 a.b = 2 }"), Err(Error::InvalidPathError("a.b".to_string())));
}

#[test]
fn path_conflict_names_full_path() {
    assert_eq!(run("{ x.a = 1 x.a.b = 2 }"), Err(Error::InvalidPathError("x.a.b".to_string())));
}

#[test]
fn repeated_key_overwrites() {
    assert_eq!(run("{ a = 1 a = 2 }").unwrap(), obj(vec![("a", Value::Integer(2))]));
}

#[test]
fn object_spread_last_write_wins() {
    let v = run("let { $o = { a = 2 } } in { a = 1 ..$o }").unwrap();
    assert_eq!(v, obj(vec![("a", Value::Integer(2))]));
}

#[test]
fn object_spread_then_overwrite() {
    let v = run("let { $o = { a = 2 b = 3 } } in { c = 0 ..$o a = 1 }").unwrap();
    assert_eq!(v, obj(vec![("c", Value::Integer(0)), ("a", Value::Integer(1)), ("b", Value::Integer(3))]));
    assert_eq!(keys(&v), vec!["c".to_string(), "a".to_string(), "b".to_string()]);
}

#[test]
fn object_spread_of_non_object_fails() {
    let r = run("let { $n = 1 } in { ..$n }");
    assert_eq!(r, Err(Error::InvalidSpreadError("$n".to_string())));
}

#[test]
fn array_spread() {
    let v = run("let { $xs = [2 3] } in { a = [1 ..$xs 4] }").unwrap();
    assert_eq!(
        v,
        obj(vec![(
            "a",
            Value::Array(vec![Value::Integer(1), Value::Integer(2), Value::Integer(3), Value::Integer(4)])
        )])
    );
}

#[test]
fn array_spread_of_non_array_fails() {
    let r = run("let { $o = {} } in { a = [..$o] }");
    assert_eq!(r, Err(Error::InvalidSpreadError("$o".to_string())));
}

#[test]
fn string_escapes() {
    let v = run("{ a = \"x\\ny\\t\\\"q\\\" \\$ \\\\ \\u0041\\u00e9\" }").unwrap();
    assert_eq!(v, obj(vec![("a", s("x\ny\t\"q\" $ \\ A\u{e9}"))]));
}

#[test]
fn unicode_escape_of_surrogate_gives_replacement() {
    let v = run("{ a = \"\\uD800\" }").unwrap();
    assert_eq!(v, obj(vec![("a", s("\u{FFFD}"))]));
}

#[test]
fn four_digit_unicode_escape() {
    let v = run("{ a = \"\\u4e2d\" }").unwrap();
    assert_eq!(v, obj(vec![("a", s("\u{4e2d}"))]));
}

#[test]
fn string_interpolation() {
    let v = run("let { $who = \"world\" } in { a = \"hello $who!\" }").unwrap();
    assert_eq!(v, obj(vec![("a", s("hello world!"))]));
}

#[test]
fn interpolating_non_string_fails() {
    let r = run("let { $n = 1 } in { a = \"n is $n\" }");
    assert_eq!(r, Err(Error::InvalidInterpolationError("$n".to_string())));
}

#[test]
fn multiline_string_is_dedented() {
    let v = run("{ a = \"\n  foo\n  bar\n\" }").unwrap();
    assert_eq!(v, obj(vec![("a", s("foo\nbar"))]));
}

#[test]
fn env_reference_reads_environment() {
    let v = parse("{ a = $env_FOO }", &env_with("FOO", "bar")).unwrap();
    assert_eq!(v, obj(vec![("a", s("bar"))]));
}

#[test]
fn env_takes_precedence_over_input() {
    let v = parse("let { $env_FOO = \"input\" } in { a = $env_FOO }", &env_with("FOO", "bar")).unwrap();
    assert_eq!(v, obj(vec![("a", s("bar"))]));
}

#[test]
fn unset_env_falls_back_to_input() {
    let v = parse("let { $env_FOO = \"input\" } in { a = $env_FOO }", &no_env()).unwrap();
    assert_eq!(v, obj(vec![("a", s("input"))]));
}

#[test]
fn unset_env_without_input_fails() {
    assert_eq!(run("{ a = $env_NOPE }"), Err(Error::InputResolveError("$env_NOPE".to_string())));
}

#[test]
fn env_interpolation() {
    let v = parse("{ a = \"x-$env_FOO\" }", &env_with("FOO", "bar")).unwrap();
    assert_eq!(v, obj(vec![("a", s("x-bar"))]));
}

#[test]
fn resolving_twice_gives_equal_trees() {
    let text = "let { $a = { x = 1 } } in { b.c = [1 2] ..$a s = \"t\" }";
    let env = env_with("FOO", "bar");
    assert_eq!(parse(text, &env), parse(text, &env));
}

#[test]
fn document_resolves_separately_from_parsing() {
    let doc = AstParser::parse("{ a = 1 }").unwrap();
    assert_eq!(resolve_document(&doc, &no_env()).unwrap(), obj(vec![("a", Value::Integer(1))]));
}

#[test]
fn syntax_error_position() {
    match run("{\n  a = }") {
        Err(Error::ParserError(e)) => {
            assert_eq!(e.line, 2);
            assert_eq!(e.column, 7);
            assert_eq!(e.offset, 8);
            assert!(!e.expected.is_empty());
        }
        other => panic!("expected a syntax error, got {:?}", other),
    }
}

#[test]
fn trailing_text_is_syntax_error() {
    assert!(matches!(run("{} x"), Err(Error::ParserError(_))));
}

#[test]
fn missing_object_is_syntax_error() {
    assert!(matches!(run(""), Err(Error::ParserError(_))));
    assert!(matches!(run("let { $a = 1 } in"), Err(Error::ParserError(_))));
}

#[test]
fn unterminated_string_is_syntax_error() {
    assert!(matches!(run("{ a = \"abc }"), Err(Error::ParserError(_))));
}

#[test]
fn error_messages() {
    assert_eq!(
        Error::InputResolveError("$y".to_string()).message(),
        "failed to resolve referenced input `$y`"
    );
    assert_eq!(
        Error::InvalidPathError("a.b".to_string()).message(),
        "attempted to use dot-notation on non-object value at `a.b`"
    );
    assert_eq!(
        Error::InvalidSpreadError("$n".to_string()).message(),
        "attempted to spread a type that differs from its containing type at `$n`"
    );
    assert_eq!(
        Error::InvalidInterpolationError("$n".to_string()).message(),
        "attempted to interpolate a non-string type into a string at `$n`"
    );
    assert_eq!(
        Error::DeserializationError("Expected string, found boolean".to_string()).message(),
        "failed to deserialize input: Expected string, found boolean"
    );
}

#[test]
fn exit_codes() {
    assert_eq!(run("{").unwrap_err().get_exit_code(), 1);
    assert_eq!(Error::InputResolveError(String::new()).get_exit_code(), 2);
    assert_eq!(Error::DeserializationError(String::new()).get_exit_code(), 5);
    assert_eq!(Error::InvalidPathError(String::new()).get_exit_code(), 6);
    assert_eq!(Error::InvalidSpreadError(String::new()).get_exit_code(), 7);
    assert_eq!(Error::InvalidInterpolationError(String::new()).get_exit_code(), 8);
}

#[test]
fn syntax_error_rendering() {
    let text = "{\n  a = }";
    let err = run(text).unwrap_err();
    assert_eq!(
        err.render(text, "conf.corn"),
        "--> conf.corn:2:7\n  | \n  |   a = }\n  |       ^\n  | \nExpected one of:\n\tobject, array, input, string, float, integer, boolean, null"
    );
}

#[test]
fn syntax_error_with_large_line_number() {
    let mut text = String::from("{\n");
    for _ in 0..11 {
        text.push_str("a = 1\n");
    }
    text.push_str("b = ]");
    let err = run(&text).unwrap_err();
    assert!(err.message().starts_with("syntax error at line 13, column 5"));
}

#[test]
fn other_errors_render_as_message() {
    let e = Error::InvalidPathError("a.b".to_string());
    assert_eq!(e.render("{ a = 1 a.b = 2 }", "conf.corn"), e.message());
}

#[test]
fn parser_error_line_out_of_range_has_no_excerpt() {
    let e = SyntaxError { line: 9, column: 1, offset: 0, expected: vec![Rule::Object] };
    assert_eq!(
        format_parser_err(&e, "{}", "x.corn"),
        "--> x.corn:9:1\n  | \n  | \nExpected one of:\n\tobject"
    );
}

#[test]
fn package_style_document() {
    let text = "let {
    $entry = \"dist/index.js\"
    $author = { name = \"John Smith\" email = \"mail@example.com\" }
} in {
    name = \"example-package\"
    version = \"1.0.0\"
    main = $entry
    bin.filebrowser = $entry
    private = false

    author = $author
    author.url = \"https://example.com\"

    contributors = [ $author ]

    scripts.build = \"tsc\"
    scripts.run = \"node dist\"

    config.port = 8080
    config.timeout = 12.3
    'with.dot' = 1
    with-dash = 2
}";
    let v = run(text).unwrap();
    let author = obj(vec![
        ("name", s("John Smith")),
        ("email", s("mail@example.com")),
        ("url", s("https://example.com")),
    ]);
    assert_eq!(
        v,
        obj(vec![
            ("name", s("example-package")),
            ("version", s("1.0.0")),
            ("main", s("dist/index.js")),
            ("bin", obj(vec![("filebrowser", s("dist/index.js"))])),
            ("private", Value::Boolean(false)),
            ("author", author),
            (
                "contributors",
                Value::Array(vec![obj(vec![("name", s("John Smith")), ("email", s("mail@example.com"))])])
            ),
            ("scripts", obj(vec![("build", s("tsc")), ("run", s("node dist"))])),
            ("config", obj(vec![("port", Value::Integer(8080)), ("timeout", Value::Float("12.3".to_string()))])),
            ("with.dot", Value::Integer(1)),
            ("with-dash", Value::Integer(2)),
        ])
    );
    assert_eq!(
        keys(&v),
        vec!["name", "version", "main", "bin", "private", "author", "contributors", "scripts", "config", "with.dot", "with-dash"]
    );
}

#[test]
fn very_compact_document() {
    let v = run("{foo={bar=\"x\"}baz=[1[2]{}]}").unwrap();
    assert_eq!(
        v,
        obj(vec![
            ("foo", obj(vec![("bar", s("x"))])),
            ("baz", Value::Array(vec![Value::Integer(1), Value::Array(vec![Value::Integer(2)]), obj(vec![])])),
        ])
    );
}

#[test]
fn empty_let_block() {
    assert_eq!(run("let { } in { a = null }").unwrap(), obj(vec![("a", Value::Null)]));
}

#[test]
fn float_forms() {
    let v = run("{ a = 1.5e3 b = -0.25 c = 2E-2 }").unwrap();
    assert_eq!(
        v,
        obj(vec![
            ("a", Value::Float("1.5e3".to_string())),
            ("b", Value::Float("-0.25".to_string())),
            ("c", Value::Float("2E-2".to_string())),
        ])
    );
}

#[test]
fn marker_line_spans_source_line() {
    let e = SyntaxError { line: 1, column: 1, offset: 0, expected: vec![Rule::Eoi] };
    assert_eq!(
        format_parser_err(&e, "abc", "f.corn"),
        "--> f.corn:1:1\n  | \n  | abc\n  | ^  \n  | \nExpected one of:\n\tEOI"
    );
    let past_end = SyntaxError { line: 1, column: 9, offset: 0, expected: vec![Rule::Eoi] };
    assert_eq!(
        format_parser_err(&past_end, "abc", "f.corn"),
        "--> f.corn:1:9\n  | \n  | abc\n  |    \n  | \nExpected one of:\n\tEOI"
    );
}
