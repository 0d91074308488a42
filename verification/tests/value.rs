use harraw::benchmark::Context;
use harraw::node::{duplicate_all, Node};
use harraw::text::{chars_of, hrw_parse_u64, hrw_split, hrw_text_before, hrw_trim, hrw_trim_end, is_whitespace, text_eq};
use harraw::value::{hrw_array_index, hrw_path_segments, Value};

fn chars(s: &str) -> Vec<char> {
    s.chars().collect()
}

fn text(s: &str) -> Value {
    Value::Text(s.to_string())
}

#[test]
fn paths_are_cut_into_segments() {
    let segments = |path: &str| -> Vec<String> {
        hrw_path_segments(&chars(path)).into_iter().map(|s| s.into_iter().collect()).collect()
    };
    assert_eq!(segments("a"), vec!["a"]);
    assert_eq!(segments("a.b.c"), vec!["a", "b", "c"]);
    assert_eq!(segments("a[0].b[12]"), vec!["a", "0", "b", "12"]);
    assert_eq!(segments("a[0][1]"), vec!["a", "0", "1"]);
    assert_eq!(segments("a..b"), vec!["a", "", "b"]);
    assert_eq!(segments("a]b"), vec!["ab"]);
    assert_eq!(segments("a/b"), vec!["a", "b"]);
    assert_eq!(segments("a~1b.c~0d"), vec!["a/b", "c~d"]);
    assert_eq!(segments("~01.~10.~~1~"), vec!["~1", "/0", "~/~"]);
    assert_eq!(segments(""), vec![""]);
    assert_eq!(segments("a."), vec!["a", ""]);
    for path in ["a", "a.b", "x[1].y", "a[[b]]", "..", "$a-b_c", "a/b~1c", "~", "~0~1~01~10", "a~", "~~00"] {
        let pointer = path.replace(['.', '['], "/").replace(']', "");
        let expected: Vec<String> = pointer.split('/').map(|s| s.replace("~1", "/").replace("~0", "~")).collect();
        assert_eq!(segments(path), expected);
    }
}

#[test]
fn array_positions_are_plain_numbers() {
    assert_eq!(hrw_array_index(&chars("0")), Some(0));
    assert_eq!(hrw_array_index(&chars("7")), Some(7));
    assert_eq!(hrw_array_index(&chars("120")), Some(120));
    assert_eq!(hrw_array_index(&chars("00")), None);
    assert_eq!(hrw_array_index(&chars("01")), None);
    assert_eq!(hrw_array_index(&chars("+1")), None);
    assert_eq!(hrw_array_index(&chars("-1")), None);
    assert_eq!(hrw_array_index(&chars("")), None);
    assert_eq!(hrw_array_index(&chars("1a")), None);
    assert_eq!(hrw_array_index(&chars("١")), None);
    assert_eq!(hrw_array_index(&chars(&usize::MAX.to_string())), Some(usize::MAX));
    assert_eq!(hrw_array_index(&chars(&format!("{}0", usize::MAX))), None);
    assert_eq!(hrw_array_index(&chars("18446744073709551616")), "18446744073709551616".parse::<usize>().ok());
}

#[test]
fn values_are_rendered() {
    let render = |v: Value| -> String { v.hrw_render().into_iter().collect() };
    assert_eq!(render(Value::Null), "");
    assert_eq!(render(Value::Bool(true)), "true");
    assert_eq!(render(Value::Bool(false)), "false");
    assert_eq!(render(Value::Number("-1.5e3".to_string())), "-1.5e3");
    assert_eq!(render(text("as \"is\"")), "as \"is\"");
    assert_eq!(render(Value::Array(vec![])), "[]");
    assert_eq!(render(Value::Object(vec![])), "{}");
    assert_eq!(
        render(Value::Array(vec![Value::Null, text("a\"b"), Value::Array(vec![Value::Bool(false)])])),
        "[null,\"a\\\"b\",[false]]"
    );
    assert_eq!(
        render(Value::Object(vec![("k".to_string(), Value::Number("1".to_string())), ("l m".to_string(), Value::Object(vec![]))])),
        "{\"k\":1,\"l m\":{}}"
    );
    let mut out = chars("x=");
    text("y").write_compact(&mut out);
    assert_eq!(out, chars("x=\"y\""));
}

#[test]
fn a_context_looks_up_the_latest_binding() {
    let mut context = Context::new();
    assert_eq!(context.lookup("a"), None);
    context.insert("a".to_string(), Value::Array(vec![text("x"), text("y")]));
    context.insert("a.b".to_string(), text("never reached by a path"));
    context.insert("".to_string(), text("empty"));
    assert_eq!(context.lookup("a[1]"), Some(&text("y")));
    assert_eq!(context.lookup("a.b"), None);
    assert_eq!(context.get("a.b"), Some(&text("never reached by a path")));
    assert_eq!(context.lookup(""), Some(&text("empty")));
    let manual = Context { entries: vec![("k".to_string(), text("old")), ("k".to_string(), text("new"))] };
    assert_eq!(manual.lookup("k"), Some(&text("new")));
    let nested = Value::Object(vec![("f".to_string(), text("first")), ("f".to_string(), text("last"))]);
    assert_eq!(nested.child(&chars("f")), Some(&text("last")));
    assert_eq!(nested.child(&chars("g")), None);
    assert_eq!(text("scalar").child(&chars("f")), None);
}

#[test]
fn nodes_are_read_and_copied() {
    let node = Node::Hash(vec![
        (Node::Text("a".to_string()), Node::Integer(1)),
        (Node::Integer(2), Node::Text("numeric key".to_string())),
        (Node::Text("a".to_string()), Node::Integer(3)),
        (Node::Text("list".to_string()), Node::Array(vec![Node::Boolean(true), Node::Real("1.5".to_string()), Node::Null])),
    ]);
    assert_eq!(node.get("a"), Some(&Node::Integer(1)));
    assert_eq!(node.get("2"), None);
    assert_eq!(node.get("b"), None);
    assert_eq!(Node::Array(vec![]).get("a"), None);
    assert!(node.is_hash());
    assert_eq!(node.get("a").unwrap().as_i64(), Some(1));
    assert_eq!(node.get("a").unwrap().as_str(), None);
    assert_eq!(node.get("list").unwrap().as_vec().unwrap().len(), 3);
    assert_eq!(Node::Boolean(true).as_bool(), Some(true));
    assert_eq!(Node::Text("true".to_string()).as_bool(), None);
    assert_eq!(Node::Real("1.5".to_string()).as_i64(), None);
    assert_eq!(node.duplicate(), node);
    assert_eq!(node.clone(), node);
    let list = vec![node.duplicate(), Node::Null];
    assert_eq!(duplicate_all(&list), list);
}

#[test]
fn texts_are_trimmed_split_and_ordered() {
    for s in ["", " ", "a", " a ", "\t\na b\r\n ", "\u{a0}x\u{2003}", "x\u{200b}", "  é  "] {
        assert_eq!(hrw_trim(&chars(s)), chars(s.trim()), "{s:?}");
        assert_eq!(hrw_trim_end(&chars(s)), chars(s.trim_end()), "{s:?}");
        assert_eq!(chars_of(s), chars(s));
    }
    for s in ["", ",", "a,b", ",a,,b,", "no comma", "é,ü"] {
        let expected: Vec<Vec<char>> = s.split(',').map(chars).collect();
        assert_eq!(hrw_split(&chars(s), ','), expected, "{s:?}");
    }
    let words = ["", "a", "ab", "b", "B", "é", "e", "a\u{10ffff}", "aa", "\u{e000}", "\u{d7ff}"];
    for a in words {
        for b in words {
            assert_eq!(hrw_text_before(a, b), a < b, "{a:?} {b:?}");
            assert_eq!(text_eq(a, b), a == b);
        }
    }
}

#[test]
fn whitespace_is_what_the_standard_library_takes_for_it() {
    let mut count = 0;
    for code in 0..=0x10ffffu32 {
        if let Some(c) = char::from_u32(code) {
            assert_eq!(is_whitespace(c), c.is_whitespace(), "U+{code:04X}");
            count += c.is_whitespace() as u32;
        }
    }
    assert_eq!(count, 25);
}

#[test]
fn every_character_is_quoted_as_json_asks() {
    for code in 0..=0x10ffffu32 {
        let Some(c) = char::from_u32(code) else { continue };
        let escaped = match c {
            '"' => "\\\"".to_string(),
            '\\' => "\\\\".to_string(),
            '\u{8}' => "\\b".to_string(),
            '\t' => "\\t".to_string(),
            '\n' => "\\n".to_string(),
            '\u{c}' => "\\f".to_string(),
            '\r' => "\\r".to_string(),
            c if code < 0x20 => format!("\\u00{:x}{:x}", code / 16, code % 16).replace(c, ""),
            c => c.to_string(),
        };
        let rendered: String = Value::Array(vec![Value::Text(format!("a{c}"))]).hrw_render().into_iter().collect();
        assert_eq!(rendered, format!("[\"a{escaped}\"]"), "U+{code:04X}");
    }
}

fn json_of(value: &Value) -> serde_json::Value {
    match value {
        Value::Null => serde_json::Value::Null,
        Value::Bool(b) => serde_json::Value::Bool(*b),
        Value::Number(n) => serde_json::Value::Number(n.parse().unwrap()),
        Value::Text(s) => serde_json::Value::String(s.clone()),
        Value::Array(items) => serde_json::Value::Array(items.iter().map(json_of).collect()),
        Value::Object(fields) => {
            serde_json::Value::Object(fields.iter().map(|(k, v)| (k.clone(), json_of(v))).collect())
        }
    }
}

fn sample() -> Vec<(String, Value)> {
    let object = |fields: Vec<(&str, Value)>| Value::Object(fields.into_iter().map(|(k, v)| (k.to_string(), v)).collect());
    vec![
        ("a".to_string(), Value::Array(vec![text("zero"), Value::Null, Value::Array(vec![Value::Bool(true)])])),
        ("a/b".to_string(), text("slash in a name")),
        ("m~n".to_string(), text("tilde in a name")),
        (
            "o".to_string(),
            object(vec![
                ("", text("empty name")),
                ("0", text("digit name")),
                ("k.l", text("dot in a name")),
                ("x/y", object(vec![("~", Value::Number("-12".to_string())), ("~1", Value::Number("1.5".to_string()))])),
                ("z", Value::Array(vec![])),
            ]),
        ),
        ("t".to_string(), text("plain \"text\"\n")),
        ("z".to_string(), object(vec![])),
    ]
}

#[test]
fn lookups_agree_with_json_pointers() {
    let context = Context { entries: sample() };
    let root = serde_json::Value::Object(sample().iter().map(|(k, v)| (k.clone(), json_of(v))).collect());
    let pieces = ["a", "o", "t", "z", "0", "1", "2", "01", "x", "y", "k", "l", "m", "n", "b", "", ".", "[", "]", "/", "~", "~0", "~1", "~01", "~10"];
    let mut found = 0;
    for p in pieces {
        for q in pieces {
            for r in pieces {
                for name in [format!("{p}{q}{r}"), format!("{p}.{q}[{r}]"), format!("{p}/{q}.{r}")] {
                    let pointer = format!("/{}", name.replace(['.', '['], "/").replace(']', ""));
                    let expected = root.pointer(&pointer);
                    let actual = context.lookup(&name);
                    assert_eq!(actual.map(json_of).as_ref(), expected, "{name:?}");
                    found += actual.is_some() as u32;
                }
            }
        }
    }
    assert!(found >= 10, "{found}");
    assert_eq!(context.lookup("a~1b"), Some(&text("slash in a name")));
    assert_eq!(context.lookup("a/b"), None);
    assert_eq!(context.lookup("m~0n"), Some(&text("tilde in a name")));
    assert_eq!(context.lookup("o.x~1y.~01"), Some(&Value::Number("1.5".to_string())));
    assert_eq!(context.lookup("o.x~1y[~0]"), Some(&Value::Number("-12".to_string())));
    assert_eq!(context.lookup("o."), Some(&text("empty name")));
    assert_eq!(context.lookup("o.k.l"), None);
}

#[test]
fn rendering_agrees_with_the_json_serializer() {
    let mut values: Vec<Value> = sample().into_iter().map(|(_, v)| v).collect();
    values.push(Value::Object(sample()));
    values.push(Value::Array(sample().into_iter().map(|(k, v)| Value::Array(vec![Value::Text(k), v])).collect()));
    values.push(text("é \u{0} \u{1f} \u{7f} \u{80} \u{2028} \u{10ffff} \\ / \" '"));
    for value in &values {
        let mut out = Vec::new();
        value.write_compact(&mut out);
        let written: String = out.into_iter().collect();
        assert_eq!(written, serde_json::to_string(&json_of(value)).unwrap());
        let reread: serde_json::Value = serde_json::from_str(&written).unwrap();
        assert_eq!(reread, json_of(value));
    }
}

#[test]
fn numbers_without_a_sign_are_read() {
    for text in ["0", "10", "+7", "007", "18446744073709551615", "18446744073709551616", "-1", "", "+", "1s", " 1", "1.5"] {
        assert_eq!(hrw_parse_u64(text), text.parse::<u64>().ok(), "{text:?}");
    }
    assert_eq!(hrw_parse_u64("18446744073709551615"), Some(u64::MAX));
    assert_eq!(hrw_parse_u64("-0"), None);
}
