use harraw::benchmark::Context;
use harraw::config::{hrw_read_i64_configuration, hrw_read_str_configuration, hrw_timeout, ConfigNote, HarrawConfig};
use harraw::error::HarrawError;
use harraw::interpolator::HarrawInterpolator;
use harraw::node::Node;
use harraw::value::Value;
use yaml_rust::{Yaml, YamlLoader};

fn node_of(yaml: &Yaml) -> Node {
    match yaml {
        Yaml::Real(s) => Node::Real(s.clone()),
        Yaml::Integer(i) => Node::Integer(*i),
        Yaml::String(s) => Node::Text(s.clone()),
        Yaml::Boolean(b) => Node::Boolean(*b),
        Yaml::Array(items) => Node::Array(items.iter().map(node_of).collect()),
        Yaml::Hash(pairs) => Node::Hash(pairs.iter().map(|(k, v)| (node_of(k), node_of(v))).collect()),
        _ => Node::Null,
    }
}

fn load(text: &str) -> Node {
    let docs = YamlLoader::load_from_str(text).unwrap();
    node_of(&docs[0])
}

fn env() -> Vec<(String, String)> {
    vec![
        ("HOST".to_string(), "example.com".to_string()),
        ("USERS".to_string(), "25".to_string()),
        ("NEGATIVE".to_string(), "-4".to_string()),
        ("WORD".to_string(), "many".to_string()),
    ]
}

#[test]
fn a_configuration_is_read_with_its_defaults() {
    let doc = load("base: 'http://localhost:9000'\niterations: 5\nplan: []");
    let config = HarrawConfig::new(&doc, &env(), true, false, true, false, 7, true).unwrap();
    assert_eq!(
        config,
        HarrawConfig {
            base: "http://localhost:9000".to_string(),
            concurrency: 5,
            iterations: 5,
            relaxed_interpolations: true,
            no_check_certificate: false,
            rampup: 0,
            quiet: true,
            nanosec: false,
            timeout: 7,
            verbose: true,
        }
    );
    let bare = HarrawConfig::new(&load("plan: []"), &env(), false, true, false, true, 10, false).unwrap();
    assert_eq!((bare.base.as_str(), bare.concurrency, bare.iterations, bare.rampup), ("", 1, 1, 0));
    assert!(bare.no_check_certificate && bare.nanosec);
    let full = HarrawConfig::new(&load("base: x\nconcurrency: 4\niterations: 40\nrampup: 9"), &env(), false, false, false, false, 10, false).unwrap();
    assert_eq!((full.base.as_str(), full.concurrency, full.iterations, full.rampup), ("x", 4, 40, 9));
}

#[test]
fn settings_may_come_from_the_environment() {
    let doc = load("base: 'http://{{ HOST }}/'\nconcurrency: '{{ USERS }}'\niterations: '{{ NEGATIVE }}'\nrampup: '{{ WORD }}'");
    let config = HarrawConfig::new(&doc, &env(), false, false, false, false, 10, false).unwrap();
    assert_eq!(config.base, "http://example.com/");
    assert_eq!(config.concurrency, 25);
    assert_eq!(config.iterations, 1);
    assert_eq!(config.rampup, 0);
    let unknown = load("base: 'http://{{ NOBODY }}/'");
    assert_eq!(
        HarrawConfig::new(&unknown, &env(), true, false, false, false, 10, false),
        Err(HarrawError::UnknownVariable("NOBODY".to_string()))
    );
    let relaxed = load("concurrency: '{{ NOBODY }}'\niterations: 3");
    assert_eq!(HarrawConfig::new(&relaxed, &env(), false, false, false, false, 10, false).unwrap().concurrency, 3);
}

#[test]
fn numeric_settings_say_how_they_came_about() {
    let doc = load("a: 3\nb: -3\nc: '12'\nd: '{{ USERS }}'\ne: '{{ NEGATIVE }}'\nf: twelve\ng: 1.5\nh: [1]\ni: ''\nj: '+7'\nk: 0\nl: '{{ n }}0'");
    let mut context = Context::new();
    context.insert("n".to_string(), Value::Number("5".to_string()));
    let env = env();
    let interpolator = HarrawInterpolator::new(&context, &env);
    let read = |name: &str| hrw_read_i64_configuration(&doc, &interpolator, name, 99).unwrap();
    assert_eq!(read("a"), (3, ConfigNote::Accepted));
    assert_eq!(read("b"), (99, ConfigNote::Negative));
    assert_eq!(read("c"), (12, ConfigNote::Accepted));
    assert_eq!(read("d"), (25, ConfigNote::Accepted));
    assert_eq!(read("e"), (99, ConfigNote::Negative));
    assert_eq!(read("f"), (99, ConfigNote::Invalid));
    assert_eq!(read("g"), (99, ConfigNote::Absent));
    assert_eq!(read("h"), (99, ConfigNote::Absent));
    assert_eq!(read("i"), (99, ConfigNote::Invalid));
    assert_eq!(read("j"), (7, ConfigNote::Accepted));
    assert_eq!(read("k"), (0, ConfigNote::Accepted));
    assert_eq!(read("l"), (50, ConfigNote::Accepted));
    assert_eq!(read("zzz"), (99, ConfigNote::Absent));
    assert_eq!(hrw_read_i64_configuration(&Node::Null, &interpolator, "a", -1), Ok((-1, ConfigNote::Absent)));
}

#[test]
fn text_settings_are_interpolated_only_with_a_brace() {
    let doc = load("a: plain\nb: 'x{{ HOST }}y'\nc: 'only {'\nd: 3\ne: '{{ gone }}'\nf: '}} no brace'");
    let context = Context::new();
    let env = env();
    let interpolator = HarrawInterpolator::new(&context, &env);
    let read = |name: &str| hrw_read_str_configuration(&doc, &interpolator, name, "fallback");
    assert_eq!(read("a"), Ok("plain".to_string()));
    assert_eq!(read("b"), Ok("xexample.comy".to_string()));
    assert_eq!(read("c"), Ok("only {".to_string()));
    assert_eq!(read("d"), Ok("fallback".to_string()));
    assert_eq!(read("e"), Err(HarrawError::UnknownVariable("gone".to_string())));
    assert_eq!(read("f"), Ok("}} no brace".to_string()));
    assert_eq!(read("zzz"), Ok("fallback".to_string()));
}

#[test]
fn the_timeout_falls_back_to_ten_seconds() {
    assert_eq!(hrw_timeout(None), 10);
    assert_eq!(hrw_timeout(Some("30")), 30);
    assert_eq!(hrw_timeout(Some("0")), 0);
    assert_eq!(hrw_timeout(Some("+5")), 5);
    assert_eq!(hrw_timeout(Some("soon")), 10);
    assert_eq!(hrw_timeout(Some("-3")), 10);
    assert_eq!(hrw_timeout(Some("")), 10);
    assert_eq!(hrw_timeout(Some("1.5")), 10);
    assert_eq!(hrw_timeout(Some("99999999999999999999")), 10);
    for text in ["12", "x", "+1", " 1"] {
        assert_eq!(hrw_timeout(Some(text)), text.parse().unwrap_or(10));
    }
}
