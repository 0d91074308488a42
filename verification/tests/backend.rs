use harraw::backend::inclusion::{hrw_expand_from_filepath, hrw_simple_step};
use harraw::backend::{hrw_arrange, hrw_pick, HarrawSource};
use harraw::backend::{inclusion, multi_csv_request, multi_file_request, multi_iter_request, multi_request};
use harraw::benchmark::Benchmark;
use harraw::error::{HarrawError, Property, SourceKind};
use harraw::node::Node;
use harraw::service::HarrawStep;
use harraw::tags::HarrawTags;
use yaml_rust::{Yaml, YamlLoader};

fn node_of(yaml: &Yaml) -> Node {
    match yaml {
        Yaml::Real(s) => Node::Real(s.clone()),
        Yaml::Integer(i) => Node::Integer(*i),
        Yaml::String(s) => Node::Text(s.clone()),
        Yaml::Boolean(b) => Node::Boolean(*b),
        Yaml::Array(items) => Node::Array(items.iter().map(node_of).collect()),
        Yaml::Hash(pairs) => Node::Hash(pairs.iter().map(|(k, v)| (node_of(k), node_of(v))).collect()),
        _ => Node::Null,
    }
}

fn load(text: &str) -> Node {
    let docs = YamlLoader::load_from_str(text).unwrap();
    node_of(&docs[0])
}

fn items_of(text: &str) -> Vec<Node> {
    match load(text) {
        Node::Array(items) => items,
        _ => unreachable!(),
    }
}

fn source(kind: SourceKind, parent: &str, name: &str, path: &str, items: Vec<Node>) -> HarrawSource {
    HarrawSource { kind, parent: parent.to_string(), name: name.to_string(), path: path.to_string(), items }
}

/// The files beside `example/benchmark.yml`.
fn fixtures() -> Vec<HarrawSource> {
    vec![
        source(
            SourceKind::Plan,
            "example/benchmark.yml",
            "comments.yml",
            "example/comments.yml",
            vec![load("- name: Fetch comments\n  request:\n    url: /api/comments.json\n- name: Fetch one comment\n  request:\n    url: /api/comments/1.json")],
        ),
        source(
            SourceKind::Csv(b'"'),
            "example/benchmark.yml",
            "./fixtures/users.csv",
            "example/./fixtures/users.csv",
            items_of("- id: '70'\n  name: Philip\n- id: '73'\n  name: Chuck"),
        ),
        source(
            SourceKind::Items,
            "example/benchmark.yml",
            "./fixtures/texts.txt",
            "example/./fixtures/texts.txt",
            items_of("- one\n- two\n- three"),
        ),
    ]
}

fn values_of(benchmark: &Benchmark) -> Vec<(Node, u32)> {
    benchmark
        .iter()
        .map(|step| match step {
            HarrawStep::Request(r) => (r.with_item.clone().unwrap(), r.index.unwrap()),
            _ => unreachable!(),
        })
        .collect()
}

#[test]
fn hrw_expand_include() {
    let text = "---\nname: Include comment\ninclude: comments.yml";
    let doc = &load(text);
    let mut benchmark: Benchmark = Benchmark::new();

    inclusion::hrw_expand("example/benchmark.yml", doc, &mut benchmark, &HarrawTags::new(None, None).unwrap(), &fixtures()).unwrap();

    assert!(inclusion::hrw_is_that_you(doc));
    assert_eq!(benchmark.len(), 2);
}

#[test]
#[should_panic]
fn include_hrw_invalid_expand() {
    let text = "---\nname: Include comment\ninclude: {{ memory }}.yml";
    let doc = &load(text);
    let mut benchmark: Benchmark = Benchmark::new();

    inclusion::hrw_expand("example/benchmark.yml", doc, &mut benchmark, &HarrawTags::new(None, None).unwrap(), &fixtures()).unwrap();
}

#[test]
fn hrw_should_return_the_configured_value() {
    let text = "---\nname: foobar\nrequest:\n  url: /api/{{ item }}\npick: 2\nwith_items:\n  - 1\n  - 2\n  - 3";
    let item = &load(text);
    let pick = hrw_pick(item, item.get("with_items").unwrap().as_vec().unwrap()).unwrap();

    assert_eq!(pick, 2);
}

#[test]
fn hrw_should_return_the_with_items_length_if_unset() {
    let text = "---\nname: foobar\nrequest:\n  url: /api/{{ item }}\nwith_items:\n  - 1\n  - 2\n  - 3";
    let item = &load(text);
    let pick = hrw_pick(item, item.get("with_items").unwrap().as_vec().unwrap()).unwrap();

    assert_eq!(pick, 3);
}

#[test]
#[should_panic(expected = "pick option should not be negative, but was -1")]
fn hrw_should_panic_for_negative_values() {
    let text = "---\nname: foobar\nrequest:\n  url: /api/{{ item }}\npick: -1\nwith_items:\n  - 1\n  - 2\n  - 3";
    let item = &load(text);
    hrw_pick(item, item.get("with_items").unwrap().as_vec().unwrap()).unwrap_or_else(|e| panic!("{}", e.message()));
}

#[test]
#[should_panic(expected = "pick option should not be greater than the provided items, but was 4")]
fn hrw_should_panic_for_values_greater_than_the_items_list() {
    let text = "---\nname: foobar\nrequest:\n  url: /api/{{ item }}\npick: 4\nwith_items:\n  - 1\n  - 2\n  - 3";
    let item = &load(text);
    hrw_pick(item, item.get("with_items").unwrap().as_vec().unwrap()).unwrap_or_else(|e| panic!("{}", e.message()));
}

#[test]
fn a_pick_out_of_range_gives_its_value() {
    let negative = load("---\nname: foobar\nrequest:\n  url: /\npick: -1\nwith_items:\n  - 1\n  - 2\n  - 3");
    let large = load("---\nname: foobar\nrequest:\n  url: /\npick: 4\nwith_items:\n  - 1\n  - 2\n  - 3");
    let exact = load("---\nname: foobar\nrequest:\n  url: /\npick: 3\nwith_items:\n  - 1\n  - 2\n  - 3");
    let zero = load("---\nname: foobar\nrequest:\n  url: /\npick: 0\nwith_items:\n  - 1\n  - 2\n  - 3");
    let text = load("---\nname: foobar\nrequest:\n  url: /\npick: two\nwith_items:\n  - 1\n  - 2\n  - 3");
    let items = items_of("- 1\n- 2\n- 3");
    assert_eq!(hrw_pick(&negative, &items), Err(HarrawError::NegativePick(-1)));
    assert_eq!(hrw_pick(&large, &items), Err(HarrawError::PickTooLarge(4)));
    assert_eq!(hrw_pick(&exact, &items), Ok(3));
    assert_eq!(hrw_pick(&zero, &items), Ok(0));
    assert_eq!(hrw_pick(&text, &items), Ok(3));
    let mut benchmark = Benchmark::new();
    assert_eq!(multi_request::hrw_expand(&large, &mut benchmark), Err(HarrawError::PickTooLarge(4)));
    assert_eq!(multi_request::hrw_expand(&negative, &mut benchmark), Err(HarrawError::NegativePick(-1)));
    assert!(benchmark.is_empty());
}

#[test]
fn expand_multi() {
    let text = "---\nname: foobar\nrequest:\n  url: /api/{{ item.id }}\nwith_items_from_csv: ./fixtures/users.csv";
    let doc = &load(text);
    let mut benchmark: Benchmark = Benchmark::new();

    multi_csv_request::hrw_expand("example/benchmark.yml", doc, &mut benchmark, &fixtures()).unwrap();

    assert!(multi_csv_request::hrw_is_that_you(doc));
    assert_eq!(benchmark.len(), 2);
}

#[test]
fn expand_multi_should_limit_requests_using_the_pick_option() {
    let text = "---\nname: foobar\nrequest:\n  url: /api/{{ item }}\npick: 2\nwith_items_from_csv: ./fixtures/users.csv";
    let doc = &load(text);
    let mut benchmark: Benchmark = Benchmark::new();

    multi_csv_request::hrw_expand("example/benchmark.yml", doc, &mut benchmark, &fixtures()).unwrap();

    assert!(multi_csv_request::hrw_is_that_you(doc));
    assert_eq!(benchmark.len(), 2);
}

#[test]
fn expand_multi_should_work_with_pick_and_shuffle() {
    let text = "---\nname: foobar\nrequest:\n  url: /api/{{ item }}\npick: 1\nshuffle: true\nwith_items_from_csv: ./fixtures/users.csv";
    let doc = &load(text);
    let mut benchmark: Benchmark = Benchmark::new();

    multi_csv_request::hrw_expand("example/benchmark.yml", doc, &mut benchmark, &fixtures()).unwrap();

    assert!(multi_csv_request::hrw_is_that_you(doc));
    assert_eq!(benchmark.len(), 1);
}

#[test]
#[should_panic]
fn runtime_expand() {
    let text = "---\nname: foobar\nrequest:\n  url: /api/{{ item.id }}\nwith_items_from_csv: ./fixtures/{{ memory }}.csv";
    let doc = &load(text);
    let mut benchmark: Benchmark = Benchmark::new();

    multi_csv_request::hrw_expand("example/benchmark.yml", doc, &mut benchmark, &fixtures()).unwrap();
}

#[test]
fn multi_file_request_hrw_expand_multi() {
    let text = "---\nname: foobar\nrequest:\n  url: /api/{{ item.id }}\nwith_items_from_file: ./fixtures/texts.txt";
    let doc = &load(text);
    let mut benchmark: Benchmark = Benchmark::new();

    multi_file_request::hrw_expand("example/benchmark.yml", doc, &mut benchmark, &fixtures()).unwrap();

    assert!(multi_file_request::hrw_is_that_you(doc));
    assert_eq!(benchmark.len(), 3);
}

#[test]
fn multi_file_request_hrw_expand_multi_should_limit_requests_using_the_pick_option() {
    let text = "---\nname: foobar\nrequest:\n  url: /api/{{ item }}\npick: 2\nwith_items_from_file: ./fixtures/texts.txt";
    let doc = &load(text);
    let mut benchmark: Benchmark = Benchmark::new();

    multi_file_request::hrw_expand("example/benchmark.yml", doc, &mut benchmark, &fixtures()).unwrap();

    assert!(multi_file_request::hrw_is_that_you(doc));
    assert_eq!(benchmark.len(), 2);
}

#[test]
fn multi_file_request_hrw_expand_multi_should_work_with_pick_and_shuffle() {
    let text = "---\nname: foobar\nrequest:\n  url: /api/{{ item }}\npick: 1\nshuffle: true\nwith_items_from_file: ./fixtures/texts.txt";
    let doc = &load(text);
    let mut benchmark: Benchmark = Benchmark::new();

    multi_file_request::hrw_expand("example/benchmark.yml", doc, &mut benchmark, &fixtures()).unwrap();

    assert!(multi_file_request::hrw_is_that_you(doc));
    assert_eq!(benchmark.len(), 1);
}

#[test]
fn expand_multi_range() {
    let text = "---\nname: foobar\nrequest:\n  url: /api/{{ item }}\nwith_items_range:\n  start: 2\n  step: 2\n  stop: 20";
    let doc = &load(text);
    let mut benchmark: Benchmark = Benchmark::new();

    multi_iter_request::hrw_expand(doc, &mut benchmark).unwrap();

    assert!(multi_iter_request::hrw_is_that_you(doc));
    assert_eq!(benchmark.len(), 10);
}

#[test]
fn hrw_expand_multi_range_should_limit_requests_using_the_pick_option() {
    let text = "---\nname: foobar\nrequest:\n  url: /api/{{ item }}\npick: 3\nwith_items_range:\n  start: 2\n  step: 2\n  stop: 20";
    let doc = &load(text);
    let mut benchmark: Benchmark = Benchmark::new();

    multi_iter_request::hrw_expand(doc, &mut benchmark).unwrap();

    assert!(multi_iter_request::hrw_is_that_you(doc));
    assert_eq!(benchmark.len(), 3);
}

#[test]
#[should_panic]
fn multi_iter_request_hrw_invalid_expand() {
    let text = "---\nname: foobar\nrequest:\n  url: /api/{{ item }}\nwith_items_range:\n  start: 1\n  step: 2\n  stop: foo";
    let doc = &load(text);
    let mut benchmark: Benchmark = Benchmark::new();

    multi_iter_request::hrw_expand(doc, &mut benchmark).unwrap();
}

#[test]
#[should_panic]
fn multi_iter_request_hrw_runtime_expand() {
    let text = "---\nname: foobar\nrequest:\n  url: /api/{{ item }}\nwith_items_range:\n  start: 1\n  step: 2\n  stop: \"{{ memory }}\"";
    let doc = &load(text);
    let mut benchmark: Benchmark = Benchmark::new();

    multi_iter_request::hrw_expand(doc, &mut benchmark).unwrap();
}

#[test]
fn multi_request_hrw_expand_multi() {
    let text = "---\nname: foobar\nrequest:\n  url: /api/{{ item }}\nwith_items:\n  - 1\n  - 2\n  - 3";
    let doc = &load(text);
    let mut benchmark: Benchmark = Benchmark::new();

    multi_request::hrw_expand(doc, &mut benchmark).unwrap();

    assert!(multi_request::hrw_is_that_you(doc));
    assert_eq!(benchmark.len(), 3);
}

#[test]
fn multi_request_hrw_expand_multi_should_limit_requests_using_the_pick_option() {
    let text = "---\nname: foobar\nrequest:\n  url: /api/{{ item }}\npick: 2\nwith_items:\n  - 1\n  - 2\n  - 3";
    let doc = &load(text);
    let mut benchmark: Benchmark = Benchmark::new();

    multi_request::hrw_expand(doc, &mut benchmark).unwrap();

    assert!(multi_request::hrw_is_that_you(doc));
    assert_eq!(benchmark.len(), 2);
}

#[test]
fn multi_request_hrw_expand_multi_should_work_with_pick_and_shuffle() {
    let text = "---\nname: foobar\nrequest:\n  url: /api/{{ item }}\npick: 1\nshuffle: true\nwith_items:\n  - 1\n  - 2\n  - 3";
    let doc = &load(text);
    let mut benchmark: Benchmark = Benchmark::new();

    multi_request::hrw_expand(doc, &mut benchmark).unwrap();

    assert!(multi_request::hrw_is_that_you(doc));
    assert_eq!(benchmark.len(), 1);
}

#[test]
#[should_panic]
fn multi_request_hrw_runtime_expand() {
    let text = "---\nname: foobar\nrequest:\n  url: /api/{{ item }}\nwith_items:\n  - 1\n  - 2\n  - foo{{ memory }}";
    let doc = &load(text);
    let mut benchmark: Benchmark = Benchmark::new();

    multi_request::hrw_expand(doc, &mut benchmark).unwrap();
}

#[test]
fn the_range_includes_its_stop() {
    let doc = load("---\nname: foobar\nrequest:\n  url: /api/{{ item }}\nwith_items_range:\n  start: 2\n  step: 2\n  stop: 20");
    let mut benchmark = Benchmark::new();
    multi_iter_request::hrw_expand(&doc, &mut benchmark).unwrap();
    let expected: Vec<(Node, u32)> = (0..10).map(|k| (Node::Integer(2 + 2 * k), k as u32)).collect();
    assert_eq!(values_of(&benchmark), expected);
    for step in &benchmark {
        match step {
            HarrawStep::Request(r) => assert_eq!(r.definition, doc),
            _ => unreachable!(),
        }
    }
}

#[test]
fn ranges_at_their_edges() {
    let range = |body: &str| -> Result<Vec<i64>, HarrawError> {
        let doc = load(&format!("---\nname: r\nrequest:\n  url: /\n{body}"));
        let steps = multi_iter_request::hrw_generate(&doc)?;
        Ok(values_of(&steps).into_iter().map(|(v, _)| v.as_i64().unwrap()).collect())
    };
    assert_eq!(range("with_items_range:\n  start: 1\n  stop: 3"), Ok(vec![1, 2, 3]));
    assert_eq!(range("with_items_range:\n  start: 3\n  stop: 3"), Ok(vec![3]));
    assert_eq!(range("with_items_range:\n  start: 1\n  step: 3\n  stop: 8"), Ok(vec![1, 4, 7]));
    assert_eq!(range("with_items_range:\n  start: 1\n  step: 100\n  stop: 8"), Ok(vec![1]));
    assert_eq!(range("with_items_range:\n  start: 1\n  step: -2\n  stop: 8"), Ok(vec![1]));
    assert_eq!(range("with_items_range:\n  start: 4\n  stop: 3"), Ok(vec![]));
    assert_eq!(range("with_items_range:\n  start: 0\n  stop: 3"), Ok(vec![]));
    assert_eq!(range("with_items_range:\n  start: -5\n  stop: 3"), Ok(vec![]));
    assert_eq!(range("with_items_range:\n  start: 0\n  step: 0\n  stop: 3"), Ok(vec![]));
    assert_eq!(range("with_items_range:\n  start: 1\n  step: 0\n  stop: 3"), Err(HarrawError::ZeroStep));
    assert_eq!(
        range("with_items_range:\n  start: 9223372036854775806\n  stop: 9223372036854775807"),
        Ok(vec![i64::MAX - 1, i64::MAX])
    );
    assert_eq!(range("pick: 2\nwith_items_range:\n  start: 1\n  stop: 5"), Ok(vec![1, 2]));
    assert_eq!(range("pick: 0\nwith_items_range:\n  start: 1\n  stop: 5"), Ok(vec![]));
    assert_eq!(range("pick: 5\nwith_items_range:\n  start: 1\n  stop: 5"), Ok(vec![1, 2, 3, 4, 5]));
    assert_eq!(range("pick: 6\nwith_items_range:\n  start: 1\n  stop: 5"), Err(HarrawError::PickTooLarge(6)));
    assert_eq!(
        range("pick: 11\nwith_items_range:\n  start: 2\n  step: 2\n  stop: 20"),
        Err(HarrawError::PickTooLarge(11))
    );
    assert_eq!(range("pick: 10\nwith_items_range:\n  start: 2\n  step: 2\n  stop: 20").map(|v| v.len()), Ok(10));
    assert_eq!(range("pick: -1\nwith_items_range:\n  start: 1\n  stop: 5"), Err(HarrawError::NegativePick(-1)));
    assert_eq!(range("pick: -1\nwith_items_range:\n  start: 9\n  stop: 5"), Ok(vec![]));
    assert_eq!(range("with_items_range:\n  step: 1\n  stop: 5"), Err(HarrawError::MissingStart));
    assert_eq!(range("with_items_range:\n  start: 1\n  step: 1"), Err(HarrawError::MissingStop));
    assert_eq!(range("with_items_range:\n  start: a\n  stop: 5"), Err(HarrawError::StartNotNumber));
    assert_eq!(range("with_items_range:\n  start: 1\n  step: 1.5\n  stop: 5"), Err(HarrawError::StepNotNumber));
    assert_eq!(range("with_items_range:\n  start: 1\n  step: 2\n  stop: foo"), Err(HarrawError::StopNotNumber));
    assert_eq!(
        range("with_items_range:\n  start: \"{{ a }}\"\n  stop: \"{{ b }}\""),
        Err(HarrawError::InterpolationForbidden(Property::Start))
    );
    assert_eq!(
        range("with_items_range:\n  start: 1\n  step: \"{{ a }}\"\n  stop: \"{{ b }}\""),
        Err(HarrawError::InterpolationForbidden(Property::Step))
    );
    assert_eq!(
        range("with_items_range:\n  start: 1\n  step: 2\n  stop: \"{{ memory }}\""),
        Err(HarrawError::InterpolationForbidden(Property::Stop))
    );
}

#[test]
fn a_list_keeps_its_order_and_its_values() {
    let doc = load("---\nname: foobar\nrequest:\n  url: /api/{{ item }}\npick: 2\nwith_items:\n  - 1\n  - two\n  - 3");
    let mut benchmark = Benchmark::new();
    multi_request::hrw_expand(&doc, &mut benchmark).unwrap();
    assert_eq!(values_of(&benchmark), vec![(Node::Integer(1), 0), (Node::Text("two".to_string()), 1)]);
    let unshuffled = load("---\nname: foobar\nrequest:\n  url: /\nshuffle: false\nwith_items:\n  - a\n  - b\n  - c");
    let steps = multi_request::hrw_generate(&unshuffled).unwrap();
    let texts: Vec<Node> = values_of(&steps).into_iter().map(|(v, _)| v).collect();
    assert_eq!(texts, items_of("- a\n- b\n- c"));
}

#[test]
fn a_token_in_a_picked_list_value_is_refused() {
    let doc = load("---\nname: foobar\nrequest:\n  url: /\nwith_items:\n  - 1\n  - 2\n  - foo{{ memory }}");
    let mut benchmark = Benchmark::new();
    assert_eq!(
        multi_request::hrw_expand(&doc, &mut benchmark),
        Err(HarrawError::InterpolationForbidden(Property::WithItems))
    );
    assert!(benchmark.is_empty());
    let picked_before = load("---\nname: foobar\nrequest:\n  url: /\npick: 2\nwith_items:\n  - 1\n  - 2\n  - foo{{ memory }}");
    assert_eq!(multi_request::hrw_generate(&picked_before).unwrap().len(), 2);
    let no_list = load("---\nname: foobar\nrequest:\n  url: /\nwith_items: 3");
    assert!(!multi_request::hrw_is_that_you(&no_list));
    assert_eq!(multi_request::hrw_generate(&no_list).unwrap().len(), 0);
}

#[test]
fn shuffling_comes_before_picking() {
    let doc = load("---\nname: foobar\nrequest:\n  url: /api/{{ item }}\npick: 1\nshuffle: true\nwith_items:\n  - 1\n  - 2\n  - 3");
    let mut seen = [false; 3];
    for _ in 0..2000 {
        let steps = multi_request::hrw_generate(&doc).unwrap();
        let values = values_of(&steps);
        assert_eq!(values.len(), 1);
        assert_eq!(values[0].1, 0);
        match values[0].0 {
            Node::Integer(v) if (1..=3).contains(&v) => seen[(v - 1) as usize] = true,
            _ => unreachable!(),
        }
    }
    assert_eq!(seen, [true, true, true]);
}

#[test]
fn a_shuffle_rearranges_and_loses_nothing() {
    let source = items_of("- 1\n- 2\n- 2\n- a\n- [x, y]\n- {k: v}\n- ~");
    let mut moved = false;
    for _ in 0..200 {
        let order = hrw_arrange(&source, true);
        assert_eq!(order.len(), source.len());
        let mut left = source.clone();
        for item in &order {
            let at = left.iter().position(|x| x == item).unwrap();
            left.remove(at);
        }
        assert!(left.is_empty());
        moved = moved || order != source;
    }
    assert!(moved);
    assert_eq!(hrw_arrange(&source, false), source);
    assert_eq!(hrw_arrange(&Vec::new(), true), Vec::<Node>::new());
}

#[test]
fn csv_sources_and_their_quote_characters() {
    let sources = vec![
        source(SourceKind::Csv(b'"'), "plans/a.yml", "users.csv", "plans/users.csv", items_of("- {id: '1'}")),
        source(SourceKind::Csv(b'\''), "plans/a.yml", "users.csv", "plans/users.csv", items_of("- {id: '1'}\n- {id: '2'}")),
        source(SourceKind::Csv(0xc3), "plans/a.yml", "users.csv", "plans/users.csv", items_of("- {id: '1'}\n- {id: '2'}\n- {id: '3'}")),
    ];
    let count = |body: &str| -> Result<usize, HarrawError> {
        let doc = load(&format!("---\nname: r\nrequest:\n  url: /\n{body}"));
        assert!(multi_csv_request::hrw_is_that_you(&doc));
        Ok(multi_csv_request::hrw_generate("plans/a.yml", &doc, &sources)?.len())
    };
    assert_eq!(count("with_items_from_csv: users.csv"), Ok(1));
    assert_eq!(count("with_items_from_csv:\n  file_name: users.csv"), Ok(1));
    assert_eq!(count("with_items_from_csv:\n  file_name: users.csv\n  quote_char: \"'\""), Ok(2));
    assert_eq!(count("with_items_from_csv:\n  file_name: users.csv\n  quote_char: \"'x\""), Ok(2));
    assert_eq!(count("with_items_from_csv:\n  file_name: users.csv\n  quote_char: \"é\""), Ok(3));
    assert_eq!(count("with_items_from_csv:\n  file_name: users.csv\n  quote_char: \"\""), Err(HarrawError::InvalidQuoteChar));
    assert_eq!(count("with_items_from_csv:\n  quote_char: \"'\""), Err(HarrawError::MissingFileName));
    assert_eq!(
        count("with_items_from_csv: other.csv"),
        Err(HarrawError::MissingSource(SourceKind::Csv(b'"'), "plans/a.yml".to_string(), "other.csv".to_string()))
    );
    assert_eq!(
        count("with_items_from_csv: ./fixtures/{{ memory }}.csv"),
        Err(HarrawError::InterpolationForbidden(Property::CsvFile))
    );
    assert_eq!(count("pick: 2\nwith_items_from_csv: users.csv"), Err(HarrawError::PickTooLarge(2)));
}

#[test]
fn file_sources() {
    let sources = fixtures();
    let expand = |body: &str| -> Result<Vec<(Node, u32)>, HarrawError> {
        let doc = load(&format!("---\nname: r\nrequest:\n  url: /\n{body}"));
        assert!(multi_file_request::hrw_is_that_you(&doc));
        Ok(values_of(&multi_file_request::hrw_generate("example/benchmark.yml", &doc, &sources)?))
    };
    assert_eq!(
        expand("pick: 2\nwith_items_from_file: ./fixtures/texts.txt"),
        Ok(vec![(Node::Text("one".to_string()), 0), (Node::Text("two".to_string()), 1)])
    );
    assert_eq!(
        expand("with_items_from_file: ./fixtures/{{ x }}.txt"),
        Err(HarrawError::InterpolationForbidden(Property::ItemsFile))
    );
    assert_eq!(
        expand("with_items_from_file: missing.txt"),
        Err(HarrawError::MissingSource(SourceKind::Items, "example/benchmark.yml".to_string(), "missing.txt".to_string()))
    );
    assert_eq!(expand("with_items_from_file:\n  file_name: ./fixtures/texts.txt"), Err(HarrawError::UnsupportedSource));
    assert_eq!(expand("pick: 4\nwith_items_from_file: ./fixtures/texts.txt"), Err(HarrawError::PickTooLarge(4)));
}

fn plan_sources() -> Vec<HarrawSource> {
    let mut sources = fixtures();
    sources.push(source(
        SourceKind::Plan,
        "",
        "",
        "example/benchmark.yml",
        vec![load(
            "base: http://localhost\nplan:\n  - name: first\n    assign:\n      key: a\n      value: 1\n  - name: Include comment\n    include: comments.yml\n    tags: [never]\n  - name: wait\n    delay:\n      seconds: 2\n  - name: rows\n    request:\n      url: /{{ item.id }}\n    with_items_from_csv: ./fixtures/users.csv\n  - name: skipped\n    tags: [never]\n    request:\n      url: /never\n  - name: last\n    assert:\n      key: a\n      value: 1\n",
        )],
    ));
    sources
}

#[test]
fn included_steps_stand_where_the_directive_stands() {
    let sources = plan_sources();
    let tags = HarrawTags::new(None, None).unwrap();
    let mut benchmark = Benchmark::new();
    hrw_expand_from_filepath("example/benchmark.yml", &mut benchmark, Some("plan"), &tags, &sources).unwrap();
    let kinds: Vec<String> = benchmark
        .iter()
        .map(|step| match step {
            HarrawStep::Assign(s) => format!("assign {}", s.name),
            HarrawStep::Delay(s) => format!("delay {}", s.seconds),
            HarrawStep::Assert(s) => format!("assert {}", s.name),
            HarrawStep::Exec(s) => format!("exec {}", s.name),
            HarrawStep::Request(r) => {
                format!("request {}", r.definition.get("name").unwrap().as_str().unwrap())
            }
        })
        .collect();
    assert_eq!(
        kinds,
        vec![
            "assign first",
            "request Fetch comments",
            "request Fetch one comment",
            "delay 2",
            "request rows",
            "request rows",
            "assert last"
        ]
    );
    let mut again = Benchmark::new();
    hrw_expand_from_filepath("example/benchmark.yml", &mut again, Some("plan"), &tags, &sources).unwrap();
    hrw_expand_from_filepath("example/benchmark.yml", &mut again, Some("plan"), &tags, &sources).unwrap();
    assert_eq!(again.len(), 14);
    assert_eq!(again[..7], benchmark[..]);
}

#[test]
fn missing_files_are_asked_for() {
    let tags = HarrawTags::new(None, None).unwrap();
    let mut sources: Vec<HarrawSource> = Vec::new();
    let mut benchmark = Benchmark::new();
    assert_eq!(
        hrw_expand_from_filepath("example/benchmark.yml", &mut benchmark, Some("plan"), &tags, &sources),
        Err(HarrawError::MissingPlan("example/benchmark.yml".to_string()))
    );
    let mut all = plan_sources();
    sources.push(all.pop().unwrap());
    assert_eq!(
        hrw_expand_from_filepath("example/benchmark.yml", &mut benchmark, Some("plan"), &tags, &sources),
        Err(HarrawError::MissingSource(SourceKind::Plan, "example/benchmark.yml".to_string(), "comments.yml".to_string()))
    );
    sources.push(all.remove(0));
    assert_eq!(
        hrw_expand_from_filepath("example/benchmark.yml", &mut benchmark, Some("plan"), &tags, &sources),
        Err(HarrawError::MissingSource(
            SourceKind::Csv(b'"'),
            "example/benchmark.yml".to_string(),
            "./fixtures/users.csv".to_string()
        ))
    );
    assert!(benchmark.is_empty());
    sources.push(all.remove(0));
    assert_eq!(hrw_expand_from_filepath("example/benchmark.yml", &mut benchmark, Some("plan"), &tags, &sources), Ok(()));
    assert_eq!(benchmark.len(), 7);
}

#[test]
fn an_include_with_a_token_fails_before_any_file_is_asked_for() {
    let tags = HarrawTags::new(None, None).unwrap();
    let doc = Node::Hash(vec![
        (Node::Text("name".to_string()), Node::Text("Include comment".to_string())),
        (Node::Text("include".to_string()), Node::Text("{{ memory }}.yml".to_string())),
    ]);
    assert!(inclusion::hrw_is_that_you(&doc));
    let mut benchmark = Benchmark::new();
    for sources in [Vec::new(), fixtures()] {
        assert_eq!(
            inclusion::hrw_expand("example/benchmark.yml", &doc, &mut benchmark, &tags, &sources),
            Err(HarrawError::InterpolationForbidden(Property::Include))
        );
    }
    let plan = vec![source(SourceKind::Plan, "", "", "p.yml", vec![Node::Array(vec![doc])])];
    assert_eq!(
        hrw_expand_from_filepath("p.yml", &mut benchmark, None, &tags, &plan),
        Err(HarrawError::InterpolationForbidden(Property::Include))
    );
    assert!(benchmark.is_empty());
}

#[test]
fn files_that_include_one_another_in_a_circle_are_refused() {
    let tags = HarrawTags::new(None, None).unwrap();
    let sources = vec![
        source(SourceKind::Plan, "", "", "a.yml", vec![load("- name: s\n  request:\n    url: /\n- include: b.yml")]),
        source(SourceKind::Plan, "a.yml", "b.yml", "b.yml", vec![load("- include: a.yml")]),
        source(SourceKind::Plan, "b.yml", "a.yml", "a.yml", vec![]),
    ];
    let mut benchmark = Benchmark::new();
    assert_eq!(hrw_expand_from_filepath("a.yml", &mut benchmark, None, &tags, &sources), Err(HarrawError::TooDeep));
    let itself = vec![source(SourceKind::Plan, "a.yml", "a.yml", "a.yml", vec![load("- include: a.yml")])];
    assert_eq!(hrw_expand_from_filepath("a.yml", &mut benchmark, None, &tags, &itself), Err(HarrawError::TooDeep));
    let chain = vec![
        source(SourceKind::Plan, "", "", "a.yml", vec![load("- include: b.yml")]),
        source(SourceKind::Plan, "a.yml", "b.yml", "b.yml", vec![load("- include: c.yml")]),
        source(SourceKind::Plan, "b.yml", "c.yml", "c.yml", vec![load("- name: s\n  request:\n    url: /")]),
    ];
    assert_eq!(hrw_expand_from_filepath("a.yml", &mut benchmark, None, &tags, &chain), Ok(()));
    assert_eq!(benchmark.len(), 1);
    benchmark.clear();
    assert!(benchmark.is_empty());
}

#[test]
fn documents_without_a_sequence_are_refused() {
    let tags = HarrawTags::new(None, None).unwrap();
    let sources = vec![
        source(SourceKind::Plan, "", "", "empty.yml", vec![]),
        source(SourceKind::Plan, "", "", "scalar.yml", vec![load("plan: 3")]),
        source(SourceKind::Plan, "", "", "none.yml", vec![load("plan: []")]),
    ];
    let mut benchmark = Benchmark::new();
    assert_eq!(hrw_expand_from_filepath("empty.yml", &mut benchmark, Some("plan"), &tags, &sources), Err(HarrawError::NotASequence));
    assert_eq!(hrw_expand_from_filepath("scalar.yml", &mut benchmark, Some("plan"), &tags, &sources), Err(HarrawError::NotASequence));
    assert_eq!(hrw_expand_from_filepath("scalar.yml", &mut benchmark, None, &tags, &sources), Err(HarrawError::NotASequence));
    assert_eq!(hrw_expand_from_filepath("none.yml", &mut benchmark, Some("other"), &tags, &sources), Err(HarrawError::NotASequence));
    assert_eq!(hrw_expand_from_filepath("none.yml", &mut benchmark, Some("plan"), &tags, &sources), Ok(()));
    assert!(benchmark.is_empty());
}

#[test]
fn the_first_matching_shape_wins() {
    let kind = |text: &str| -> Result<String, HarrawError> {
        let tags = HarrawTags::new(None, None).unwrap();
        let steps = inclusion::hrw_expand_item("p.yml", &load(text), &tags, &Vec::new(), 1)?;
        Ok(steps
            .iter()
            .map(|s| match s {
                HarrawStep::Delay(_) => "delay",
                HarrawStep::Exec(_) => "exec",
                HarrawStep::Assign(_) => "assign",
                HarrawStep::Assert(_) => "assert",
                HarrawStep::Request(_) => "request",
            })
            .collect::<Vec<_>>()
            .join(","))
    };
    let all = "name: n\ndelay: {seconds: 1}\nexec: {command: ls}\nassign: {key: k, value: v}\nassert: {key: k, value: v}\nrequest: {url: /}";
    assert_eq!(kind(all), Ok("delay".to_string()));
    assert_eq!(kind(&all.replace("delay:", "x:")), Err(HarrawError::NotAString("assign".to_string())));
    assert_eq!(kind("name: n\nexec: {command: ls}\nassert: {key: k, value: v}\nrequest: {url: /}"), Ok("exec".to_string()));
    assert_eq!(kind(&all.replace("delay:", "x:").replace("exec:", "y:")), Ok("assign".to_string()));
    assert_eq!(kind("name: n\nassert: {key: k, value: v}\nrequest: {url: /}"), Ok("assert".to_string()));
    assert_eq!(kind("name: n\nrequest: {url: /}"), Ok("request".to_string()));
    assert_eq!(
        kind(&format!("{all}\nwith_items: [1, 2]\nwith_items_range: {{start: 1, stop: 5}}")),
        Ok("request,request".to_string())
    );
    assert_eq!(
        kind(&format!("{all}\nwith_items_range: {{start: 1, stop: 3}}\nwith_items_from_csv: f.csv")),
        Ok("request,request,request".to_string())
    );
    assert_eq!(kind("name: n\ndelay: {seconds: 1}\nwith_items: [1, 2]"), Ok("delay".to_string()));
    assert_eq!(kind("name: n\nsomething: else"), Err(HarrawError::UnknownNode(load("name: n\nsomething: else"))));
    assert_eq!(kind("name: n\nrequest: /url"), Err(HarrawError::UnknownNode(load("name: n\nrequest: /url"))));
    assert_eq!(kind("name: n\nsomething: else\ntags: [never]"), Ok("".to_string()));
    assert_eq!(hrw_simple_step(&load("just a string")), Err(HarrawError::UnknownNode(Node::Text("just a string".to_string()))));
}

#[test]
fn failures_are_put_into_words() {
    let words = |e: HarrawError| e.message();
    assert_eq!(words(HarrawError::UnknownVariable("userId".to_string())), "Unknown 'userId' variable!");
    assert_eq!(words(HarrawError::SameTags), "`tags` and `skip-tags` must not contain the same values!");
    assert_eq!(words(HarrawError::InterpolationForbidden(Property::Include)), "Interpolations not supported in 'include' property!");
    assert_eq!(
        words(HarrawError::InterpolationForbidden(Property::CsvFile)),
        "Interpolations not supported in 'with_items_from_csv' property!"
    );
    assert_eq!(words(HarrawError::NegativePick(i64::MIN)), "pick option should not be negative, but was -9223372036854775808");
    assert_eq!(words(HarrawError::PickTooLarge(4)), "pick option should not be greater than the provided items, but was 4");
    assert_eq!(words(HarrawError::NotAString("assign".to_string())), "`assign` needs to be a string. Try adding quotes");
    assert_eq!(words(HarrawError::UnknownAttribute("name".to_string())), "Unknown node `name`");
    assert_eq!(words(HarrawError::InvalidSeconds), "Invalid number of seconds");
    assert_eq!(words(HarrawError::MissingStart), "Start property is mandatory");
    assert_eq!(words(HarrawError::StopNotNumber), "Stop needs to be a number");
    assert_eq!(words(HarrawError::MissingFileName), "Expected a file_name");
    assert_eq!(
        words(HarrawError::MissingSource(SourceKind::Items, "a/b.yml".to_string(), "c.txt".to_string())),
        "File not supplied: c.txt beside a/b.yml"
    );
    assert_eq!(words(HarrawError::AssertionMismatched("8".to_string(), "7".to_string())), "Assertion mismatched: 8 != 7");
    assert_eq!(words(HarrawError::UnknownNode(Node::Null)), "Unknown node:\n\nnull\n\n");
    let odd = load("name: \"n\\\"1\"\nsomething: [1, 2.5, true, ~, {a: b}]\n3: {}\nlist: []");
    let words_of_odd = words(HarrawError::UnknownNode(odd.clone()));
    assert_eq!(
        words_of_odd,
        "Unknown node:\n\n{\"name\": \"n\\\"1\", \"something\": [1, 2.5, true, null, {\"a\": \"b\"}], 3: {}, \"list\": []}\n\n"
    );
    assert_eq!(load(words_of_odd.trim_start_matches("Unknown node:")), odd);
}
