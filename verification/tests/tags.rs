use harraw::error::HarrawError;
use harraw::node::Node;
use harraw::tags::{hrw_list_benchmark_file_tags, hrw_list_benchmark_file_tasks, hrw_parse_tags, hrw_sort_tags};
use harraw::tags::HarrawTags;
use yaml_rust::{Yaml, YamlLoader};

fn node_of(yaml: &Yaml) -> Node {
    match yaml {
        Yaml::Real(s) => Node::Real(s.clone()),
        Yaml::Integer(i) => Node::Integer(*i),
        Yaml::String(s) => Node::Text(s.clone()),
        Yaml::Boolean(b) => Node::Boolean(*b),
        Yaml::Array(items) => Node::Array(items.iter().map(node_of).collect()),
        Yaml::Hash(pairs) => Node::Hash(pairs.iter().map(|(k, v)| (node_of(k), node_of(v))).collect()),
        _ => Node::Null,
    }
}

fn hrw_str_to_yaml(text: &str) -> Node {
    let docs = YamlLoader::load_from_str(text).unwrap();
    node_of(&docs[0])
}

fn hrw_prepare_default_item() -> Node {
    hrw_str_to_yaml("---\nname: foo\nrequest:\n  url: /\ntags:\n  - tag1\n  - tag2")
}

#[test]
#[should_panic]
fn hrw_same_tags_and_skip_tags() {
    let _ = HarrawTags::new(Some("tag1"), Some("tag1")).unwrap();
}

#[test]
fn hrw_empty_tags_both() {
    let item = hrw_str_to_yaml("---\nname: foo\nrequest:\n  url: /");
    let tags = HarrawTags::new(None, None).unwrap();
    assert!(!tags.hrw_should_skip_item(&item).unwrap());
}

#[test]
fn hrw_empty_tags() {
    let tags = HarrawTags::new(None, None).unwrap();
    assert!(!tags.hrw_should_skip_item(&hrw_prepare_default_item()).unwrap());
}

#[test]
fn hrw_tags_contains() {
    let tags = HarrawTags::new(Some("tag1"), None).unwrap();
    assert!(!tags.hrw_should_skip_item(&hrw_prepare_default_item()).unwrap());
}

#[test]
fn hrw_tags_contains_second() {
    let tags = HarrawTags::new(Some("tag2"), None).unwrap();
    assert!(!tags.hrw_should_skip_item(&hrw_prepare_default_item()).unwrap());
}

#[test]
fn hrw_tags_contains_both() {
    let tags = HarrawTags::new(Some("tag1,tag2"), None).unwrap();
    assert!(!tags.hrw_should_skip_item(&hrw_prepare_default_item()).unwrap());
}

#[test]
fn hrw_tags_not_contains() {
    let tags = HarrawTags::new(Some("tag99"), None).unwrap();
    assert!(tags.hrw_should_skip_item(&hrw_prepare_default_item()).unwrap());
}

#[test]
fn hrw_skip_tags_not_contains() {
    let tags = HarrawTags::new(None, Some("tag99")).unwrap();
    assert!(!tags.hrw_should_skip_item(&hrw_prepare_default_item()).unwrap());
}

#[test]
fn hrw_skip_tags_contains() {
    let tags = HarrawTags::new(None, Some("tag1")).unwrap();
    assert!(tags.hrw_should_skip_item(&hrw_prepare_default_item()).unwrap());
}

#[test]
fn hrw_skip_tags_contains_second() {
    let tags = HarrawTags::new(None, Some("tag2")).unwrap();
    assert!(tags.hrw_should_skip_item(&hrw_prepare_default_item()).unwrap());
}

#[test]
fn hrw_tags_contains_but_also_skip_tags_contains() {
    let tags = HarrawTags::new(Some("tag1"), Some("tag2")).unwrap();
    assert!(tags.hrw_should_skip_item(&hrw_prepare_default_item()).unwrap());
}

#[test]
fn hrw_never_skipped_by_default() {
    let item = hrw_str_to_yaml("---\nname: foo\nrequest:\n  url: /\ntags:\n  - never\n  - tag2");
    let tags = HarrawTags::new(None, None).unwrap();
    assert!(tags.hrw_should_skip_item(&item).unwrap());
}

#[test]
fn hrw_never_tag_skipped_even_when_other_tag_included() {
    let item = hrw_str_to_yaml("---\nname: foo\nrequest:\n  url: /\ntags:\n  - never\n  - tag2");
    let tags = HarrawTags::new(Some("tag2"), None).unwrap();
    assert!(tags.hrw_should_skip_item(&item).unwrap());
}

#[test]
fn hrw_include_never_tag() {
    let item = hrw_str_to_yaml("---\nname: foo\nrequest:\n  url: /\ntags:\n  - never\n  - tag2");
    let tags: HarrawTags = HarrawTags::new(Some("never"), None).unwrap();
    assert!(!tags.hrw_should_skip_item(&item).unwrap());
}

#[test]
fn hrw_always_tag_included_by_default() {
    let item = hrw_str_to_yaml("---\nname: foo\nrequest:\n  url: /\ntags:\n  - always\n  - tag2");
    let tags = HarrawTags::new(Some("tag99"), None).unwrap();
    assert!(!tags.hrw_should_skip_item(&item).unwrap());
}

#[test]
fn hrw_skip_always_tag() {
    let item = hrw_str_to_yaml("---\nname: foo\nrequest:\n  url: /\ntags:\n  - always\n  - tag2");
    let tags: HarrawTags = HarrawTags::new(None, Some("always")).unwrap();
    assert!(tags.hrw_should_skip_item(&item).unwrap());
}

#[test]
fn overlapping_sets_are_refused() {
    assert_eq!(HarrawTags::new(Some("tag1"), Some("tag1")), Err(HarrawError::SameTags));
    assert_eq!(HarrawTags::new(Some("a, b ,c"), Some("x,  b")), Err(HarrawError::SameTags));
    assert_eq!(HarrawTags::new(Some(""), Some("a,,b")), Err(HarrawError::SameTags));
    assert!(HarrawTags::new(Some("a,b"), Some("c,d")).is_ok());
    assert!(HarrawTags::new(Some("a,b"), None).is_ok());
    assert!(HarrawTags::new(None, Some("a,b")).is_ok());
}

#[test]
fn tag_lists_are_split_and_trimmed() {
    assert_eq!(hrw_parse_tags("tag1,tag2"), vec!["tag1", "tag2"]);
    assert_eq!(hrw_parse_tags(" tag1 ,\ttag 2\n, ,"), vec!["tag1", "tag 2", "", ""]);
    assert_eq!(hrw_parse_tags(""), vec![""]);
    assert_eq!(hrw_parse_tags("\u{a0}x\u{2003}"), vec!["x"]);
    for text in ["a,b", " a , b ", ",", "", "a", "  ", "a,,b,"] {
        let expected: Vec<String> = text.split(',').map(|s| s.trim().to_string()).collect();
        assert_eq!(hrw_parse_tags(text), expected);
    }
}

#[test]
fn always_is_kept_unless_always_is_left_out() {
    let item = hrw_str_to_yaml("---\nname: foo\nrequest:\n  url: /\ntags:\n  - always\n  - tag2\n  - never");
    let keep = [(None, None), (Some("tag99"), None), (None, Some("tag2")), (Some("x"), Some("tag2,never")), (Some("never"), None)];
    for (tags, skip_tags) in keep {
        let filter = HarrawTags::new(tags, skip_tags).unwrap();
        assert!(!filter.hrw_should_skip_item(&item).unwrap(), "{tags:?} {skip_tags:?}");
    }
    let skip = [(None, Some("always")), (Some("tag2"), Some("always")), (Some("never"), Some("x,always"))];
    for (tags, skip_tags) in skip {
        let filter = HarrawTags::new(tags, skip_tags).unwrap();
        assert!(filter.hrw_should_skip_item(&item).unwrap(), "{tags:?} {skip_tags:?}");
    }
}

#[test]
fn never_is_left_out_unless_never_is_asked_for() {
    let item = hrw_str_to_yaml("---\nname: foo\nrequest:\n  url: /\ntags:\n  - never\n  - tagX");
    for (tags, skip_tags, expected) in [
        (None, None, true),
        (Some("tagX"), None, true),
        (Some("never"), None, false),
        (Some("never,other"), None, false),
        (Some("never"), Some("tagX"), true),
        (None, Some("other"), true),
    ] {
        let filter = HarrawTags::new(tags, skip_tags).unwrap();
        assert_eq!(filter.hrw_should_skip_item(&item).unwrap(), expected, "{tags:?} {skip_tags:?}");
    }
}

#[test]
fn items_without_tags_follow_the_include_set() {
    let bare = hrw_str_to_yaml("---\nname: foo\nrequest:\n  url: /");
    let empty = hrw_str_to_yaml("---\nname: foo\ntags: []");
    let scalar = hrw_str_to_yaml("---\nname: foo\ntags: tag1");
    for item in [&bare, &scalar] {
        assert!(!HarrawTags::new(None, None).unwrap().hrw_should_skip_item(item).unwrap());
        assert!(!HarrawTags::new(None, Some("tag1")).unwrap().hrw_should_skip_item(item).unwrap());
        assert!(HarrawTags::new(Some("tag1"), None).unwrap().hrw_should_skip_item(item).unwrap());
    }
    assert!(!HarrawTags::new(None, None).unwrap().hrw_should_skip_item(&empty).unwrap());
    assert!(HarrawTags::new(Some("tag1"), None).unwrap().hrw_should_skip_item(&empty).unwrap());
}

#[test]
fn a_tag_that_is_no_string_is_refused() {
    let item = hrw_str_to_yaml("---\nname: foo\ntags:\n  - tag1\n  - 2");
    let filter = HarrawTags::new(None, None).unwrap();
    assert_eq!(filter.hrw_should_skip_item(&item), Err(HarrawError::TagNotText));
    assert_eq!(hrw_list_benchmark_file_tags(&vec![hrw_prepare_default_item(), item]), Err(HarrawError::TagNotText));
}

#[test]
fn the_tags_of_a_plan_are_listed_in_order() {
    let plan = hrw_str_to_yaml(
        "- name: a\n  tags: [zeta, alpha]\n- name: b\n- name: c\n  tags: [alpha, Beta, 'é', always, alp]\n- name: d\n  tags: []",
    );
    let items = match plan {
        Node::Array(items) => items,
        _ => unreachable!(),
    };
    let listed = hrw_list_benchmark_file_tags(&items).unwrap();
    assert_eq!(listed, vec!["Beta", "alp", "alpha", "always", "zeta", "é"]);
    let mut expected = vec!["zeta", "alpha", "alpha", "Beta", "é", "always", "alp"];
    expected.sort();
    expected.dedup();
    assert_eq!(listed, expected);
    assert_eq!(hrw_list_benchmark_file_tags(&Vec::new()).unwrap(), Vec::<String>::new());
    let unsorted: Vec<String> = ["b", "a", "", "b", "ab", "B"].iter().map(|s| s.to_string()).collect();
    assert_eq!(hrw_sort_tags(&unsorted), vec!["", "B", "a", "ab", "b"]);
}

#[test]
fn the_tasks_of_a_plan_are_those_that_are_kept() {
    let plan = hrw_str_to_yaml(
        "- name: a\n  tags: [one]\n- name: b\n- name: c\n  tags: [two, never]\n- name: d\n  tags: [always]\n- name: e\n  tags: [two]",
    );
    let items = match plan {
        Node::Array(items) => items,
        _ => unreachable!(),
    };
    let names = |kept: Vec<Node>| -> Vec<String> {
        kept.iter().map(|n| n.get("name").unwrap().as_str().unwrap().to_string()).collect()
    };
    let all = HarrawTags::new(None, None).unwrap();
    assert_eq!(names(hrw_list_benchmark_file_tasks(&items, &all).unwrap()), vec!["a", "b", "d", "e"]);
    let two = HarrawTags::new(Some("two"), None).unwrap();
    assert_eq!(names(hrw_list_benchmark_file_tasks(&items, &two).unwrap()), vec!["d", "e"]);
    let not_two = HarrawTags::new(None, Some("two,always")).unwrap();
    assert_eq!(names(hrw_list_benchmark_file_tasks(&items, &not_two).unwrap()), vec!["a", "b"]);
    let none = HarrawTags::new(Some("zzz"), Some("always")).unwrap();
    assert_eq!(hrw_list_benchmark_file_tasks(&items, &none).unwrap(), Vec::<Node>::new());
}
