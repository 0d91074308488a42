//! The tag filter: which items of a plan a run leaves out.

use crate::error::{HarrawError, HarrawErrorView};
use crate::node::{Node, NodeView};
use crate::text::{chars_of, hrw_split, hrw_trim, split_on, string_of, text_eq, trimmed};
use crate::text::white_space;
use crate::text::{hrw_text_before, lemma_text_lt_total, lemma_text_lt_transitive, text_lt};
use vstd::prelude::*;

verus! {

/// The tags that a run asks for and the tags that it leaves out.
#[derive(Debug, PartialEq)]
pub struct HarrawTags {
    /// The include set, if one is configured.
    pub tags: Option<Vec<String>>,
    /// The exclude set, if one is configured.
    pub skip_tags: Option<Vec<String>>,
}

/// The tags that a comma-separated list names: each piece without the whitespace
/// around it.
pub open spec fn tag_list(text: Seq<char>) -> Seq<Seq<char>> {
    split_on(text, ',').map_values(|piece: Seq<char>| trimmed(piece))
}

/// The set of the tags in an optional list.
pub open spec fn tag_set(list: Option<Vec<String>>) -> Option<Set<Seq<char>>> {
    match list {
        Some(tags) => Some(tags.deep_view().to_set()),
        None => None,
    }
}

/// The set that an optional comma-separated list names.
pub open spec fn named_set(text: Option<&str>) -> Option<Set<Seq<char>>> {
    match text {
        Some(t) => Some(tag_list(t@).to_set()),
        None => None,
    }
}

/// Whether two optional sets are both given and share an element.
pub open spec fn overlap(a: Option<Set<Seq<char>>>, b: Option<Set<Seq<char>>>) -> bool {
    a matches Some(x) && b matches Some(y) && !x.disjoint(y)
}

/// The decision of the filter on an item with the tags `own` (`None` where the
/// item has no tag list).
///
/// An item tagged `always` is left out only where `always` itself is excluded.
/// Any other item is left out where one of its tags is excluded. Beyond that,
/// with an include set an item is left out where it is tagged `never` and the set
/// does not hold `never`, or where none of its tags is in the set; without an
/// include set only an item tagged `never` is left out. An item without a tag
/// list is left out exactly where an include set is configured.
pub open spec fn skips(
    wanted: Option<Set<Seq<char>>>,
    excluded: Option<Set<Seq<char>>>,
    own: Option<Set<Seq<char>>>,
) -> bool {
    match own {
        None => wanted is Some,
        Some(own) => if own.contains("always"@) {
            excluded matches Some(x) && x.contains("always"@)
        } else if excluded matches Some(x) && !x.disjoint(own) {
            true
        } else {
            match wanted {
                Some(t) => (own.contains("never"@) && !t.contains("never"@)) || t.disjoint(own),
                None => own.contains("never"@),
            }
        },
    }
}

/// Whether every node of a list is a string.
pub open spec fn all_text(nodes: Seq<NodeView>) -> bool {
    forall|i: int| 0 <= i < nodes.len() ==> (#[trigger] nodes[i]) is Text
}

/// The strings of a list of string nodes.
pub open spec fn texts_of(nodes: Seq<NodeView>) -> Seq<Seq<char>> {
    Seq::new(
        nodes.len(),
        |i: int|
            match nodes[i] {
                NodeView::Text(s) => s,
                _ => Seq::empty(),
            },
    )
}

/// The tags of an item: `None` where it has no `tags` sequence, a failure where
/// the sequence holds something other than strings.
pub open spec fn own_tags(item: NodeView) -> Result<Option<Seq<Seq<char>>>, HarrawErrorView> {
    match item.at("tags"@).as_vec() {
        None => Ok(None),
        Some(nodes) => if all_text(nodes) {
            Ok(Some(texts_of(nodes)))
        } else {
            Err(HarrawErrorView::TagNotText)
        },
    }
}

/// The decision of the filter on an item of a plan.
pub open spec fn skip_decision(
    wanted: Option<Set<Seq<char>>>,
    excluded: Option<Set<Seq<char>>>,
    item: NodeView,
) -> Result<bool, HarrawErrorView> {
    match own_tags(item) {
        Err(e) => Err(e),
        Ok(None) => Ok(skips(wanted, excluded, None)),
        Ok(Some(list)) => Ok(skips(wanted, excluded, Some(list.to_set()))),
    }
}

/// Whether `list` holds the tag `tag`.
pub fn hrw_has_tag(list: &Vec<String>, tag: &str) -> (r: bool)
    ensures
        r == list.deep_view().contains(tag@),
        r == list.deep_view().to_set().contains(tag@),
{
    let mut i: usize = 0;
    while i < list.len()
        invariant
            i <= list.len(),
            forall|j: int| 0 <= j < i ==> list.deep_view()[j] != tag@,
        decreases list.len() - i,
    {
        if text_eq(list[i].as_str(), tag) {
            assert(list.deep_view()[i as int] == tag@);
            return true;
        }
        i += 1;
    }
    false
}

/// Whether two lists of tags have a tag in common.
pub fn hrw_tags_meet(a: &Vec<String>, b: &Vec<String>) -> (r: bool)
    ensures
        r == !a.deep_view().to_set().disjoint(b.deep_view().to_set()),
{
    let mut i: usize = 0;
    while i < a.len()
        invariant
            i <= a.len(),
            forall|j: int| 0 <= j < i ==> !b.deep_view().contains(#[trigger] a.deep_view()[j]),
        decreases a.len() - i,
    {
        if hrw_has_tag(b, a[i].as_str()) {
            assert(a.deep_view().contains(a.deep_view()[i as int]));
            assert(a.deep_view().to_set().contains(a.deep_view()[i as int]));
            return true;
        }
        i += 1;
    }
    assert forall|t: Seq<char>| a.deep_view().to_set().contains(t) implies !b.deep_view().to_set().contains(
        t,
    ) by {
        let j = choose|j: int| 0 <= j < a.deep_view().len() && a.deep_view()[j] == t;
        assert(!b.deep_view().contains(a.deep_view()[j]));
    }
    false
}

/// Reads a comma-separated list of tags.
pub fn hrw_parse_tags(text: &str) -> (list: Vec<String>)
    ensures
        list.deep_view() == tag_list(text@),
{
    let chars = chars_of(text);
    let pieces = hrw_split(&chars, ',');
    let mut list: Vec<String> = Vec::new();
    let mut i: usize = 0;
    while i < pieces.len()
        invariant
            i <= pieces.len(),
            pieces.deep_view() == split_on(text@, ','),
            list.deep_view() == tag_list(text@).take(i as int),
        decreases pieces.len() - i,
    {
        let ghost before = list.deep_view();
        let tag = string_of(&hrw_trim(&pieces[i]));
        assert(pieces@[i as int]@ =~= pieces.deep_view()[i as int]);
        list.push(tag);
        assert(list.deep_view() =~= before.push(trimmed(pieces.deep_view()[i as int])));
        assert(list.deep_view() =~= tag_list(text@).take(i as int + 1));
        i += 1;
    }
    assert(tag_list(text@).take(i as int) =~= tag_list(text@));
    list
}

impl HarrawTags {
    /// The include set of this filter.
    pub open spec fn wanted(&self) -> Option<Set<Seq<char>>> {
        tag_set(self.tags)
    }

    /// The exclude set of this filter.
    pub open spec fn excluded(&self) -> Option<Set<Seq<char>>> {
        tag_set(self.skip_tags)
    }

    /// Whether the two sets of this filter share no tag.
    pub open spec fn wf(&self) -> bool {
        !overlap(self.wanted(), self.excluded())
    }

    /// The filter that two optional comma-separated lists describe. The two sets
    /// may not share a tag.
    pub fn new(tags_option: Option<&str>, skip_tags_option: Option<&str>) -> (r: Result<
        HarrawTags,
        HarrawError,
    >)
        ensures
            match r {
                Ok(filter) => filter.wanted() == named_set(tags_option) && filter.excluded()
                    == named_set(skip_tags_option) && filter.wf(),
                Err(e) => e@ == HarrawErrorView::SameTags && overlap(
                    named_set(tags_option),
                    named_set(skip_tags_option),
                ),
            },
    {
        let tags = match tags_option {
            Some(text) => Some(hrw_parse_tags(text)),
            None => None,
        };
        let skip_tags = match skip_tags_option {
            Some(text) => Some(hrw_parse_tags(text)),
            None => None,
        };
        let same = match (&tags, &skip_tags) {
            (Some(t), Some(s)) => hrw_tags_meet(t, s),
            _ => false,
        };
        if same {
            Err(HarrawError::SameTags)
        } else {
            Ok(HarrawTags { tags, skip_tags })
        }
    }

    /// Whether a run with this filter leaves `item` out.
    pub fn hrw_should_skip_item(&self, item: &Node) -> (r: Result<bool, HarrawError>)
        ensures
            match r {
                Ok(skip) => skip_decision(self.wanted(), self.excluded(), item@) == Ok::<
                    bool,
                    HarrawErrorView,
                >(skip),
                Err(e) => skip_decision(self.wanted(), self.excluded(), item@) == Err::<
                    bool,
                    HarrawErrorView,
                >(e@),
            },
    {
        let own = match hrw_own_tags(item)? {
            Some(own) => own,
            None => {
                return Ok(self.tags.is_some());
            },
        };
        if hrw_has_tag(&own, "always") {
            return Ok(
                match &self.skip_tags {
                    Some(s) => hrw_has_tag(s, "always"),
                    None => false,
                },
            );
        }
        if let Some(s) = &self.skip_tags {
            if hrw_tags_meet(s, &own) {
                return Ok(true);
            }
        }
        match &self.tags {
            Some(t) => {
                if hrw_has_tag(&own, "never") && !hrw_has_tag(t, "never") {
                    return Ok(true);
                }
                Ok(!hrw_tags_meet(t, &own))
            },
            None => Ok(hrw_has_tag(&own, "never")),
        }
    }
}

/// The tags of an item of a plan.
pub fn hrw_own_tags(item: &Node) -> (r: Result<Option<Vec<String>>, HarrawError>)
    ensures
        match r {
            Ok(Some(list)) => own_tags(item@) == Ok::<Option<Seq<Seq<char>>>, HarrawErrorView>(
                Some(list.deep_view()),
            ),
            Ok(None) => own_tags(item@) == Ok::<Option<Seq<Seq<char>>>, HarrawErrorView>(None),
            Err(e) => own_tags(item@) == Err::<Option<Seq<Seq<char>>>, HarrawErrorView>(e@),
        },
{
    let nodes = match item.get("tags") {
        Some(node) => match node.as_vec() {
            Some(nodes) => nodes,
            None => {
                return Ok(None);
            },
        },
        None => {
            return Ok(None);
        },
    };
    let mut list: Vec<String> = Vec::new();
    let mut i: usize = 0;
    while i < nodes.len()
        invariant
            i <= nodes.len(),
            item@.at("tags"@).as_vec() == Some(nodes.deep_view()),
            all_text(nodes.deep_view().take(i as int)),
            list.deep_view() == texts_of(nodes.deep_view().take(i as int)),
        decreases nodes.len() - i,
    {
        let ghost before = list.deep_view();
        let ghost seen = nodes.deep_view().take(i as int);
        let ghost next = nodes.deep_view().take(i as int + 1);
        match &nodes[i] {
            Node::Text(s) => {
                list.push(s.clone());
                assert forall|j: int| 0 <= j < next.len() implies (#[trigger] next[j]) is Text by {
                    if j < i {
                        assert(seen[j] is Text);
                    }
                }
                assert(nodes.deep_view()[i as int] == NodeView::Text(s@));
                assert(list.deep_view() =~= before.push(s@));
                assert forall|j: int| 0 <= j < next.len() implies list.deep_view()[j] == texts_of(
                    next,
                )[j] by {
                    if j < i {
                        assert(seen[j] == next[j]);
                        assert(texts_of(seen)[j] == texts_of(next)[j]);
                    }
                }
                assert(list.deep_view() =~= texts_of(next));
            },
            _ => {
                assert(!(nodes.deep_view()[i as int] is Text));
                return Err(HarrawError::TagNotText);
            },
        }
        i += 1;
    }
    assert(nodes.deep_view().take(i as int) =~= nodes.deep_view());
    Ok(Some(list))
}

/// An item tagged `always` is kept unless `always` itself is excluded, whatever
/// else the include set and the exclude set hold.
pub proof fn law_always_is_kept(
    wanted: Option<Set<Seq<char>>>,
    excluded: Option<Set<Seq<char>>>,
    own: Set<Seq<char>>,
)
    requires
        own.contains("always"@),
    ensures
        skips(wanted, excluded, Some(own)) <==> (excluded matches Some(x) && x.contains(
            "always"@,
        )),
{
}

/// An item tagged `never`, and not `always`, is left out unless the include set
/// holds `never`.
pub proof fn law_never_is_left_out(
    wanted: Option<Set<Seq<char>>>,
    excluded: Option<Set<Seq<char>>>,
    own: Set<Seq<char>>,
)
    requires
        own.contains("never"@),
        !own.contains("always"@),
        !(wanted matches Some(t) && t.contains("never"@)),
    ensures
        skips(wanted, excluded, Some(own)),
{
}

/// An item tagged `never` is kept where the include set holds `never` and none of
/// the item's tags is excluded.
pub proof fn law_never_can_be_asked_for(
    wanted: Set<Seq<char>>,
    excluded: Option<Set<Seq<char>>>,
    own: Set<Seq<char>>,
)
    requires
        own.contains("never"@),
        wanted.contains("never"@),
        !(excluded matches Some(x) && !x.disjoint(own)),
    ensures
        !skips(Some(wanted), excluded, Some(own)),
{
    if !own.contains("always"@) {
        assert(!wanted.disjoint(own));
    } else {
        if excluded matches Some(x) && x.contains("always"@) {
            assert(!excluded->0.disjoint(own));
        }
    }
}

/// Without an include set, an item that is tagged neither `never` nor with an
/// excluded tag is kept.
pub proof fn law_nothing_is_left_out_by_default(
    excluded: Option<Set<Seq<char>>>,
    own: Set<Seq<char>>,
)
    requires
        !own.contains("never"@),
        !(excluded matches Some(x) && !x.disjoint(own)),
    ensures
        !skips(None, excluded, Some(own)),
{
    if own.contains("always"@) {
        if excluded matches Some(x) && x.contains("always"@) {
            assert(!excluded->0.disjoint(own));
        }
    }
}

/// Whether each text of a list stands before all that follow it.
pub open spec fn strictly_sorted(list: Seq<Seq<char>>) -> bool {
    forall|i: int, j: int| 0 <= i < j < list.len() ==> text_lt(#[trigger] list[i], #[trigger] list[j])
}

/// Puts `tag` at its place in a sorted list, unless the list holds it already.
pub fn hrw_insert_tag(list: &mut Vec<String>, tag: String)
    requires
        strictly_sorted(old(list).deep_view()),
    ensures
        strictly_sorted(final(list).deep_view()),
        final(list).deep_view().to_set() == old(list).deep_view().to_set().insert(tag@),
{
    let ghost before = list.deep_view();
    let mut i: usize = 0;
    while i < list.len() && hrw_text_before(list[i].as_str(), tag.as_str())
        invariant
            i <= list.len(),
            list.deep_view() == before,
            forall|j: int| 0 <= j < i ==> text_lt(#[trigger] before[j], tag@),
        decreases list.len() - i,
    {
        i += 1;
    }
    if i < list.len() && text_eq(list[i].as_str(), tag.as_str()) {
        assert(before[i as int] == tag@);
        assert(before.contains(tag@));
        assert(before.to_set().insert(tag@) =~= before.to_set());
        return ;
    }
    let ghost t = tag@;
    list.insert(i, tag);
    let ghost after = list.deep_view();
    assert(after =~= before.insert(i as int, t));
    proof {
        assert forall|a: int, b: int| 0 <= a < b < after.len() implies text_lt(
            #[trigger] after[a],
            #[trigger] after[b],
        ) by {
            if b < i {
                assert(text_lt(before[a], before[b]));
            } else if b == i {
                assert(text_lt(before[a], t));
            } else if a == i {
                lemma_text_lt_total(before[i as int], t);
                if b - 1 > i {
                    assert(text_lt(before[i as int], before[b - 1]));
                    lemma_text_lt_transitive(t, before[i as int], before[b - 1]);
                }
            } else if a < i {
                lemma_text_lt_total(before[i as int], t);
                assert(text_lt(before[a], before[b - 1]));
            } else {
                assert(text_lt(before[a - 1], before[b - 1]));
            }
        }
        assert forall|x: Seq<char>| after.to_set().contains(x) <==> before.to_set().insert(
            t,
        ).contains(x) by {
            if after.contains(x) {
                let k = choose|k: int| 0 <= k < after.len() && after[k] == x;
                if k < i {
                    assert(before[k] == x);
                } else if k > i {
                    assert(before[k - 1] == x);
                }
            }
            if before.contains(x) {
                let k = choose|k: int| 0 <= k < before.len() && before[k] == x;
                if k < i {
                    assert(after[k] == x);
                } else {
                    assert(after[k + 1] == x);
                }
            }
            if x == t {
                assert(after[i as int] == x);
            }
        }
        assert(after.to_set() =~= before.to_set().insert(t));
    }
}

/// The tags of `list` in the order of strings, each once.
pub fn hrw_sort_tags(list: &Vec<String>) -> (sorted: Vec<String>)
    ensures
        strictly_sorted(sorted.deep_view()),
        sorted.deep_view().to_set() == list.deep_view().to_set(),
{
    let mut sorted: Vec<String> = Vec::new();
    let mut i: usize = 0;
    assert(sorted.deep_view().to_set() =~= list.deep_view().take(0).to_set());
    while i < list.len()
        invariant
            i <= list.len(),
            strictly_sorted(sorted.deep_view()),
            sorted.deep_view().to_set() == list.deep_view().take(i as int).to_set(),
        decreases list.len() - i,
    {
        let ghost seen = list.deep_view().take(i as int);
        let ghost next = list.deep_view().take(i as int + 1);
        hrw_insert_tag(&mut sorted, list[i].clone());
        proof {
            assert(next =~= seen.push(list@[i as int]@));
            lemma_push_to_set(seen, list@[i as int]@);
        }
        i += 1;
    }
    assert(list.deep_view().take(i as int) =~= list.deep_view());
    sorted
}

proof fn lemma_push_to_set(s: Seq<Seq<char>>, x: Seq<char>)
    ensures
        s.push(x).to_set() == s.to_set().insert(x),
{
    assert forall|t: Seq<char>| s.push(x).to_set().contains(t) <==> s.to_set().insert(x).contains(
        t,
    ) by {
        if s.push(x).contains(t) {
            let k = choose|k: int| 0 <= k < s.push(x).len() && s.push(x)[k] == t;
            if k < s.len() {
                assert(s[k] == t);
            }
        }
        if s.contains(t) {
            let k = choose|k: int| 0 <= k < s.len() && s[k] == t;
            assert(s.push(x)[k] == t);
        }
        if t == x {
            assert(s.push(x)[s.len() as int] == t);
        }
    }
    assert(s.push(x).to_set() =~= s.to_set().insert(x));
}

/// The tags that the items of a plan carry, all together.
pub open spec fn all_tags(items: Seq<NodeView>) -> Result<Set<Seq<char>>, HarrawErrorView>
    decreases items.len(),
{
    if items.len() == 0 {
        Ok(Set::empty())
    } else {
        match all_tags(items.drop_last()) {
            Err(e) => Err(e),
            Ok(before) => match own_tags(items.last()) {
                Err(e) => Err(e),
                Ok(None) => Ok(before),
                Ok(Some(list)) => Ok(before.union(list.to_set())),
            },
        }
    }
}

proof fn lemma_all_tags_fail(items: Seq<NodeView>, k: int)
    requires
        0 <= k <= items.len(),
        all_tags(items.take(k)) is Err,
    ensures
        all_tags(items) == all_tags(items.take(k)),
    decreases items.len() - k,
{
    if k < items.len() {
        assert(items.drop_last().take(k) =~= items.take(k));
        lemma_all_tags_fail(items.drop_last(), k);
    } else {
        assert(items.take(k) =~= items);
    }
}

/// The tags that the items of a plan carry, in the order of strings, each once.
pub fn hrw_list_benchmark_file_tags(items: &Vec<Node>) -> (r: Result<Vec<String>, HarrawError>)
    ensures
        match r {
            Ok(list) => all_tags(items.deep_view()) == Ok::<Set<Seq<char>>, HarrawErrorView>(
                list.deep_view().to_set(),
            ) && strictly_sorted(list.deep_view()),
            Err(e) => all_tags(items.deep_view()) == Err::<Set<Seq<char>>, HarrawErrorView>(e@),
        },
{
    let mut sorted: Vec<String> = Vec::new();
    let mut i: usize = 0;
    assert(items.deep_view().take(0) =~= Seq::<NodeView>::empty());
    assert(sorted.deep_view().to_set() =~= Set::<Seq<char>>::empty());
    while i < items.len()
        invariant
            i <= items.len(),
            strictly_sorted(sorted.deep_view()),
            all_tags(items.deep_view().take(i as int)) == Ok::<Set<Seq<char>>, HarrawErrorView>(
                sorted.deep_view().to_set(),
            ),
        decreases items.len() - i,
    {
        let ghost seen = items.deep_view().take(i as int);
        let ghost next = items.deep_view().take(i as int + 1);
        let ghost before = sorted.deep_view().to_set();
        assert(next.drop_last() =~= seen);
        assert(next.last() == items@[i as int]@);
        match hrw_own_tags(&items[i]) {
            Err(e) => {
                proof {
                    assert(all_tags(next) == Err::<Set<Seq<char>>, HarrawErrorView>(e@));
                    lemma_all_tags_fail(items.deep_view(), i as int + 1);
                }
                return Err(e);
            },
            Ok(None) => {},
            Ok(Some(own)) => {
                let mut k: usize = 0;
                assert(own.deep_view().take(0).to_set() =~= Set::<Seq<char>>::empty());
                assert(before.union(Set::<Seq<char>>::empty()) =~= before);
                while k < own.len()
                    invariant
                        k <= own.len(),
                        strictly_sorted(sorted.deep_view()),
                        sorted.deep_view().to_set() == before.union(
                            own.deep_view().take(k as int).to_set(),
                        ),
                    decreases own.len() - k,
                {
                    let ghost had = own.deep_view().take(k as int);
                    hrw_insert_tag(&mut sorted, own[k].clone());
                    proof {
                        assert(own.deep_view().take(k as int + 1) =~= had.push(own@[k as int]@));
                        lemma_push_to_set(had, own@[k as int]@);
                        assert(before.union(had.to_set()).insert(own@[k as int]@) =~= before.union(
                            had.to_set().insert(own@[k as int]@),
                        ));
                    }
                    k += 1;
                }
                assert(own.deep_view().take(k as int) =~= own.deep_view());
            },
        }
        i += 1;
    }
    assert(items.deep_view().take(i as int) =~= items.deep_view());
    Ok(sorted)
}

/// The items of a plan that the filter keeps, in their order.
pub open spec fn kept_items(
    wanted: Option<Set<Seq<char>>>,
    excluded: Option<Set<Seq<char>>>,
    items: Seq<NodeView>,
) -> Result<Seq<NodeView>, HarrawErrorView>
    decreases items.len(),
{
    if items.len() == 0 {
        Ok(Seq::empty())
    } else {
        match kept_items(wanted, excluded, items.drop_last()) {
            Err(e) => Err(e),
            Ok(before) => match skip_decision(wanted, excluded, items.last()) {
                Err(e) => Err(e),
                Ok(skip) => Ok(
                    if skip {
                        before
                    } else {
                        before.push(items.last())
                    },
                ),
            },
        }
    }
}

proof fn lemma_kept_items_fail(
    wanted: Option<Set<Seq<char>>>,
    excluded: Option<Set<Seq<char>>>,
    items: Seq<NodeView>,
    k: int,
)
    requires
        0 <= k <= items.len(),
        kept_items(wanted, excluded, items.take(k)) is Err,
    ensures
        kept_items(wanted, excluded, items) == kept_items(wanted, excluded, items.take(k)),
    decreases items.len() - k,
{
    if k < items.len() {
        assert(items.drop_last().take(k) =~= items.take(k));
        lemma_kept_items_fail(wanted, excluded, items.drop_last(), k);
    } else {
        assert(items.take(k) =~= items);
    }
}

/// The items of a plan that a run with the filter `tags` would execute, in their
/// order.
pub fn hrw_list_benchmark_file_tasks(items: &Vec<Node>, tags: &HarrawTags) -> (r: Result<
    Vec<Node>,
    HarrawError,
>)
    ensures
        match r {
            Ok(list) => kept_items(tags.wanted(), tags.excluded(), items.deep_view()) == Ok::<
                Seq<NodeView>,
                HarrawErrorView,
            >(list.deep_view()),
            Err(e) => kept_items(tags.wanted(), tags.excluded(), items.deep_view()) == Err::<
                Seq<NodeView>,
                HarrawErrorView,
            >(e@),
        },
{
    let mut list: Vec<Node> = Vec::new();
    let mut i: usize = 0;
    assert(items.deep_view().take(0) =~= Seq::<NodeView>::empty());
    assert(list.deep_view() =~= Seq::<NodeView>::empty());
    while i < items.len()
        invariant
            i <= items.len(),
            kept_items(tags.wanted(), tags.excluded(), items.deep_view().take(i as int)) == Ok::<
                Seq<NodeView>,
                HarrawErrorView,
            >(list.deep_view()),
        decreases items.len() - i,
    {
        let ghost seen = items.deep_view().take(i as int);
        let ghost next = items.deep_view().take(i as int + 1);
        let ghost before = list.deep_view();
        assert(next.drop_last() =~= seen);
        assert(next.last() == items@[i as int]@);
        match tags.hrw_should_skip_item(&items[i]) {
            Err(e) => {
                proof {
                    assert(kept_items(tags.wanted(), tags.excluded(), next) == Err::<
                        Seq<NodeView>,
                        HarrawErrorView,
                    >(e@));
                    lemma_kept_items_fail(
                        tags.wanted(),
                        tags.excluded(),
                        items.deep_view(),
                        i as int + 1,
                    );
                }
                return Err(e);
            },
            Ok(skip) => {
                if !skip {
                    list.push(items[i].duplicate());
                    assert(list.deep_view() =~= before.push(items@[i as int]@));
                }
            },
        }
        i += 1;
    }
    assert(items.deep_view().take(i as int) =~= items.deep_view());
    Ok(list)
}

proof fn lemma_split_without_separator(s: Seq<char>, sep: char)
    requires
        !s.contains(sep),
    ensures
        split_on(s, sep) == seq![s],
    decreases s.len(),
{
    if s.len() > 0 {
        assert(s[s.len() - 1] != sep);
        assert forall|i: int| 0 <= i < s.drop_last().len() implies s.drop_last()[i] != sep by {
            assert(s.drop_last()[i] == s[i]);
        }
        lemma_split_without_separator(s.drop_last(), sep);
        let before = split_on(s.drop_last(), sep);
        assert(before.last() == s.drop_last());
        assert(before.drop_last() =~= Seq::<Seq<char>>::empty());
        assert(s.drop_last().push(s.last()) =~= s);
        assert(split_on(s, sep) =~= seq![s]);
    } else {
        assert(s =~= Seq::<char>::empty());
    }
}

/// A text without a comma, and without whitespace at its ends, names the one tag
/// that it is.
pub proof fn law_single_tag(text: Seq<char>)
    requires
        !text.contains(','),
        text.len() > 0 ==> !white_space(text[0]) && !white_space(text.last()),
    ensures
        tag_list(text) == seq![text],
        tag_list(text).to_set() == set![text],
{
    lemma_split_without_separator(text, ',');
    assert(trimmed(text) == text);
    assert(tag_list(text) =~= seq![text]);
    assert(seq![text][0] == text);
    assert(seq![text].to_set() =~= set![text]);
}

} // verus!
