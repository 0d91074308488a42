//! The document model of plans and configuration files: a tree of scalars,
//! sequences and ordered key/value tables.

use crate::text::{chars_of, decimal_text, hrw_decimal, text_eq};
use crate::value::{json_quote, json_quoted, push_all};
use vstd::prelude::*;

verus! {

/// One value of a document.
#[derive(Debug, PartialEq)]
pub enum Node {
    /// A number with a fraction or an exponent, kept as it was written.
    Real(String),
    /// A whole number.
    Integer(i64),
    /// A string.
    Text(String),
    /// `true` or `false`.
    Boolean(bool),
    /// A sequence of values.
    Array(Vec<Node>),
    /// A table from keys to values, in document order.
    Hash(Vec<(Node, Node)>),
    /// The absent value.
    Null,
}

/// The mathematical content of a `Node`.
pub enum NodeView {
    Real(Seq<char>),
    Integer(i64),
    Text(Seq<char>),
    Boolean(bool),
    Array(Seq<NodeView>),
    Hash(Seq<(NodeView, NodeView)>),
    Null,
}

/// The content of a node.
pub open spec fn content(n: Node) -> NodeView
    decreases n,
{
    match n {
        Node::Real(s) => NodeView::Real(s@),
        Node::Integer(i) => NodeView::Integer(i),
        Node::Text(s) => NodeView::Text(s@),
        Node::Boolean(b) => NodeView::Boolean(b),
        Node::Array(items) => NodeView::Array(contents(items@)),
        Node::Hash(pairs) => NodeView::Hash(pair_contents(pairs@)),
        Node::Null => NodeView::Null,
    }
}

/// The contents of a list of nodes, item by item.
pub open spec fn contents(items: Seq<Node>) -> Seq<NodeView>
    decreases items,
{
    if items.len() == 0 {
        Seq::empty()
    } else {
        contents(items.drop_last()).push(content(items.last()))
    }
}

/// The contents of a list of key/value pairs, pair by pair.
pub open spec fn pair_contents(pairs: Seq<(Node, Node)>) -> Seq<(NodeView, NodeView)>
    decreases pairs,
{
    if pairs.len() == 0 {
        Seq::empty()
    } else {
        pair_contents(pairs.drop_last()).push((content(pairs.last().0), content(pairs.last().1)))
    }
}

impl View for Node {
    type V = NodeView;

    open spec fn view(&self) -> NodeView {
        content(*self)
    }
}

impl DeepView for Node {
    type V = NodeView;

    open spec fn deep_view(&self) -> NodeView {
        self@
    }
}

/// The value stored under the string key `key` in a list of pairs: that of the
/// first pair with this key.
pub open spec fn find_key(pairs: Seq<(NodeView, NodeView)>, key: Seq<char>) -> Option<NodeView>
    decreases pairs.len(),
{
    if pairs.len() == 0 {
        None
    } else if pairs[0].0 == NodeView::Text(key) {
        Some(pairs[0].1)
    } else {
        find_key(pairs.drop_first(), key)
    }
}

impl NodeView {
    /// The value under `key`, if this is a table that has the key.
    pub open spec fn get(self, key: Seq<char>) -> Option<NodeView> {
        match self {
            NodeView::Hash(pairs) => find_key(pairs, key),
            _ => None,
        }
    }

    /// The value under `key`, or `Null` where there is none.
    pub open spec fn at(self, key: Seq<char>) -> NodeView {
        match self.get(key) {
            Some(v) => v,
            None => NodeView::Null,
        }
    }

    /// The characters, if this is a string.
    pub open spec fn as_str(self) -> Option<Seq<char>> {
        match self {
            NodeView::Text(s) => Some(s),
            _ => None,
        }
    }

    /// The number, if this is a whole number.
    pub open spec fn as_i64(self) -> Option<i64> {
        match self {
            NodeView::Integer(i) => Some(i),
            _ => None,
        }
    }

    /// The flag, if this is a boolean.
    pub open spec fn as_bool(self) -> Option<bool> {
        match self {
            NodeView::Boolean(b) => Some(b),
            _ => None,
        }
    }

    /// The items, if this is a sequence.
    pub open spec fn as_vec(self) -> Option<Seq<NodeView>> {
        match self {
            NodeView::Array(items) => Some(items),
            _ => None,
        }
    }

    /// Whether this is a table.
    pub open spec fn is_hash(self) -> bool {
        self is Hash
    }
}

proof fn lemma_contents(items: Seq<Node>)
    ensures
        contents(items).len() == items.len(),
        forall|i: int| 0 <= i < items.len() ==> (#[trigger] contents(items)[i]) == items[i]@,
    decreases items.len(),
{
    if items.len() > 0 {
        lemma_contents(items.drop_last());
    }
}

proof fn lemma_pair_contents(pairs: Seq<(Node, Node)>)
    ensures
        pair_contents(pairs).len() == pairs.len(),
        forall|i: int|
            0 <= i < pairs.len() ==> (#[trigger] pair_contents(pairs)[i]) == (
                pairs[i].0@,
                pairs[i].1@,
            ),
    decreases pairs.len(),
{
    if pairs.len() > 0 {
        lemma_pair_contents(pairs.drop_last());
    }
}

/// The view of a sequence node is the sequence of its items' views.
pub proof fn lemma_array_view(items: Vec<Node>)
    ensures
        Node::Array(items)@ == NodeView::Array(items.deep_view()),
{
    lemma_contents(items@);
    assert(contents(items@) =~= items.deep_view());
}

/// The view of a table node is the sequence of its pairs' views.
pub proof fn lemma_hash_view(pairs: Vec<(Node, Node)>)
    ensures
        Node::Hash(pairs)@ == NodeView::Hash(pairs.deep_view()),
{
    lemma_pair_contents(pairs@);
    assert(pair_contents(pairs@) =~= pairs.deep_view());
}

proof fn lemma_find_key_skip(pairs: Seq<(NodeView, NodeView)>, key: Seq<char>, k: int)
    requires
        0 <= k <= pairs.len(),
        forall|i: int| 0 <= i < k ==> (#[trigger] pairs[i]).0 != NodeView::Text(key),
    ensures
        find_key(pairs, key) == find_key(pairs.skip(k), key),
    decreases k,
{
    if k > 0 {
        assert(pairs[0].0 != NodeView::Text(key));
        assert(pairs.drop_first().skip(k - 1) =~= pairs.skip(k));
        assert forall|i: int| 0 <= i < k - 1 implies (#[trigger] pairs.drop_first()[i]).0
            != NodeView::Text(key) by {
            assert(pairs.drop_first()[i] == pairs[i + 1]);
        }
        lemma_find_key_skip(pairs.drop_first(), key, k - 1);
    } else {
        assert(pairs.skip(0) =~= pairs);
    }
}

impl Node {
    /// The value under the string key `key`, if this is a table that has the key.
    pub fn get(&self, key: &str) -> (r: Option<&Node>)
        ensures
            r.deep_view() == self@.get(key@),
    {
        match self {
            Node::Hash(pairs) => {
                proof {
                    lemma_hash_view(*pairs);
                }
                let mut i: usize = 0;
                while i < pairs.len()
                    invariant
                        i <= pairs.len(),
                        self@ == NodeView::Hash(pairs.deep_view()),
                        forall|j: int|
                            0 <= j < i ==> (#[trigger] pairs.deep_view()[j]).0 != NodeView::Text(
                                key@,
                            ),
                    decreases pairs.len() - i,
                {
                    let hit = match &pairs[i].0 {
                        Node::Text(s) => text_eq(s.as_str(), key),
                        _ => false,
                    };
                    if hit {
                        proof {
                            lemma_find_key_skip(pairs.deep_view(), key@, i as int);
                            assert(pairs.deep_view().skip(i as int)[0] == pairs.deep_view()[i as int]);
                        }
                        return Some(&pairs[i].1);
                    }
                    i += 1;
                }
                proof {
                    lemma_find_key_skip(pairs.deep_view(), key@, i as int);
                }
                None
            },
            _ => None,
        }
    }

    /// The characters, if this is a string.
    pub fn as_str(&self) -> (r: Option<&str>)
        ensures
            r.deep_view() == self@.as_str(),
    {
        match self {
            Node::Text(s) => Some(s.as_str()),
            _ => None,
        }
    }

    /// The number, if this is a whole number.
    pub fn as_i64(&self) -> (r: Option<i64>)
        ensures
            r == self@.as_i64(),
    {
        match self {
            Node::Integer(i) => Some(*i),
            _ => None,
        }
    }

    /// The flag, if this is a boolean.
    pub fn as_bool(&self) -> (r: Option<bool>)
        ensures
            r == self@.as_bool(),
    {
        match self {
            Node::Boolean(b) => Some(*b),
            _ => None,
        }
    }

    /// The items, if this is a sequence.
    pub fn as_vec(&self) -> (r: Option<&Vec<Node>>)
        ensures
            r.deep_view() == self@.as_vec(),
    {
        match self {
            Node::Array(items) => {
                proof {
                    lemma_array_view(*items);
                }
                Some(items)
            },
            _ => None,
        }
    }

    /// Whether this is a table.
    pub fn is_hash(&self) -> (r: bool)
        ensures
            r == self@.is_hash(),
    {
        match self {
            Node::Hash(_) => true,
            _ => false,
        }
    }

    /// A copy with the same content.
    pub fn duplicate(&self) -> (r: Node)
        ensures
            r@ == self@,
        decreases self,
    {
        match self {
            Node::Real(s) => Node::Real(s.clone()),
            Node::Integer(i) => Node::Integer(*i),
            Node::Text(s) => Node::Text(s.clone()),
            Node::Boolean(b) => Node::Boolean(*b),
            Node::Array(items) => {
                let mut copy: Vec<Node> = Vec::new();
                let mut i: usize = 0;
                while i < items.len()
                    invariant
                        i <= items.len(),
                        *self matches Node::Array(v) && v == *items,
                        copy.deep_view() == items.deep_view().take(i as int),
                    decreases items.len() - i,
                {
                    let ghost before = copy.deep_view();
                    let item = items[i].duplicate();
                    copy.push(item);
                    assert(copy.deep_view() =~= before.push(items@[i as int]@));
                    assert(copy.deep_view() =~= items.deep_view().take(i as int + 1));
                    i += 1;
                }
                proof {
                    assert(items.deep_view().take(i as int) =~= items.deep_view());
                    lemma_array_view(*items);
                    lemma_array_view(copy);
                }
                Node::Array(copy)
            },
            Node::Hash(pairs) => {
                let mut copy: Vec<(Node, Node)> = Vec::new();
                let mut i: usize = 0;
                while i < pairs.len()
                    invariant
                        i <= pairs.len(),
                        *self matches Node::Hash(v) && v == *pairs,
                        copy.deep_view() == pairs.deep_view().take(i as int),
                    decreases pairs.len() - i,
                {
                    let ghost before = copy.deep_view();
                    let key = pairs[i].0.duplicate();
                    let value = pairs[i].1.duplicate();
                    copy.push((key, value));
                    assert(copy.deep_view() =~= before.push((pairs@[i as int].0@, pairs@[i as int].1@)));
                    assert(copy.deep_view() =~= pairs.deep_view().take(i as int + 1));
                    i += 1;
                }
                proof {
                    assert(pairs.deep_view().take(i as int) =~= pairs.deep_view());
                    lemma_hash_view(*pairs);
                    lemma_hash_view(copy);
                }
                Node::Hash(copy)
            },
            Node::Null => Node::Null,
        }
    }
}

impl Clone for Node {
    fn clone(&self) -> (r: Self)
        ensures
            r@ == self@,
    {
        self.duplicate()
    }
}

/// Copies a list of nodes.
pub fn duplicate_all(items: &Vec<Node>) -> (copy: Vec<Node>)
    ensures
        copy.deep_view() == items.deep_view(),
{
    let mut copy: Vec<Node> = Vec::new();
    let mut i: usize = 0;
    while i < items.len()
        invariant
            i <= items.len(),
            copy.deep_view() == items.deep_view().take(i as int),
        decreases items.len() - i,
    {
        let ghost before = copy.deep_view();
        let item = items[i].duplicate();
        copy.push(item);
        assert(copy.deep_view() =~= before.push(items@[i as int]@));
        assert(copy.deep_view() =~= items.deep_view().take(i as int + 1));
        i += 1;
    }
    assert(items.deep_view().take(i as int) =~= items.deep_view());
    copy
}

/// A node in flow notation: numbers and booleans as they are written, `null` for
/// the absent value, strings as quoted literals, a sequence between brackets, a
/// table between braces with a colon and a space behind each key; items are
/// separated by a comma and a space.
pub open spec fn flow(n: NodeView) -> Seq<char>
    decreases n,
{
    match n {
        NodeView::Real(t) => t,
        NodeView::Integer(i) => decimal_text(i as int),
        NodeView::Text(s) => json_quoted(s),
        NodeView::Boolean(b) => if b {
            seq!['t', 'r', 'u', 'e']
        } else {
            seq!['f', 'a', 'l', 's', 'e']
        },
        NodeView::Array(items) => seq!['['] + flow_items(items) + seq![']'],
        NodeView::Hash(pairs) => seq!['{'] + flow_pairs(pairs) + seq!['}'],
        NodeView::Null => seq!['n', 'u', 'l', 'l'],
    }
}

/// The items of a sequence in flow notation.
pub open spec fn flow_items(items: Seq<NodeView>) -> Seq<char>
    decreases items,
{
    if items.len() == 0 {
        Seq::empty()
    } else if items.len() == 1 {
        flow(items.last())
    } else {
        flow_items(items.drop_last()) + seq![',', ' '] + flow(items.last())
    }
}

/// The pairs of a table in flow notation.
pub open spec fn flow_pairs(pairs: Seq<(NodeView, NodeView)>) -> Seq<char>
    decreases pairs,
{
    if pairs.len() == 0 {
        Seq::empty()
    } else if pairs.len() == 1 {
        flow(pairs.last().0) + seq![':', ' '] + flow(pairs.last().1)
    } else {
        flow_pairs(pairs.drop_last()) + seq![',', ' '] + flow(pairs.last().0) + seq![':', ' ']
            + flow(pairs.last().1)
    }
}

impl Node {
    /// Appends this node in flow notation to `out`.
    pub fn write_flow(&self, out: &mut Vec<char>)
        ensures
            final(out)@ == old(out)@ + flow(self@),
        decreases self,
    {
        match self {
            Node::Real(t) => {
                push_all(out, &chars_of(t.as_str()));
            },
            Node::Integer(i) => {
                push_all(out, &chars_of(hrw_decimal(*i).as_str()));
            },
            Node::Text(s) => {
                push_all(out, &chars_of(json_quote(s.as_str()).as_str()));
            },
            Node::Boolean(b) => {
                if *b {
                    out.push('t');
                    out.push('r');
                    out.push('u');
                    out.push('e');
                    assert(out@ =~= old(out)@ + seq!['t', 'r', 'u', 'e']);
                } else {
                    out.push('f');
                    out.push('a');
                    out.push('l');
                    out.push('s');
                    out.push('e');
                    assert(out@ =~= old(out)@ + seq!['f', 'a', 'l', 's', 'e']);
                }
            },
            Node::Array(items) => {
                proof {
                    lemma_array_view(*items);
                }
                out.push('[');
                let ghost start = out@;
                let mut i: usize = 0;
                assert(items.deep_view().take(0) =~= Seq::<NodeView>::empty());
                assert(out@ =~= start + Seq::<char>::empty());
                while i < items.len()
                    invariant
                        i <= items.len(),
                        *self matches Node::Array(v) && v == *items,
                        out@ == start + flow_items(items.deep_view().take(i as int)),
                    decreases items.len() - i,
                {
                    let ghost seen = items.deep_view().take(i as int);
                    let ghost next = items.deep_view().take(i as int + 1);
                    assert(next.drop_last() =~= seen);
                    assert(next.last() == items@[i as int]@);
                    if i > 0 {
                        out.push(',');
                        out.push(' ');
                    }
                    items[i].write_flow(out);
                    proof {
                        let item = flow(items@[i as int]@);
                        if i > 0 {
                            assert(out@ =~= start + (flow_items(seen) + seq![',', ' '] + item));
                        } else {
                            assert(flow_items(seen) =~= Seq::<char>::empty());
                            assert(out@ =~= start + item);
                        }
                    }
                    i += 1;
                }
                assert(items.deep_view().take(i as int) =~= items.deep_view());
                out.push(']');
                assert(out@ =~= old(out)@ + (seq!['['] + flow_items(items.deep_view()) + seq![
                    ']',
                ]));
            },
            Node::Hash(pairs) => {
                proof {
                    lemma_hash_view(*pairs);
                }
                out.push('{');
                let ghost start = out@;
                let mut i: usize = 0;
                assert(pairs.deep_view().take(0) =~= Seq::<(NodeView, NodeView)>::empty());
                assert(out@ =~= start + Seq::<char>::empty());
                while i < pairs.len()
                    invariant
                        i <= pairs.len(),
                        *self matches Node::Hash(v) && v == *pairs,
                        out@ == start + flow_pairs(pairs.deep_view().take(i as int)),
                    decreases pairs.len() - i,
                {
                    let ghost seen = pairs.deep_view().take(i as int);
                    let ghost next = pairs.deep_view().take(i as int + 1);
                    assert(next.drop_last() =~= seen);
                    assert(next.last() == (pairs@[i as int].0@, pairs@[i as int].1@));
                    if i > 0 {
                        out.push(',');
                        out.push(' ');
                    }
                    pairs[i].0.write_flow(out);
                    out.push(':');
                    out.push(' ');
                    pairs[i].1.write_flow(out);
                    proof {
                        let key = flow(pairs@[i as int].0@);
                        let value = flow(pairs@[i as int].1@);
                        if i > 0 {
                            assert(out@ =~= start + (flow_pairs(seen) + seq![',', ' '] + key + seq![
                                ':',
                                ' ',
                            ] + value));
                        } else {
                            assert(flow_pairs(seen) =~= Seq::<char>::empty());
                            assert(out@ =~= start + (key + seq![':', ' '] + value));
                        }
                    }
                    i += 1;
                }
                assert(pairs.deep_view().take(i as int) =~= pairs.deep_view());
                out.push('}');
                assert(out@ =~= old(out)@ + (seq!['{'] + flow_pairs(pairs.deep_view()) + seq![
                    '}',
                ]));
            },
            Node::Null => {
                out.push('n');
                out.push('u');
                out.push('l');
                out.push('l');
                assert(out@ =~= old(out)@ + seq!['n', 'u', 'l', 'l']);
            },
        }
    }
}

} // verus!
