//! The generators of a plan: how one item becomes many request steps.

pub mod inclusion;
pub mod multi_csv_request;
pub mod multi_file_request;
pub mod multi_iter_request;
pub mod multi_request;

use crate::error::{HarrawError, HarrawErrorView, SourceKind};
use crate::node::{duplicate_all, Node, NodeView};
use crate::service::request::{HarrawRequest, HarrawRequestView};
use crate::service::{HarrawStep, HarrawStepView};
use crate::interpolator::{has_token, hrw_has_interpolation};
use crate::text::text_eq;
use rand::seq::SliceRandom;
use vstd::prelude::*;

verus! {

/// `SliceRandom::shuffle` with the thread's random number generator: the items are
/// swapped among themselves, so the same items are there afterwards, each as often
/// as before. Nothing is said of their order.
#[verifier::external_body]
pub(crate) fn hrw_shuffle<T>(items: &mut Vec<T>)
    ensures
        final(items)@.to_multiset() == old(items)@.to_multiset(),
{
    items.shuffle(&mut rand::thread_rng());
}

/// The positions `0`, `1`, ... below `n`, in order.
pub open spec fn positions(n: nat) -> Seq<usize> {
    Seq::new(n, |i: int| i as usize)
}

/// Whether `perm` holds each position below `n` exactly once.
pub open spec fn is_permutation(perm: Seq<usize>, n: nat) -> bool {
    perm.to_multiset() == positions(n).to_multiset()
}

/// The items of `source` in the order that `perm` gives.
pub open spec fn arranged(source: Seq<NodeView>, perm: Seq<usize>) -> Seq<NodeView> {
    Seq::new(perm.len(), |k: int| source[perm[k] as int])
}

/// Whether `order` is an order in which a generator may take the items of
/// `source`: any rearrangement where they are shuffled, their own order where not.
pub open spec fn is_order_of(order: Seq<NodeView>, source: Seq<NodeView>, shuffled: bool) -> bool {
    if shuffled {
        exists|perm: Seq<usize>|
            is_permutation(perm, source.len()) && order == #[trigger] arranged(source, perm)
    } else {
        order == source
    }
}

/// An order of a source has the length of the source.
pub proof fn lemma_order_length(order: Seq<NodeView>, source: Seq<NodeView>, shuffled: bool)
    requires
        is_order_of(order, source, shuffled),
    ensures
        order.len() == source.len(),
{
    if shuffled {
        let perm = choose|perm: Seq<usize>|
            is_permutation(perm, source.len()) && order == #[trigger] arranged(source, perm);
        perm.to_multiset_ensures();
        positions(source.len()).to_multiset_ensures();
    }
}

/// Whether the item asks for its generated values to be shuffled.
pub open spec fn wants_shuffle(item: NodeView) -> bool {
    item.at("shuffle"@).as_bool() == Some(true)
}

/// Whether the item asks for its generated values to be shuffled.
pub fn hrw_wants_shuffle(item: &Node) -> (r: bool)
    ensures
        r == wants_shuffle(item@),
{
    match item.get("shuffle") {
        Some(Node::Boolean(b)) => *b,
        _ => false,
    }
}

/// Copies of the items of `source`, shuffled where asked for.
pub fn hrw_arrange(source: &Vec<Node>, shuffled: bool) -> (order: Vec<Node>)
    ensures
        is_order_of(order.deep_view(), source.deep_view(), shuffled),
        order.len() == source.len(),
{
    if !shuffled {
        let order = duplicate_all(source);
        assert(order.deep_view().len() == source.deep_view().len());
        return order;
    }
    let n = source.len();
    let mut indices: Vec<usize> = Vec::new();
    let mut i: usize = 0;
    while i < n
        invariant
            i <= n,
            indices@ == positions(i as nat),
        decreases n - i,
    {
        indices.push(i);
        assert(indices@ =~= positions((i + 1) as nat));
        i += 1;
    }
    hrw_shuffle(&mut indices);
    proof {
        indices@.to_multiset_ensures();
        positions(n as nat).to_multiset_ensures();
        assert forall|k: int| 0 <= k < indices@.len() implies (#[trigger] indices@[k]) < n by {
            assert(indices@.contains(indices@[k]));
            assert(positions(n as nat).to_multiset().count(indices@[k]) > 0);
            assert(positions(n as nat).contains(indices@[k]));
        }
    }
    let mut order: Vec<Node> = Vec::new();
    let mut k: usize = 0;
    while k < n
        invariant
            k <= n,
            n == source.len(),
            indices@.len() == n,
            forall|j: int| 0 <= j < indices@.len() ==> (#[trigger] indices@[j]) < n,
            order.deep_view() == arranged(source.deep_view(), indices@).take(k as int),
        decreases n - k,
    {
        let ghost before = order.deep_view();
        let item = source[indices[k]].duplicate();
        order.push(item);
        assert(order.deep_view() =~= before.push(source@[indices@[k as int] as int]@));
        assert(order.deep_view() =~= arranged(source.deep_view(), indices@).take(k as int + 1));
        k += 1;
    }
    assert(order.deep_view() =~= arranged(source.deep_view(), indices@));
    assert(is_permutation(indices@, source.deep_view().len()));
    order
}

/// How many of `len` generated values an item takes: all of them where it has no
/// whole-numbered `pick`, else that many. A negative `pick`, or one beyond `len`,
/// is refused.
pub open spec fn picked(item: NodeView, len: nat) -> Result<nat, HarrawErrorView> {
    match item.at("pick"@).as_i64() {
        None => Ok(len),
        Some(v) => if v < 0 {
            Err(HarrawErrorView::NegativePick(v))
        } else if v > len {
            Err(HarrawErrorView::PickTooLarge(v))
        } else {
            Ok(v as nat)
        },
    }
}

/// The whole-numbered `pick` of an item, if it has one.
pub fn hrw_pick_option(item: &Node) -> (r: Option<i64>)
    ensures
        r == item@.at("pick"@).as_i64(),
{
    match item.get("pick") {
        Some(node) => node.as_i64(),
        None => None,
    }
}

/// How many of the generated values `with_items` the item takes.
pub fn hrw_pick(item: &Node, with_items: &Vec<Node>) -> (r: Result<usize, HarrawError>)
    ensures
        match r {
            Ok(n) => picked(item@, with_items@.len()) == Ok::<nat, HarrawErrorView>(n as nat)
                && n <= with_items.len(),
            Err(e) => picked(item@, with_items@.len()) == Err::<nat, HarrawErrorView>(e@),
        },
{
    match hrw_pick_option(item) {
        Some(value) => {
            if value < 0 {
                Err(HarrawError::NegativePick(value))
            } else if (value as u64) > (with_items.len() as u64) {
                Err(HarrawError::PickTooLarge(value))
            } else {
                Ok(value as usize)
            }
        },
        None => Ok(with_items.len()),
    }
}

/// The position that the request for the `k`-th generated value carries: `k`,
/// reduced to 32 bits.
pub open spec fn index_at(k: int) -> u32 {
    (k % 0x1_0000_0000) as u32
}

/// One request step for each of `values`, in order, each with its value and its
/// position.
pub open spec fn requests(definition: NodeView, values: Seq<NodeView>) -> Seq<HarrawStepView> {
    Seq::new(
        values.len(),
        |k: int|
            HarrawStepView::Request(
                HarrawRequestView {
                    definition,
                    with_item: Some(values[k]),
                    index: Some(index_at(k)),
                },
            ),
    )
}

/// Makes one request step for each of the first `count` values.
pub fn hrw_emit(item: &Node, values: &Vec<Node>, count: usize) -> (steps: Vec<HarrawStep>)
    requires
        count <= values.len(),
    ensures
        steps.deep_view() == requests(item@, values.deep_view().take(count as int)),
{
    let mut steps: Vec<HarrawStep> = Vec::new();
    let mut k: usize = 0;
    while k < count
        invariant
            k <= count <= values.len(),
            steps.deep_view() == requests(item@, values.deep_view().take(k as int)),
        decreases count - k,
    {
        let ghost before = steps.deep_view();
        let index: u32 = ((k as u64) % 0x1_0000_0000u64) as u32;
        let request = HarrawRequest::new(item, Some(values[k].duplicate()), Some(index));
        steps.push(HarrawStep::Request(request));
        assert(steps.deep_view() =~= before.push(HarrawStepView::Request(request@)));
        assert(steps.deep_view() =~= requests(item@, values.deep_view().take(k as int + 1)));
        k += 1;
    }
    steps
}

/// Appends `more` to `benchmark`.
pub fn hrw_append(benchmark: &mut Vec<HarrawStep>, more: Vec<HarrawStep>)
    ensures
        final(benchmark).deep_view() == old(benchmark).deep_view() + more.deep_view(),
{
    let mut more = more;
    let ghost a = benchmark.deep_view();
    let ghost b = more.deep_view();
    benchmark.append(&mut more);
    assert(benchmark.deep_view() =~= a + b);
}

/// The content of a file, as the driver has read it.
#[derive(Debug, PartialEq)]
pub struct HarrawSource {
    /// How the file was read.
    pub kind: SourceKind,
    /// The path of the file that names this one; empty for the plan itself.
    pub parent: String,
    /// The name under which that file names this one; empty for the plan itself.
    pub name: String,
    /// The path of this file.
    pub path: String,
    /// The documents of a plan file, the rows of a CSV file, or the items of a
    /// sequence file.
    pub items: Vec<Node>,
}

/// The mathematical content of a `HarrawSource`.
pub struct HarrawSourceView {
    pub kind: SourceKind,
    pub parent: Seq<char>,
    pub name: Seq<char>,
    pub path: Seq<char>,
    pub items: Seq<NodeView>,
}

impl View for HarrawSource {
    type V = HarrawSourceView;

    open spec fn view(&self) -> HarrawSourceView {
        HarrawSourceView {
            kind: self.kind,
            parent: self.parent@,
            name: self.name@,
            path: self.path@,
            items: self.items.deep_view(),
        }
    }
}

impl DeepView for HarrawSource {
    type V = HarrawSourceView;

    open spec fn deep_view(&self) -> HarrawSourceView {
        self@
    }
}

/// The first plan file with the path `path`.
pub open spec fn plan_at(sources: Seq<HarrawSourceView>, path: Seq<char>) -> Option<
    HarrawSourceView,
>
    decreases sources.len(),
{
    if sources.len() == 0 {
        None
    } else if sources[0].kind == SourceKind::Plan && sources[0].path == path {
        Some(sources[0])
    } else {
        plan_at(sources.drop_first(), path)
    }
}

/// The first file of kind `kind` that the file at `parent` names `name`.
pub open spec fn source_beside(
    sources: Seq<HarrawSourceView>,
    kind: SourceKind,
    parent: Seq<char>,
    name: Seq<char>,
) -> Option<HarrawSourceView>
    decreases sources.len(),
{
    if sources.len() == 0 {
        None
    } else if sources[0].kind == kind && sources[0].parent == parent && sources[0].name == name {
        Some(sources[0])
    } else {
        source_beside(sources.drop_first(), kind, parent, name)
    }
}

proof fn lemma_plan_at_skip(sources: Seq<HarrawSourceView>, path: Seq<char>, k: int)
    requires
        0 <= k <= sources.len(),
        forall|i: int|
            0 <= i < k ==> !((#[trigger] sources[i]).kind == SourceKind::Plan && sources[i].path
                == path),
    ensures
        plan_at(sources, path) == plan_at(sources.skip(k), path),
    decreases k,
{
    if k > 0 {
        assert(!(sources[0].kind == SourceKind::Plan && sources[0].path == path));
        assert(sources.drop_first().skip(k - 1) =~= sources.skip(k));
        assert forall|i: int| 0 <= i < k - 1 implies !((#[trigger] sources.drop_first()[i]).kind
            == SourceKind::Plan && sources.drop_first()[i].path == path) by {
            assert(sources.drop_first()[i] == sources[i + 1]);
        }
        lemma_plan_at_skip(sources.drop_first(), path, k - 1);
    } else {
        assert(sources.skip(0) =~= sources);
    }
}

proof fn lemma_source_beside_skip(
    sources: Seq<HarrawSourceView>,
    kind: SourceKind,
    parent: Seq<char>,
    name: Seq<char>,
    k: int,
)
    requires
        0 <= k <= sources.len(),
        forall|i: int|
            0 <= i < k ==> !((#[trigger] sources[i]).kind == kind && sources[i].parent == parent
                && sources[i].name == name),
    ensures
        source_beside(sources, kind, parent, name) == source_beside(
            sources.skip(k),
            kind,
            parent,
            name,
        ),
    decreases k,
{
    if k > 0 {
        assert(!(sources[0].kind == kind && sources[0].parent == parent && sources[0].name
            == name));
        assert(sources.drop_first().skip(k - 1) =~= sources.skip(k));
        assert forall|i: int| 0 <= i < k - 1 implies !((#[trigger] sources.drop_first()[i]).kind
            == kind && sources.drop_first()[i].parent == parent && sources.drop_first()[i].name
            == name) by {
            assert(sources.drop_first()[i] == sources[i + 1]);
        }
        lemma_source_beside_skip(sources.drop_first(), kind, parent, name, k - 1);
    } else {
        assert(sources.skip(0) =~= sources);
    }
}

/// Finds the plan file with the path `path`.
pub fn hrw_plan_at<'a>(sources: &'a Vec<HarrawSource>, path: &str) -> (r: Option<&'a HarrawSource>)
    ensures
        r.deep_view() == plan_at(sources.deep_view(), path@),
{
    let mut i: usize = 0;
    while i < sources.len()
        invariant
            i <= sources.len(),
            forall|j: int|
                0 <= j < i ==> !((#[trigger] sources.deep_view()[j]).kind == SourceKind::Plan
                    && sources.deep_view()[j].path == path@),
        decreases sources.len() - i,
    {
        let hit = match sources[i].kind {
            SourceKind::Plan => text_eq(sources[i].path.as_str(), path),
            _ => false,
        };
        if hit {
            proof {
                lemma_plan_at_skip(sources.deep_view(), path@, i as int);
                assert(sources.deep_view().skip(i as int)[0] == sources.deep_view()[i as int]);
            }
            return Some(&sources[i]);
        }
        i += 1;
    }
    proof {
        lemma_plan_at_skip(sources.deep_view(), path@, i as int);
    }
    None
}

/// Finds the file of kind `kind` that the file at `parent` names `name`.
pub fn hrw_source_beside<'a>(
    sources: &'a Vec<HarrawSource>,
    kind: SourceKind,
    parent: &str,
    name: &str,
) -> (r: Option<&'a HarrawSource>)
    ensures
        r.deep_view() == source_beside(sources.deep_view(), kind, parent@, name@),
{
    let mut i: usize = 0;
    while i < sources.len()
        invariant
            i <= sources.len(),
            forall|j: int|
                0 <= j < i ==> !((#[trigger] sources.deep_view()[j]).kind == kind
                    && sources.deep_view()[j].parent == parent@ && sources.deep_view()[j].name
                    == name@),
        decreases sources.len() - i,
    {
        if sources[i].kind == kind && text_eq(sources[i].parent.as_str(), parent) && text_eq(
            sources[i].name.as_str(),
            name,
        ) {
            proof {
                lemma_source_beside_skip(sources.deep_view(), kind, parent@, name@, i as int);
                assert(sources.deep_view().skip(i as int)[0] == sources.deep_view()[i as int]);
            }
            return Some(&sources[i]);
        }
        i += 1;
    }
    proof {
        lemma_source_beside_skip(sources.deep_view(), kind, parent@, name@, i as int);
    }
    None
}

/// Whether a node is a string in which a `{{ name }}` token stands.
pub open spec fn holds_token(node: NodeView) -> bool {
    node matches NodeView::Text(s) && has_token(s)
}

/// Whether a node is a string in which a `{{ name }}` token stands.
pub fn hrw_holds_token(node: &Node) -> (r: bool)
    ensures
        r == holds_token(node@),
{
    match node {
        Node::Text(s) => hrw_has_interpolation(s.as_str()),
        _ => false,
    }
}

/// The content of a result that holds steps.
pub open spec fn steps_result(r: Result<Vec<HarrawStep>, HarrawError>) -> Result<
    Seq<HarrawStepView>,
    HarrawErrorView,
> {
    match r {
        Ok(steps) => Ok(steps.deep_view()),
        Err(e) => Err(e@),
    }
}

/// Whether `after` is `before` with new steps behind it, and `before` itself
/// where `r` is a failure.
pub open spec fn kept(
    before: Seq<HarrawStepView>,
    after: Seq<HarrawStepView>,
    r: Result<(), HarrawError>,
) -> bool {
    &&& before.len() <= after.len()
    &&& after.take(before.len() as int) == before
    &&& r is Err ==> after == before
}

/// The steps by which `after` is longer than `before`, or the failure of `r`.
pub open spec fn appended(
    before: Seq<HarrawStepView>,
    after: Seq<HarrawStepView>,
    r: Result<(), HarrawError>,
) -> Result<Seq<HarrawStepView>, HarrawErrorView> {
    match r {
        Ok(_) => Ok(after.skip(before.len() as int)),
        Err(e) => Err(e@),
    }
}

/// Appends the steps of a successful expansion to `benchmark`, and hands a failure
/// on.
pub fn hrw_splice(benchmark: &mut Vec<HarrawStep>, made: Result<Vec<HarrawStep>, HarrawError>) -> (r:
    Result<(), HarrawError>)
    ensures
        kept(old(benchmark).deep_view(), final(benchmark).deep_view(), r),
        appended(old(benchmark).deep_view(), final(benchmark).deep_view(), r) == steps_result(
            made,
        ),
{
    match made {
        Ok(steps) => {
            let ghost more = steps.deep_view();
            hrw_append(benchmark, steps);
            assert(benchmark.deep_view().take(old(benchmark).deep_view().len() as int) =~= old(
                benchmark,
            ).deep_view());
            assert(benchmark.deep_view().skip(old(benchmark).deep_view().len() as int) =~= more);
            Ok(())
        },
        Err(e) => {
            assert(benchmark.deep_view().take(benchmark.deep_view().len() as int)
                =~= benchmark.deep_view());
            Err(e)
        },
    }
}

/// The requests for the values that an item picks from `order`.
pub open spec fn picked_requests(item: NodeView, order: Seq<NodeView>) -> Result<
    Seq<HarrawStepView>,
    HarrawErrorView,
> {
    match picked(item, order.len()) {
        Err(e) => Err(e),
        Ok(n) => Ok(requests(item, order.take(n as int))),
    }
}

/// The number of values that an item takes of `len`: its `pick`, and all of them
/// where it has no `pick`.
pub open spec fn pick_count(item: NodeView, len: nat) -> int {
    match item.at("pick"@).as_i64() {
        Some(p) => p as int,
        None => len as int,
    }
}

/// A generator that succeeds makes as many steps as the item picks of the values
/// of its source: `pick` of them, which is no more than there are, or all where the
/// item has no `pick`.
pub proof fn law_pick_count(
    item: NodeView,
    source: Seq<NodeView>,
    order: Seq<NodeView>,
    shuffled: bool,
)
    requires
        is_order_of(order, source, shuffled),
        picked_requests(item, order) is Ok,
    ensures
        picked_requests(item, order)->Ok_0.len() == pick_count(item, source.len()),
        0 <= pick_count(item, source.len()) <= source.len(),
{
    lemma_order_length(order, source, shuffled);
}

/// A `pick` beyond the number of values is refused by every generator, and the
/// failure gives the value of `pick`.
pub proof fn law_pick_too_large(item: NodeView, order: Seq<NodeView>)
    requires
        item.at("pick"@).as_i64() is Some,
        item.at("pick"@).as_i64()->0 > order.len(),
    ensures
        picked_requests(item, order) == Err::<Seq<HarrawStepView>, HarrawErrorView>(
            HarrawErrorView::PickTooLarge(item.at("pick"@).as_i64()->0),
        ),
{
}

/// The values are shuffled before they are picked: each step of a shuffled
/// generator carries a value of the whole source, whichever position the value
/// has there.
pub proof fn law_pick_follows_shuffle(item: NodeView, source: Seq<NodeView>, order: Seq<NodeView>)
    requires
        is_order_of(order, source, true),
        picked_requests(item, order) is Ok,
    ensures
        forall|k: int|
            0 <= k < picked_requests(item, order)->Ok_0.len() ==> exists|j: int|
                0 <= j < source.len() && (#[trigger] picked_requests(item, order)->Ok_0[k])
                    == HarrawStepView::Request(
                    HarrawRequestView {
                        definition: item,
                        with_item: Some(#[trigger] source[j]),
                        index: Some(index_at(k)),
                    },
                ),
{
    let perm = choose|perm: Seq<usize>|
        is_permutation(perm, source.len()) && order == #[trigger] arranged(source, perm);
    perm.to_multiset_ensures();
    positions(source.len()).to_multiset_ensures();
    let steps = picked_requests(item, order)->Ok_0;
    assert forall|k: int| 0 <= k < steps.len() implies exists|j: int|
        0 <= j < source.len() && (#[trigger] steps[k]) == HarrawStepView::Request(
            HarrawRequestView {
                definition: item,
                with_item: Some(#[trigger] source[j]),
                index: Some(index_at(k)),
            },
        ) by {
        assert(perm.contains(perm[k]));
        assert(positions(source.len()).to_multiset().count(perm[k]) > 0);
        assert(positions(source.len()).contains(perm[k]));
        let j = perm[k] as int;
        assert(0 <= j < source.len());
        assert(order[k] == source[j]);
    }
}

} // verus!
