//! The expansion of a plan file into steps, with the files that it names by
//! `include` spliced in where they are named.

use crate::backend::multi_csv_request;
use crate::backend::multi_csv_request::{csv_yields, is_csv_generator};
use crate::backend::multi_file_request;
use crate::backend::multi_file_request::{file_yields, is_file_generator};
use crate::backend::multi_iter_request;
use crate::backend::multi_iter_request::{is_range_generator, range_yields};
use crate::backend::multi_request;
use crate::backend::multi_request::{is_list_generator, list_yields};
use crate::backend::{appended, hrw_splice, kept, steps_result};
use crate::backend::{hrw_plan_at, hrw_source_beside, plan_at, source_beside};
use crate::backend::{HarrawSource, HarrawSourceView};
use crate::error::{HarrawError, HarrawErrorView, Property, SourceKind};
use crate::interpolator::{has_token, hrw_has_interpolation};
use crate::node::{Node, NodeView};
use crate::service::assertion::{assert_of, HarrawAssert};
use crate::service::assign::{assign_of, HarrawAssign};
use crate::service::delay::{delay_of, HarrawDelay};
use crate::service::exec::{exec_of, HarrawExec};
use crate::service::request::{HarrawRequest, HarrawRequestView};
use crate::service::{HarrawStep, HarrawStepView};
use crate::tags::{skip_decision, HarrawTags};
use vstd::prelude::*;

verus! {

/// Whether an item names a file to splice in.
pub open spec fn is_inclusion(item: NodeView) -> bool {
    item.at("include"@) is Text
}

/// The step that an item describes by itself. The kinds are tried in the order
/// delay, command, assignment, check, request; an item of none of these kinds is
/// refused.
pub open spec fn simple_step(item: NodeView) -> Result<HarrawStepView, HarrawErrorView> {
    if item.at("delay"@).is_hash() {
        match delay_of(item) {
            Ok(s) => Ok(HarrawStepView::Delay(s)),
            Err(e) => Err(e),
        }
    } else if item.at("exec"@).is_hash() {
        match exec_of(item) {
            Ok(s) => Ok(HarrawStepView::Exec(s)),
            Err(e) => Err(e),
        }
    } else if item.at("assign"@).is_hash() {
        match assign_of(item) {
            Ok(s) => Ok(HarrawStepView::Assign(s)),
            Err(e) => Err(e),
        }
    } else if item.at("assert"@).is_hash() {
        match assert_of(item) {
            Ok(s) => Ok(HarrawStepView::Assert(s)),
            Err(e) => Err(e),
        }
    } else if item.at("request"@).is_hash() {
        Ok(
            HarrawStepView::Request(
                HarrawRequestView { definition: item, with_item: None, index: None },
            ),
        )
    } else {
        Err(HarrawErrorView::UnknownNode(item))
    }
}

/// `front` followed by the steps of `last`, or the failure of `last`.
pub open spec fn joined(
    front: Seq<HarrawStepView>,
    last: Result<Seq<HarrawStepView>, HarrawErrorView>,
) -> Result<Seq<HarrawStepView>, HarrawErrorView> {
    match last {
        Ok(more) => Ok(front + more),
        Err(e) => Err(e),
    }
}

/// The result of `before` followed by that of `last`: the steps of both, or the
/// first failure.
pub open spec fn followed_by(
    before: Result<Seq<HarrawStepView>, HarrawErrorView>,
    last: Result<Seq<HarrawStepView>, HarrawErrorView>,
) -> Result<Seq<HarrawStepView>, HarrawErrorView> {
    match before {
        Ok(front) => joined(front, last),
        Err(e) => Err(e),
    }
}

/// The items of a plan document: the sequence under `accessor`, or the document
/// itself where no accessor is given.
pub open spec fn plan_items(doc: NodeView, accessor: Option<Seq<char>>) -> Option<Seq<NodeView>> {
    match accessor {
        Some(a) => doc.at(a).as_vec(),
        None => doc.as_vec(),
    }
}

/// Whether `out` is a possible result of expanding an item that names no file to
/// splice in. An item that the tag filter leaves out yields nothing. The
/// generators are tried first, in the order list, range, CSV file, sequence file;
/// any other item yields the one step that it describes.
pub open spec fn plain_item_yields(
    sources: Seq<HarrawSourceView>,
    path: Seq<char>,
    wanted: Option<Set<Seq<char>>>,
    excluded: Option<Set<Seq<char>>>,
    item: NodeView,
    out: Result<Seq<HarrawStepView>, HarrawErrorView>,
) -> bool {
    match skip_decision(wanted, excluded, item) {
        Err(e) => out == Err::<Seq<HarrawStepView>, HarrawErrorView>(e),
        Ok(skip) => if skip {
            out == Ok::<Seq<HarrawStepView>, HarrawErrorView>(Seq::empty())
        } else if is_list_generator(item) {
            list_yields(item, out)
        } else if is_range_generator(item) {
            range_yields(item, out)
        } else if is_csv_generator(item) {
            csv_yields(sources, path, item, out)
        } else if is_file_generator(item) {
            file_yields(sources, path, item, out)
        } else {
            out == (match simple_step(item) {
                Ok(step) => Ok(seq![step]),
                Err(e) => Err(e),
            })
        },
    }
}

/// Whether `out` is a possible result of expanding an item of the file at `path`. An item that names a file yields what that file yields,
/// whatever its tags are; the name may hold no token, which is checked before any
/// file is asked for, and files may name one another `depth` levels deep.
pub open spec fn item_yields(
    sources: Seq<HarrawSourceView>,
    path: Seq<char>,
    wanted: Option<Set<Seq<char>>>,
    excluded: Option<Set<Seq<char>>>,
    depth: nat,
    item: NodeView,
    out: Result<Seq<HarrawStepView>, HarrawErrorView>,
) -> bool
    decreases depth, 0nat, 0nat,
{
    if is_inclusion(item) {
        let name = item.at("include"@).as_str()->0;
        let found = source_beside(sources, SourceKind::Plan, path, name);
        if has_token(name) {
            out == Err::<Seq<HarrawStepView>, HarrawErrorView>(
                HarrawErrorView::InterpolationForbidden(Property::Include),
            )
        } else if depth == 0 {
            out == Err::<Seq<HarrawStepView>, HarrawErrorView>(HarrawErrorView::TooDeep)
        } else if found is None {
            out == Err::<Seq<HarrawStepView>, HarrawErrorView>(
                HarrawErrorView::MissingSource(SourceKind::Plan, path, name),
            )
        } else {
            plan_yields(sources, found->0.path, None, wanted, excluded, (depth - 1) as nat, out)
        }
    } else {
        plain_item_yields(sources, path, wanted, excluded, item, out)
    }
}

/// Whether `out` is a possible result of expanding `items`, the items of the file
/// at `path`, one after the other: the steps of each item stand where the item
/// stands, and the first failure is the failure of the whole.
pub open spec fn items_yield(
    sources: Seq<HarrawSourceView>,
    path: Seq<char>,
    wanted: Option<Set<Seq<char>>>,
    excluded: Option<Set<Seq<char>>>,
    depth: nat,
    items: Seq<NodeView>,
    out: Result<Seq<HarrawStepView>, HarrawErrorView>,
) -> bool
    decreases depth, 1nat, items.len(),
{
    if items.len() == 0 {
        out == Ok::<Seq<HarrawStepView>, HarrawErrorView>(Seq::empty())
    } else {
        exists|
            before: Result<Seq<HarrawStepView>, HarrawErrorView>,
            last: Result<Seq<HarrawStepView>, HarrawErrorView>,
        |
            #![trigger followed_by(before, last)]
            items_yield(sources, path, wanted, excluded, depth, items.drop_last(), before) && (
            before is Ok ==> item_yields(
                sources,
                path,
                wanted,
                excluded,
                depth,
                items.last(),
                last,
            )) && out == followed_by(before, last)
    }
}

/// Whether `out` is a possible result of expanding the plan file at `path`: that
/// of the items of its first document. A file that is not among `sources` is
/// reported as missing.
pub open spec fn plan_yields(
    sources: Seq<HarrawSourceView>,
    path: Seq<char>,
    accessor: Option<Seq<char>>,
    wanted: Option<Set<Seq<char>>>,
    excluded: Option<Set<Seq<char>>>,
    depth: nat,
    out: Result<Seq<HarrawStepView>, HarrawErrorView>,
) -> bool
    decreases depth, 2nat, 0nat,
{
    let file = plan_at(sources, path);
    if file is None {
        out == Err::<Seq<HarrawStepView>, HarrawErrorView>(HarrawErrorView::MissingPlan(path))
    } else if file->0.items.len() == 0 || plan_items(file->0.items[0], accessor) is None {
        out == Err::<Seq<HarrawStepView>, HarrawErrorView>(HarrawErrorView::NotASequence)
    } else {
        items_yield(
            sources,
            path,
            wanted,
            excluded,
            depth,
            plan_items(file->0.items[0], accessor)->0,
            out,
        )
    }
}

/// The view of an optional accessor.
pub open spec fn accessor_view(accessor: Option<&str>) -> Option<Seq<char>> {
    match accessor {
        Some(a) => Some(a@),
        None => None,
    }
}

/// Whether `item` names a file to splice in.
pub fn hrw_is_that_you(item: &Node) -> (r: bool)
    ensures
        r == is_inclusion(item@),
{
    match item.get("include") {
        Some(Node::Text(_)) => true,
        _ => false,
    }
}

/// The step that `item` describes by itself.
pub fn hrw_simple_step(item: &Node) -> (r: Result<HarrawStep, HarrawError>)
    ensures
        match r {
            Ok(step) => simple_step(item@) == Ok::<HarrawStepView, HarrawErrorView>(
                step@,
            ),
            Err(e) => simple_step(item@) == Err::<HarrawStepView, HarrawErrorView>(
                e@,
            ),
        },
{
    if HarrawDelay::hrw_is_that_you(item) {
        Ok(HarrawStep::Delay(HarrawDelay::new(item, None)?))
    } else if HarrawExec::hrw_is_that_you(item) {
        Ok(HarrawStep::Exec(HarrawExec::new(item, None)?))
    } else if HarrawAssign::hrw_is_that_you(item) {
        Ok(HarrawStep::Assign(HarrawAssign::new(item, None)?))
    } else if HarrawAssert::hrw_is_that_you(item) {
        Ok(HarrawStep::Assert(HarrawAssert::new(item, None)?))
    } else if HarrawRequest::hrw_is_that_you(item) {
        Ok(HarrawStep::Request(HarrawRequest::new(item, None, None)))
    } else {
        Err(HarrawError::UnknownNode(item.duplicate()))
    }
}

/// The steps of an item that names no file to splice in.
pub fn hrw_expand_plain(
    parent_path: &str,
    item: &Node,
    tags: &HarrawTags,
    sources: &Vec<HarrawSource>,
) -> (r: Result<Vec<HarrawStep>, HarrawError>)
    ensures
        plain_item_yields(
            sources.deep_view(),
            parent_path@,
            tags.wanted(),
            tags.excluded(),
            item@,
            steps_result(r),
        ),
{
    if tags.hrw_should_skip_item(item)? {
        let none: Vec<HarrawStep> = Vec::new();
        assert(none.deep_view() =~= Seq::empty());
        return Ok(none);
    }
    if multi_request::hrw_is_that_you(item) {
        multi_request::hrw_generate(item)
    } else if multi_iter_request::hrw_is_that_you(item) {
        multi_iter_request::hrw_generate(item)
    } else if multi_csv_request::hrw_is_that_you(item) {
        multi_csv_request::hrw_generate(parent_path, item, sources)
    } else if multi_file_request::hrw_is_that_you(item) {
        multi_file_request::hrw_generate(parent_path, item, sources)
    } else {
        let step = hrw_simple_step(item)?;
        let mut one: Vec<HarrawStep> = Vec::new();
        one.push(step);
        assert(one.deep_view() =~= seq![step@]);
        Ok(one)
    }
}

proof fn lemma_failure_persists(
    sources: Seq<HarrawSourceView>,
    path: Seq<char>,
    wanted: Option<Set<Seq<char>>>,
    excluded: Option<Set<Seq<char>>>,
    depth: nat,
    items: Seq<NodeView>,
    k: int,
    e: HarrawErrorView,
)
    requires
        0 <= k <= items.len(),
        items_yield(
            sources,
            path,
            wanted,
            excluded,
            depth,
            items.take(k),
            Err::<Seq<HarrawStepView>, HarrawErrorView>(e),
        ),
    ensures
        items_yield(
            sources,
            path,
            wanted,
            excluded,
            depth,
            items,
            Err::<Seq<HarrawStepView>, HarrawErrorView>(e),
        ),
    decreases items.len() - k,
{
    if k == items.len() {
        assert(items.take(k) =~= items);
    } else {
        let next = items.take(k + 1);
        assert(next.drop_last() =~= items.take(k));
        let before = Err::<Seq<HarrawStepView>, HarrawErrorView>(e);
        assert(items_yield(sources, path, wanted, excluded, depth, next.drop_last(), before));
        assert(followed_by(before, before) == before);
        assert(items_yield(sources, path, wanted, excluded, depth, next, before));
        lemma_failure_persists(sources, path, wanted, excluded, depth, items, k + 1, e);
    }
}

/// The steps of an item of the file at `parent_path`.
pub fn hrw_expand_item(
    parent_path: &str,
    item: &Node,
    tags: &HarrawTags,
    sources: &Vec<HarrawSource>,
    depth: usize,
) -> (r: Result<Vec<HarrawStep>, HarrawError>)
    ensures
        item_yields(
            sources.deep_view(),
            parent_path@,
            tags.wanted(),
            tags.excluded(),
            depth as nat,
            item@,
            steps_result(r),
        ),
    decreases depth, 0nat,
{
    let name = match item.get("include") {
        Some(Node::Text(name)) => name,
        _ => {
            return hrw_expand_plain(parent_path, item, tags, sources);
        },
    };
    if hrw_has_interpolation(name.as_str()) {
        return Err(HarrawError::InterpolationForbidden(Property::Include));
    }
    if depth == 0 {
        return Err(HarrawError::TooDeep);
    }
    match hrw_source_beside(sources, SourceKind::Plan, parent_path, name.as_str()) {
        Some(file) => hrw_expand_plan(file.path.as_str(), None, tags, sources, depth - 1),
        None => Err(
            HarrawError::MissingSource(SourceKind::Plan, parent_path.to_owned(), name.clone()),
        ),
    }
}

/// The steps of the plan file at `parent_path`.
pub fn hrw_expand_plan(
    parent_path: &str,
    accessor: Option<&str>,
    tags: &HarrawTags,
    sources: &Vec<HarrawSource>,
    depth: usize,
) -> (r: Result<Vec<HarrawStep>, HarrawError>)
    ensures
        plan_yields(
            sources.deep_view(),
            parent_path@,
            accessor_view(accessor),
            tags.wanted(),
            tags.excluded(),
            depth as nat,
            steps_result(r),
        ),
    decreases depth, 1nat,
{
    let file = match hrw_plan_at(sources, parent_path) {
        Some(file) => file,
        None => {
            return Err(HarrawError::MissingPlan(parent_path.to_owned()));
        },
    };
    if file.items.len() == 0 {
        return Err(HarrawError::NotASequence);
    }
    let doc = &file.items[0];
    let listed = match accessor {
        Some(a) => match doc.get(a) {
            Some(node) => node.as_vec(),
            None => None,
        },
        None => doc.as_vec(),
    };
    let items = match listed {
        Some(items) => items,
        None => {
            return Err(HarrawError::NotASequence);
        },
    };
    let ghost all = items.deep_view();
    let ghost s = sources.deep_view();
    let ghost p = parent_path@;
    let ghost w = tags.wanted();
    let ghost x = tags.excluded();
    let ghost d = depth as nat;
    assert(plan_items(file@.items[0], accessor_view(accessor)) == Some(all));
    let mut steps: Vec<HarrawStep> = Vec::new();
    let mut i: usize = 0;
    assert(all.take(0) =~= Seq::<NodeView>::empty());
    assert(steps.deep_view() =~= Seq::<HarrawStepView>::empty());
    while i < items.len()
        invariant
            i <= items.len(),
            all == items.deep_view(),
            s == sources.deep_view(),
            p == parent_path@,
            w == tags.wanted(),
            x == tags.excluded(),
            d == depth as nat,
            plan_at(s, p) is Some,
            plan_at(s, p)->0.items.len() > 0,
            plan_items(plan_at(s, p)->0.items[0], accessor_view(accessor)) == Some(all),
            items_yield(
                s,
                p,
                w,
                x,
                d,
                all.take(i as int),
                Ok::<Seq<HarrawStepView>, HarrawErrorView>(steps.deep_view()),
            ),
        decreases items.len() - i,
    {
        let ghost front = steps.deep_view();
        let ghost next = all.take(i as int + 1);
        assert(next.drop_last() =~= all.take(i as int));
        assert(next.last() == items@[i as int]@);
        let made = hrw_expand_item(parent_path, &items[i], tags, sources, depth);
        let ghost last = steps_result(made);
        proof {
            assert(items_yield(
                s,
                p,
                w,
                x,
                d,
                next.drop_last(),
                Ok::<Seq<HarrawStepView>, HarrawErrorView>(front),
            ));
            assert(item_yields(s, p, w, x, d, next.last(), last));
            let before = Ok::<Seq<HarrawStepView>, HarrawErrorView>(front);
            assert(followed_by(before, last) == joined(front, last));
            assert(items_yield(s, p, w, x, d, next, followed_by(before, last)));
        }
        match made {
            Ok(more) => {
                let mut more = more;
                let ghost added = more.deep_view();
                steps.append(&mut more);
                assert(steps.deep_view() =~= front + added);
            },
            Err(e) => {
                proof {
                    lemma_failure_persists(s, p, w, x, d, all, i as int + 1, e@);
                }
                return Err(e);
            },
        }
        i += 1;
    }
    assert(all.take(i as int) =~= all);
    Ok(steps)
}

/// Whether `out` is a possible result of expanding the plan file at `path` with
/// the files `sources`. A chain of files that name one another cannot be longer
/// than the number of files supplied unless it passes through a file twice, so that
/// number bounds the nesting: files that include one another in a circle are
/// refused.
pub open spec fn expansion_yields(
    sources: Seq<HarrawSourceView>,
    path: Seq<char>,
    accessor: Option<Seq<char>>,
    wanted: Option<Set<Seq<char>>>,
    excluded: Option<Set<Seq<char>>>,
    out: Result<Seq<HarrawStepView>, HarrawErrorView>,
) -> bool {
    plan_yields(sources, path, accessor, wanted, excluded, sources.len(), out)
}

/// Whether `out` is a possible result of expanding one item of the plan file at
/// `path` with the files `sources`.
pub open spec fn inclusion_yields(
    sources: Seq<HarrawSourceView>,
    path: Seq<char>,
    wanted: Option<Set<Seq<char>>>,
    excluded: Option<Set<Seq<char>>>,
    item: NodeView,
    out: Result<Seq<HarrawStepView>, HarrawErrorView>,
) -> bool {
    item_yields(sources, path, wanted, excluded, sources.len(), item, out)
}

/// Appends the steps of the file that `item`, which stands in the file at
/// `parent_path`, names.
pub fn hrw_expand(
    parent_path: &str,
    item: &Node,
    benchmark: &mut Vec<HarrawStep>,
    tags: &HarrawTags,
    sources: &Vec<HarrawSource>,
) -> (r: Result<(), HarrawError>)
    ensures
        kept(old(benchmark).deep_view(), final(benchmark).deep_view(), r),
        inclusion_yields(
            sources.deep_view(),
            parent_path@,
            tags.wanted(),
            tags.excluded(),
            item@,
            appended(old(benchmark).deep_view(), final(benchmark).deep_view(), r),
        ),
{
    hrw_splice(benchmark, hrw_expand_item(parent_path, item, tags, sources, sources.len()))
}

/// Appends the steps of the plan file at `parent_path`, whose items stand under
/// `accessor`. The files are taken from `sources`; one that is not there is
/// reported, so that the caller can supply it and ask again.
pub fn hrw_expand_from_filepath(
    parent_path: &str,
    benchmark: &mut Vec<HarrawStep>,
    accessor: Option<&str>,
    tags: &HarrawTags,
    sources: &Vec<HarrawSource>,
) -> (r: Result<(), HarrawError>)
    ensures
        kept(old(benchmark).deep_view(), final(benchmark).deep_view(), r),
        expansion_yields(
            sources.deep_view(),
            parent_path@,
            accessor_view(accessor),
            tags.wanted(),
            tags.excluded(),
            appended(old(benchmark).deep_view(), final(benchmark).deep_view(), r),
        ),
{
    hrw_splice(benchmark, hrw_expand_plan(parent_path, accessor, tags, sources, sources.len()))
}

/// An item that names a file by a text with a token in it fails, whatever files
/// there are: no file is asked for.
pub proof fn law_inclusion_with_token(
    sources: Seq<HarrawSourceView>,
    path: Seq<char>,
    wanted: Option<Set<Seq<char>>>,
    excluded: Option<Set<Seq<char>>>,
    depth: nat,
    item: NodeView,
    out: Result<Seq<HarrawStepView>, HarrawErrorView>,
)
    requires
        is_inclusion(item),
        has_token(item.at("include"@).as_str()->0),
    ensures
        item_yields(sources, path, wanted, excluded, depth, item, out) <==> out == Err::<
            Seq<HarrawStepView>,
            HarrawErrorView,
        >(HarrawErrorView::InterpolationForbidden(Property::Include)),
{
}

/// An item that names a file yields what the file yields, one level deeper.
pub proof fn law_inclusion_yields_the_file(
    sources: Seq<HarrawSourceView>,
    path: Seq<char>,
    wanted: Option<Set<Seq<char>>>,
    excluded: Option<Set<Seq<char>>>,
    depth: nat,
    item: NodeView,
    out: Result<Seq<HarrawStepView>, HarrawErrorView>,
)
    requires
        is_inclusion(item),
        !has_token(item.at("include"@).as_str()->0),
        depth > 0,
        source_beside(sources, SourceKind::Plan, path, item.at("include"@).as_str()->0) is Some,
    ensures
        item_yields(sources, path, wanted, excluded, depth, item, out) <==> plan_yields(
            sources,
            source_beside(
                sources,
                SourceKind::Plan,
                path,
                item.at("include"@).as_str()->0,
            )->0.path,
            None,
            wanted,
            excluded,
            (depth - 1) as nat,
            out,
        ),
{
}

/// The steps of an item stand where the item stands: behind the steps of the
/// items before it.
pub proof fn law_steps_stand_in_place(
    sources: Seq<HarrawSourceView>,
    path: Seq<char>,
    wanted: Option<Set<Seq<char>>>,
    excluded: Option<Set<Seq<char>>>,
    depth: nat,
    front: Seq<NodeView>,
    item: NodeView,
    before: Seq<HarrawStepView>,
    made: Seq<HarrawStepView>,
)
    requires
        items_yield(
            sources,
            path,
            wanted,
            excluded,
            depth,
            front,
            Ok::<Seq<HarrawStepView>, HarrawErrorView>(before),
        ),
        item_yields(
            sources,
            path,
            wanted,
            excluded,
            depth,
            item,
            Ok::<Seq<HarrawStepView>, HarrawErrorView>(made),
        ),
    ensures
        items_yield(
            sources,
            path,
            wanted,
            excluded,
            depth,
            front.push(item),
            Ok::<Seq<HarrawStepView>, HarrawErrorView>(before + made),
        ),
{
    let all = front.push(item);
    let b = Ok::<Seq<HarrawStepView>, HarrawErrorView>(before);
    let l = Ok::<Seq<HarrawStepView>, HarrawErrorView>(made);
    assert(all.drop_last() =~= front);
    assert(all.last() == item);
    assert(followed_by(b, l) == Ok::<Seq<HarrawStepView>, HarrawErrorView>(before + made));
    assert(items_yield(sources, path, wanted, excluded, depth, all.drop_last(), b));
}

/// Whether an item is kept by the filter and describes one step by itself.
pub open spec fn is_single_step(
    wanted: Option<Set<Seq<char>>>,
    excluded: Option<Set<Seq<char>>>,
    item: NodeView,
) -> bool {
    &&& !is_inclusion(item)
    &&& skip_decision(wanted, excluded, item) == Ok::<bool, HarrawErrorView>(false)
    &&& !is_list_generator(item)
    &&& !is_range_generator(item)
    &&& !is_csv_generator(item)
    &&& !is_file_generator(item)
    &&& simple_step(item) is Ok
}

/// A file of `n` items, each of which is kept and describes one step by itself,
/// yields exactly `n` steps: the step of each item at the item's position.
pub proof fn law_single_steps(
    sources: Seq<HarrawSourceView>,
    path: Seq<char>,
    wanted: Option<Set<Seq<char>>>,
    excluded: Option<Set<Seq<char>>>,
    depth: nat,
    items: Seq<NodeView>,
    out: Result<Seq<HarrawStepView>, HarrawErrorView>,
)
    requires
        forall|i: int| 0 <= i < items.len() ==> is_single_step(wanted, excluded, #[trigger] items[i]),
        items_yield(sources, path, wanted, excluded, depth, items, out),
    ensures
        out is Ok,
        out->Ok_0.len() == items.len(),
        forall|i: int|
            0 <= i < items.len() ==> simple_step(items[i]) == Ok::<
                HarrawStepView,
                HarrawErrorView,
            >(#[trigger] out->Ok_0[i]),
    decreases items.len(),
{
    if items.len() > 0 {
        let (before, last) = choose|
            before: Result<Seq<HarrawStepView>, HarrawErrorView>,
            last: Result<Seq<HarrawStepView>, HarrawErrorView>,
        |
            #![trigger followed_by(before, last)]
            items_yield(sources, path, wanted, excluded, depth, items.drop_last(), before) && (
            before is Ok ==> item_yields(
                sources,
                path,
                wanted,
                excluded,
                depth,
                items.last(),
                last,
            )) && out == followed_by(before, last);
        assert forall|i: int| 0 <= i < items.drop_last().len() implies is_single_step(
            wanted,
            excluded,
            #[trigger] items.drop_last()[i],
        ) by {
            assert(items.drop_last()[i] == items[i]);
        }
        law_single_steps(sources, path, wanted, excluded, depth, items.drop_last(), before);
        assert(is_single_step(wanted, excluded, items[items.len() - 1]));
        let front = before->Ok_0;
        let step = simple_step(items.last())->Ok_0;
        assert(last == Ok::<Seq<HarrawStepView>, HarrawErrorView>(seq![step]));
        assert(out->Ok_0 =~= front.push(step));
        assert forall|i: int| 0 <= i < items.len() implies simple_step(items[i]) == Ok::<
            HarrawStepView,
            HarrawErrorView,
        >(#[trigger] out->Ok_0[i]) by {
            if i < items.len() - 1 {
                assert(items.drop_last()[i] == items[i]);
                assert(out->Ok_0[i] == front[i]);
            }
        }
    }
}

proof fn lemma_nothing_yields_nothing(
    sources: Seq<HarrawSourceView>,
    path: Seq<char>,
    wanted: Option<Set<Seq<char>>>,
    excluded: Option<Set<Seq<char>>>,
    depth: nat,
    out: Result<Seq<HarrawStepView>, HarrawErrorView>,
)
    requires
        items_yield(sources, path, wanted, excluded, depth, Seq::empty(), out),
    ensures
        out == Ok::<Seq<HarrawStepView>, HarrawErrorView>(Seq::empty()),
{
}

/// The steps of an item stand between the steps of the items before it and the
/// steps of the items behind it, wherever in its file the item stands.
pub proof fn law_splice(
    sources: Seq<HarrawSourceView>,
    path: Seq<char>,
    wanted: Option<Set<Seq<char>>>,
    excluded: Option<Set<Seq<char>>>,
    depth: nat,
    front: Seq<NodeView>,
    item: NodeView,
    back: Seq<NodeView>,
    before: Seq<HarrawStepView>,
    made: Seq<HarrawStepView>,
    after: Seq<HarrawStepView>,
)
    requires
        items_yield(
            sources,
            path,
            wanted,
            excluded,
            depth,
            front,
            Ok::<Seq<HarrawStepView>, HarrawErrorView>(before),
        ),
        item_yields(
            sources,
            path,
            wanted,
            excluded,
            depth,
            item,
            Ok::<Seq<HarrawStepView>, HarrawErrorView>(made),
        ),
        items_yield(
            sources,
            path,
            wanted,
            excluded,
            depth,
            back,
            Ok::<Seq<HarrawStepView>, HarrawErrorView>(after),
        ),
    ensures
        items_yield(
            sources,
            path,
            wanted,
            excluded,
            depth,
            front.push(item) + back,
            Ok::<Seq<HarrawStepView>, HarrawErrorView>(before + made + after),
        ),
    decreases back.len(),
{
    let all = front.push(item) + back;
    if back.len() == 0 {
        assert(back =~= Seq::<NodeView>::empty());
        lemma_nothing_yields_nothing(
            sources,
            path,
            wanted,
            excluded,
            depth,
            Ok::<Seq<HarrawStepView>, HarrawErrorView>(after),
        );
        assert(all =~= front.push(item));
        assert(before + made + after =~= before + made);
        law_steps_stand_in_place(sources, path, wanted, excluded, depth, front, item, before, made);
    } else {
        let (earlier, last) = choose|
            earlier: Result<Seq<HarrawStepView>, HarrawErrorView>,
            last: Result<Seq<HarrawStepView>, HarrawErrorView>,
        |
            #![trigger followed_by(earlier, last)]
            items_yield(sources, path, wanted, excluded, depth, back.drop_last(), earlier) && (
            earlier is Ok ==> item_yields(
                sources,
                path,
                wanted,
                excluded,
                depth,
                back.last(),
                last,
            )) && Ok::<Seq<HarrawStepView>, HarrawErrorView>(after) == followed_by(earlier, last);
        let first = earlier->Ok_0;
        let more = last->Ok_0;
        assert(after == first + more);
        law_splice(
            sources,
            path,
            wanted,
            excluded,
            depth,
            front,
            item,
            back.drop_last(),
            before,
            made,
            first,
        );
        let so_far = Ok::<Seq<HarrawStepView>, HarrawErrorView>(before + made + first);
        assert(all.drop_last() =~= front.push(item) + back.drop_last());
        assert(all.last() == back.last());
        assert(before + made + first + more =~= before + made + after);
        assert(followed_by(so_far, last) == Ok::<Seq<HarrawStepView>, HarrawErrorView>(
            before + made + after,
        ));
        assert(items_yield(sources, path, wanted, excluded, depth, all.drop_last(), so_far));
    }
}

proof fn lemma_found_among_some(
    sources: Seq<HarrawSourceView>,
    kind: SourceKind,
    parent: Seq<char>,
    name: Seq<char>,
)
    requires
        source_beside(sources, kind, parent, name) is Some,
    ensures
        sources.len() > 0,
{
}

/// A plan file names another file between its other items: the steps of the
/// named file stand exactly where the directive stands, behind the steps of the
/// items before it and before the steps of the items behind it.
pub proof fn law_included_steps_stand_in_place(
    sources: Seq<HarrawSourceView>,
    path: Seq<char>,
    accessor: Option<Seq<char>>,
    wanted: Option<Set<Seq<char>>>,
    excluded: Option<Set<Seq<char>>>,
    front: Seq<NodeView>,
    item: NodeView,
    back: Seq<NodeView>,
    before: Seq<HarrawStepView>,
    made: Seq<HarrawStepView>,
    after: Seq<HarrawStepView>,
)
    requires
        plan_at(sources, path) is Some,
        plan_at(sources, path)->0.items.len() > 0,
        plan_items(plan_at(sources, path)->0.items[0], accessor) == Some(front.push(item) + back),
        is_inclusion(item),
        !has_token(item.at("include"@).as_str()->0),
        source_beside(sources, SourceKind::Plan, path, item.at("include"@).as_str()->0) is Some,
        items_yield(
            sources,
            path,
            wanted,
            excluded,
            sources.len(),
            front,
            Ok::<Seq<HarrawStepView>, HarrawErrorView>(before),
        ),
        plan_yields(
            sources,
            source_beside(
                sources,
                SourceKind::Plan,
                path,
                item.at("include"@).as_str()->0,
            )->0.path,
            None,
            wanted,
            excluded,
            (sources.len() - 1) as nat,
            Ok::<Seq<HarrawStepView>, HarrawErrorView>(made),
        ),
        items_yield(
            sources,
            path,
            wanted,
            excluded,
            sources.len(),
            back,
            Ok::<Seq<HarrawStepView>, HarrawErrorView>(after),
        ),
    ensures
        expansion_yields(
            sources,
            path,
            accessor,
            wanted,
            excluded,
            Ok::<Seq<HarrawStepView>, HarrawErrorView>(before + made + after),
        ),
{
    lemma_found_among_some(sources, SourceKind::Plan, path, item.at("include"@).as_str()->0);
    law_inclusion_yields_the_file(
        sources,
        path,
        wanted,
        excluded,
        sources.len(),
        item,
        Ok::<Seq<HarrawStepView>, HarrawErrorView>(made),
    );
    law_splice(
        sources,
        path,
        wanted,
        excluded,
        sources.len(),
        front,
        item,
        back,
        before,
        made,
        after,
    );
}

} // verus!
