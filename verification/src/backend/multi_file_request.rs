//! The generator over the items of a sequence file.

use crate::backend::{appended, kept, picked_requests, steps_result};
use crate::backend::{hrw_arrange, hrw_emit, hrw_pick, hrw_splice, hrw_wants_shuffle};
use crate::backend::{hrw_source_beside, source_beside, HarrawSource, HarrawSourceView};
use crate::backend::{is_order_of, wants_shuffle};
use crate::error::{HarrawError, HarrawErrorView, Property, SourceKind};
use crate::interpolator::{has_token, hrw_has_interpolation};
use crate::node::{Node, NodeView};
use crate::service::{hrw_has_table, HarrawStep, HarrawStepView};
use vstd::prelude::*;

verus! {

/// Whether an item is a request with a `with_items_from_file` string or table.
pub open spec fn is_file_generator(item: NodeView) -> bool {
    item.at("request"@).is_hash() && (item.at("with_items_from_file"@) is Text || item.at(
        "with_items_from_file"@,
    ) is Hash)
}

/// The file of a file generator: its source must be a string, the file's name.
pub open spec fn file_target(item: NodeView) -> Result<Seq<char>, HarrawErrorView> {
    match item.at("with_items_from_file"@) {
        NodeView::Text(path) => Ok(path),
        _ => Err(HarrawErrorView::UnsupportedSource),
    }
}

/// Whether `out` is a possible result of expanding `item`, which stands in the
/// file at `parent`. A token in the file's name is refused before any file is
/// asked for. A file that is not among `sources` is reported as missing.
/// Otherwise `out` holds the requests for the items that the item picks from some
/// order of the file's items, which is their own order unless the item asks for a
/// shuffle.
pub open spec fn file_yields(
    sources: Seq<HarrawSourceView>,
    parent: Seq<char>,
    item: NodeView,
    out: Result<Seq<HarrawStepView>, HarrawErrorView>,
) -> bool {
    if file_target(item) is Err {
        out == Err::<Seq<HarrawStepView>, HarrawErrorView>(file_target(item)->Err_0)
    } else {
        let path = file_target(item)->Ok_0;
        let found = source_beside(sources, SourceKind::Items, parent, path);
        if has_token(path) {
            out == Err::<Seq<HarrawStepView>, HarrawErrorView>(
                HarrawErrorView::InterpolationForbidden(Property::ItemsFile),
            )
        } else if found is None {
            out == Err::<Seq<HarrawStepView>, HarrawErrorView>(
                HarrawErrorView::MissingSource(SourceKind::Items, parent, path),
            )
        } else {
            exists|order: Seq<NodeView>|
                #[trigger] is_order_of(order, found->0.items, wants_shuffle(item)) && out
                    == picked_requests(item, order)
        }
    }
}

/// Whether `item` is for this generator.
pub fn hrw_is_that_you(item: &Node) -> (r: bool)
    ensures
        r == is_file_generator(item@),
{
    hrw_has_table(item, "request") && match item.get("with_items_from_file") {
        Some(Node::Text(_)) => true,
        Some(Node::Hash(_)) => true,
        _ => false,
    }
}

/// The steps that the generator makes of the items in `order`.
pub fn hrw_expand_ordered(item: &Node, order: &Vec<Node>) -> (r: Result<
    Vec<HarrawStep>,
    HarrawError,
>)
    ensures
        steps_result(r) == picked_requests(item@, order.deep_view()),
{
    let pick = hrw_pick(item, order)?;
    Ok(hrw_emit(item, order, pick))
}

/// The steps that `item`, which stands in the file at `parent_path`, expands to.
pub fn hrw_generate(parent_path: &str, item: &Node, sources: &Vec<HarrawSource>) -> (r: Result<
    Vec<HarrawStep>,
    HarrawError,
>)
    ensures
        file_yields(sources.deep_view(), parent_path@, item@, steps_result(r)),
{
    let path = match item.get("with_items_from_file") {
        Some(Node::Text(path)) => path,
        _ => {
            return Err(HarrawError::UnsupportedSource);
        },
    };
    if hrw_has_interpolation(path.as_str()) {
        return Err(HarrawError::InterpolationForbidden(Property::ItemsFile));
    }
    let found = match hrw_source_beside(sources, SourceKind::Items, parent_path, path.as_str()) {
        Some(found) => found,
        None => {
            return Err(
                HarrawError::MissingSource(
                    SourceKind::Items,
                    parent_path.to_owned(),
                    path.clone(),
                ),
            );
        },
    };
    let order = hrw_arrange(&found.items, hrw_wants_shuffle(item));
    let r = hrw_expand_ordered(item, &order);
    proof {
        let out = steps_result(r);
        let seen = source_beside(sources.deep_view(), SourceKind::Items, parent_path@, path@);
        assert(file_target(item@)->Ok_0 == path@);
        assert(seen->0.items == found.items.deep_view());
        assert(is_order_of(order.deep_view(), seen->0.items, wants_shuffle(item@)));
        assert(out == picked_requests(item@, order.deep_view()));
    }
    r
}

/// Appends the steps that `item`, which stands in the file at `parent_path`,
/// expands to.
pub fn hrw_expand(
    parent_path: &str,
    item: &Node,
    benchmark: &mut Vec<HarrawStep>,
    sources: &Vec<HarrawSource>,
) -> (r: Result<(), HarrawError>)
    ensures
        kept(old(benchmark).deep_view(), final(benchmark).deep_view(), r),
        file_yields(
            sources.deep_view(),
            parent_path@,
            item@,
            appended(old(benchmark).deep_view(), final(benchmark).deep_view(), r),
        ),
{
    hrw_splice(benchmark, hrw_generate(parent_path, item, sources))
}

} // verus!
