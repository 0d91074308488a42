//! The generator over a list written in the plan itself.

use crate::backend::{appended, kept, steps_result};
use crate::backend::{holds_token, hrw_holds_token, hrw_splice};
use crate::backend::{hrw_arrange, hrw_emit, hrw_pick, hrw_wants_shuffle};
use crate::backend::{is_order_of, picked, requests, wants_shuffle};
use crate::backend::{lemma_order_length, pick_count};
use crate::error::{HarrawError, HarrawErrorView, Property};
use crate::node::{Node, NodeView};
use crate::service::{hrw_has_table, HarrawStep, HarrawStepView};
use vstd::prelude::*;

verus! {

/// Whether an item is a request with a `with_items` sequence.
pub open spec fn is_list_generator(item: NodeView) -> bool {
    item.at("request"@).is_hash() && item.at("with_items"@).as_vec() is Some
}

/// What the generator makes of its values taken in the order `order`: one request
/// for each of the values that the item picks. A picked value that is a string
/// with a token in it is refused.
pub open spec fn list_outcome(item: NodeView, order: Seq<NodeView>) -> Result<
    Seq<HarrawStepView>,
    HarrawErrorView,
> {
    match picked(item, order.len()) {
        Err(e) => Err(e),
        Ok(n) => if exists|j: int| 0 <= j < n && holds_token(#[trigger] order[j]) {
            Err(HarrawErrorView::InterpolationForbidden(Property::WithItems))
        } else {
            Ok(requests(item, order.take(n as int)))
        },
    }
}

/// Whether `out` is a possible result of expanding `item`: that of some order of
/// its `with_items`, which is their own order unless the item asks for a shuffle.
/// An item without a `with_items` sequence yields nothing.
pub open spec fn list_yields(item: NodeView, out: Result<Seq<HarrawStepView>, HarrawErrorView>) -> bool {
    let source = item.at("with_items"@).as_vec();
    if source is None {
        out == Ok::<Seq<HarrawStepView>, HarrawErrorView>(Seq::empty())
    } else {
        exists|order: Seq<NodeView>|
            #[trigger] is_order_of(order, source->0, wants_shuffle(item)) && out == list_outcome(
                item,
                order,
            )
    }
}

/// Whether `item` is for this generator.
pub fn hrw_is_that_you(item: &Node) -> (r: bool)
    ensures
        r == is_list_generator(item@),
{
    hrw_has_table(item, "request") && match item.get("with_items") {
        Some(node) => node.as_vec().is_some(),
        None => false,
    }
}

/// The steps that the generator makes of the values in `order`.
pub fn hrw_expand_ordered(item: &Node, order: &Vec<Node>) -> (r: Result<
    Vec<HarrawStep>,
    HarrawError,
>)
    ensures
        steps_result(r) == list_outcome(item@, order.deep_view()),
{
    let pick = hrw_pick(item, order)?;
    let mut j: usize = 0;
    while j < pick
        invariant
            j <= pick <= order.len(),
            picked(item@, order.deep_view().len()) == Ok::<nat, HarrawErrorView>(pick as nat),
            forall|i: int| 0 <= i < j ==> !holds_token(#[trigger] order.deep_view()[i]),
        decreases pick - j,
    {
        if hrw_holds_token(&order[j]) {
            assert(holds_token(order.deep_view()[j as int]));
            return Err(HarrawError::InterpolationForbidden(Property::WithItems));
        }
        j += 1;
    }
    Ok(hrw_emit(item, order, pick))
}

/// The steps that `item` expands to.
pub fn hrw_generate(item: &Node) -> (r: Result<Vec<HarrawStep>, HarrawError>)
    ensures
        list_yields(item@, steps_result(r)),
{
    let source = match item.get("with_items") {
        Some(node) => match node.as_vec() {
            Some(source) => source,
            None => {
                let none: Vec<HarrawStep> = Vec::new();
                assert(none.deep_view() =~= Seq::empty());
                return Ok(none);
            },
        },
        None => {
            let none: Vec<HarrawStep> = Vec::new();
            assert(none.deep_view() =~= Seq::empty());
            return Ok(none);
        },
    };
    assert(item@.at("with_items"@).as_vec() == Some(source.deep_view()));
    let order = hrw_arrange(source, hrw_wants_shuffle(item));
    let r = hrw_expand_ordered(item, &order);
    proof {
        let listed = item@.at("with_items"@).as_vec();
        assert(listed->0 == source.deep_view());
        assert(is_order_of(order.deep_view(), listed->0, wants_shuffle(item@)));
    }
    r
}

/// Appends the steps that `item` expands to.
pub fn hrw_expand(item: &Node, benchmark: &mut Vec<HarrawStep>) -> (r: Result<(), HarrawError>)
    ensures
        kept(old(benchmark).deep_view(), final(benchmark).deep_view(), r),
        list_yields(item@, appended(old(benchmark).deep_view(), final(benchmark).deep_view(), r)),
{
    hrw_splice(benchmark, hrw_generate(item))
}

/// A list generator that succeeds makes as many steps as the item picks of its
/// values: `pick` of them, or all where the item has no `pick`.
pub proof fn law_list_count(
    item: NodeView,
    source: Seq<NodeView>,
    order: Seq<NodeView>,
    shuffled: bool,
)
    requires
        is_order_of(order, source, shuffled),
        list_outcome(item, order) is Ok,
    ensures
        list_outcome(item, order)->Ok_0.len() == pick_count(item, source.len()),
{
    lemma_order_length(order, source, shuffled);
}

/// A `pick` beyond the number of values is refused, and the failure gives the
/// value of `pick`.
pub proof fn law_list_pick_too_large(item: NodeView, order: Seq<NodeView>)
    requires
        item.at("pick"@).as_i64() is Some,
        item.at("pick"@).as_i64()->0 > order.len(),
    ensures
        list_outcome(item, order) == Err::<Seq<HarrawStepView>, HarrawErrorView>(
            HarrawErrorView::PickTooLarge(item.at("pick"@).as_i64()->0),
        ),
{
}

} // verus!
