//! The generator over a range of whole numbers.

use crate::backend::{appended, kept, steps_result};
use crate::backend::{holds_token, hrw_holds_token, hrw_splice};
use crate::backend::{hrw_arrange, hrw_emit, hrw_pick, hrw_wants_shuffle};
use crate::backend::{is_order_of, picked_requests, wants_shuffle};
use crate::backend::{lemma_order_length, pick_count};
use crate::error::{HarrawError, HarrawErrorView, Property};
use crate::node::{Node, NodeView};
use crate::service::{hrw_has_table, HarrawStep, HarrawStepView};
use vstd::arithmetic::div_mod::lemma_fundamental_div_mod_converse;
use vstd::prelude::*;

verus! {

/// Whether an item is a request with a `with_items_range` table.
pub open spec fn is_range_generator(item: NodeView) -> bool {
    item.at("request"@).is_hash() && item.at("with_items_range"@).is_hash()
}

/// The `step` of a range, or 1 where it has none.
pub open spec fn step_node(range: NodeView) -> NodeView {
    match range.get("step"@) {
        Some(step) => step,
        None => NodeView::Integer(1),
    }
}

/// The bounds `start`, `step` and `stop` of the range of an item. `start` and
/// `stop` are required; none of the three may be a string with a token in it, and
/// each is a whole number.
pub open spec fn range_bounds(item: NodeView) -> Result<(i64, i64, i64), HarrawErrorView> {
    let range = item.at("with_items_range"@);
    if range.get("start"@) is None {
        Err(HarrawErrorView::MissingStart)
    } else if range.get("stop"@) is None {
        Err(HarrawErrorView::MissingStop)
    } else {
        let start = range.get("start"@)->0;
        let step = step_node(range);
        let stop = range.get("stop"@)->0;
        if holds_token(start) {
            Err(HarrawErrorView::InterpolationForbidden(Property::Start))
        } else if holds_token(step) {
            Err(HarrawErrorView::InterpolationForbidden(Property::Step))
        } else if holds_token(stop) {
            Err(HarrawErrorView::InterpolationForbidden(Property::Stop))
        } else if start.as_i64() is None {
            Err(HarrawErrorView::StartNotNumber)
        } else if step.as_i64() is None {
            Err(HarrawErrorView::StepNotNumber)
        } else if stop.as_i64() is None {
            Err(HarrawErrorView::StopNotNumber)
        } else {
            Ok((start.as_i64()->0, step.as_i64()->0, stop.as_i64()->0))
        }
    }
}

/// Whether a range has values at all: it starts above zero and does not stop
/// before it starts.
pub open spec fn range_proceeds(start: i64, stop: i64) -> bool {
    stop >= start && start > 0
}

/// The number of values of a range that proceeds. A negative step reaches no
/// second value.
pub open spec fn range_count(start: i64, step: i64, stop: i64) -> nat {
    if step > 0 {
        ((stop - start) / (step as int) + 1) as nat
    } else {
        1
    }
}

/// The values of a range that proceeds: `start`, `start + step`, and so on, up to
/// and including `stop`.
pub open spec fn range_values(start: i64, step: i64, stop: i64) -> Seq<NodeView> {
    Seq::new(range_count(start, step, stop), |k: int| NodeView::Integer((start + k * step) as i64))
}

/// What the generator makes of its values taken in the order `order`: one request
/// for each of the values that the item picks. A `pick` that is negative or beyond
/// the number of values is refused.
pub open spec fn range_outcome(item: NodeView, order: Seq<NodeView>) -> Result<
    Seq<HarrawStepView>,
    HarrawErrorView,
> {
    picked_requests(item, order)
}

/// Whether `out` is a possible result of expanding `item`. An item without a
/// range table, or with a range that has no values, yields nothing. A step of
/// zero is refused. Otherwise `out` is the outcome of some order of the values,
/// which is their own order unless the item asks for a shuffle.
pub open spec fn range_yields(item: NodeView, out: Result<Seq<HarrawStepView>, HarrawErrorView>) -> bool {
    if !item.at("with_items_range"@).is_hash() {
        out == Ok::<Seq<HarrawStepView>, HarrawErrorView>(Seq::empty())
    } else if range_bounds(item) is Err {
        out == Err::<Seq<HarrawStepView>, HarrawErrorView>(range_bounds(item)->Err_0)
    } else {
        let (start, step, stop) = range_bounds(item)->Ok_0;
        if !range_proceeds(start, stop) {
            out == Ok::<Seq<HarrawStepView>, HarrawErrorView>(Seq::empty())
        } else if step == 0 {
            out == Err::<Seq<HarrawStepView>, HarrawErrorView>(HarrawErrorView::ZeroStep)
        } else {
            exists|order: Seq<NodeView>|
                #[trigger] is_order_of(order, range_values(start, step, stop), wants_shuffle(item))
                    && out == range_outcome(item, order)
        }
    }
}

/// Whether `item` is for this generator.
pub fn hrw_is_that_you(item: &Node) -> (r: bool)
    ensures
        r == is_range_generator(item@),
{
    hrw_has_table(item, "request") && hrw_has_table(item, "with_items_range")
}

/// Reads the bounds of the range of `item`.
pub fn hrw_range_bounds(item: &Node) -> (r: Result<(i64, i64, i64), HarrawError>)
    ensures
        match r {
            Ok(bounds) => range_bounds(item@) == Ok::<(i64, i64, i64), HarrawErrorView>(bounds),
            Err(e) => range_bounds(item@) == Err::<(i64, i64, i64), HarrawErrorView>(e@),
        },
{
    let null = Node::Null;
    let one = Node::Integer(1);
    let range = match item.get("with_items_range") {
        Some(range) => range,
        None => &null,
    };
    let vstart = match range.get("start") {
        Some(v) => v,
        None => {
            return Err(HarrawError::MissingStart);
        },
    };
    let vstep = match range.get("step") {
        Some(v) => v,
        None => &one,
    };
    let vstop = match range.get("stop") {
        Some(v) => v,
        None => {
            return Err(HarrawError::MissingStop);
        },
    };
    if hrw_holds_token(vstart) {
        return Err(HarrawError::InterpolationForbidden(Property::Start));
    }
    if hrw_holds_token(vstep) {
        return Err(HarrawError::InterpolationForbidden(Property::Step));
    }
    if hrw_holds_token(vstop) {
        return Err(HarrawError::InterpolationForbidden(Property::Stop));
    }
    let start = match vstart.as_i64() {
        Some(v) => v,
        None => {
            return Err(HarrawError::StartNotNumber);
        },
    };
    let step = match vstep.as_i64() {
        Some(v) => v,
        None => {
            return Err(HarrawError::StepNotNumber);
        },
    };
    let stop = match vstop.as_i64() {
        Some(v) => v,
        None => {
            return Err(HarrawError::StopNotNumber);
        },
    };
    Ok((start, step, stop))
}

/// The values of a range that proceeds.
pub fn hrw_range_values(start: i64, step: i64, stop: i64) -> (values: Vec<Node>)
    requires
        range_proceeds(start, stop),
        step != 0,
    ensures
        values.deep_view() == range_values(start, step, stop),
{
    let mut values: Vec<Node> = Vec::new();
    values.push(Node::Integer(start));
    let mut last: i64 = start;
    assert(values.deep_view() =~= Seq::new(1, |k: int| NodeView::Integer((start + k * step) as i64)))
        by {
        assert(start + 0 * step == start) by (nonlinear_arith);
    }
    while step > 0 && stop - last >= step
        invariant
            0 < start <= last <= stop,
            values.len() >= 1,
            step <= 0 ==> values.len() == 1,
            last == start + (values.len() - 1) * step,
            values.deep_view() == Seq::new(
                values.len() as nat,
                |k: int| NodeView::Integer((start + k * step) as i64),
            ),
        decreases stop - last,
    {
        let ghost before = values.deep_view();
        let ghost n = values.len() as int;
        last = last + step;
        values.push(Node::Integer(last));
        assert(last == start + n * step) by (nonlinear_arith)
            requires
                last == start + (n - 1) * step + step,
        ;
        assert(values.deep_view() =~= before.push(NodeView::Integer(last)));
        assert(values.deep_view() =~= Seq::new(
            (n + 1) as nat,
            |k: int| NodeView::Integer((start + k * step) as i64),
        ));
    }
    proof {
        let n = values.len() as int;
        if step > 0 {
            let r = stop - last;
            assert(stop - start == (n - 1) * step + r);
            lemma_fundamental_div_mod_converse(stop - start, step as int, n - 1, r);
            assert(range_count(start, step, stop) == n);
        } else {
            assert(n == 1);
        }
    }
    values
}

/// The steps that the generator makes of the values in `order`.
pub fn hrw_expand_ordered(item: &Node, order: &Vec<Node>) -> (r: Result<
    Vec<HarrawStep>,
    HarrawError,
>)
    ensures
        steps_result(r) == range_outcome(item@, order.deep_view()),
{
    let pick = hrw_pick(item, order)?;
    Ok(hrw_emit(item, order, pick))
}

/// The steps that `item` expands to.
pub fn hrw_generate(item: &Node) -> (r: Result<Vec<HarrawStep>, HarrawError>)
    ensures
        range_yields(item@, steps_result(r)),
{
    if !hrw_has_table(item, "with_items_range") {
        let none: Vec<HarrawStep> = Vec::new();
        assert(none.deep_view() =~= Seq::empty());
        return Ok(none);
    }
    let (start, step, stop) = hrw_range_bounds(item)?;
    if !(stop >= start && start > 0) {
        let none: Vec<HarrawStep> = Vec::new();
        assert(none.deep_view() =~= Seq::empty());
        return Ok(none);
    }
    if step == 0 {
        return Err(HarrawError::ZeroStep);
    }
    let values = hrw_range_values(start, step, stop);
    let order = hrw_arrange(&values, hrw_wants_shuffle(item));
    let r = hrw_expand_ordered(item, &order);
    proof {
        let out = steps_result(r);
        assert(range_bounds(item@)->Ok_0 == (start, step, stop));
        assert(is_order_of(
            order.deep_view(),
            range_values(start, step, stop),
            wants_shuffle(item@),
        ));
        assert(out == range_outcome(item@, order.deep_view()));
    }
    r
}

/// Appends the steps that `item` expands to.
pub fn hrw_expand(item: &Node, benchmark: &mut Vec<HarrawStep>) -> (r: Result<(), HarrawError>)
    ensures
        kept(old(benchmark).deep_view(), final(benchmark).deep_view(), r),
        range_yields(
            item@,
            appended(old(benchmark).deep_view(), final(benchmark).deep_view(), r),
        ),
{
    hrw_splice(benchmark, hrw_generate(item))
}

/// A range generator that succeeds makes as many steps as the item picks of the
/// values of the range: `pick` of them, or all where the item has no `pick`.
pub proof fn law_range_count(
    item: NodeView,
    source: Seq<NodeView>,
    order: Seq<NodeView>,
    shuffled: bool,
)
    requires
        is_order_of(order, source, shuffled),
        range_outcome(item, order) is Ok,
    ensures
        range_outcome(item, order)->Ok_0.len() == pick_count(item, source.len()),
{
    lemma_order_length(order, source, shuffled);
}

/// The last value of a range with a positive step is the greatest of `start`,
/// `start + step`, ... that does not exceed `stop`: the range includes `stop`
/// where the steps reach it.
pub proof fn law_range_is_inclusive(start: i64, step: i64, stop: i64)
    requires
        range_proceeds(start, stop),
        step > 0,
    ensures
        range_values(start, step, stop).len() >= 1,
        range_values(start, step, stop)[0] == NodeView::Integer(start),
        start + (range_count(start, step, stop) - 1) * step <= stop,
        stop < start + range_count(start, step, stop) * step,
{
    let n = (stop - start) / (step as int);
    vstd::arithmetic::div_mod::lemma_fundamental_div_mod(stop - start, step as int);
    vstd::arithmetic::div_mod::lemma_mod_bound(stop - start, step as int);
    vstd::arithmetic::div_mod::lemma_div_pos_is_pos(stop - start, step as int);
    assert(stop - start == step * n + (stop - start) % (step as int));
    assert(step * n == n * step) by (nonlinear_arith);
    assert((n + 1) * step == n * step + step) by (nonlinear_arith);
    assert(start + 0 * step == start) by (nonlinear_arith);
}

/// A range whose item picks more values than the range has is refused, whatever
/// the order of the values, and the failure gives the value of `pick`.
pub proof fn law_range_pick_too_large(
    item: NodeView,
    out: Result<Seq<HarrawStepView>, HarrawErrorView>,
)
    requires
        item.at("with_items_range"@).is_hash(),
        range_bounds(item) is Ok,
        range_proceeds(range_bounds(item)->Ok_0.0, range_bounds(item)->Ok_0.2),
        range_bounds(item)->Ok_0.1 != 0,
        item.at("pick"@).as_i64() is Some,
        item.at("pick"@).as_i64()->0 > range_count(
            range_bounds(item)->Ok_0.0,
            range_bounds(item)->Ok_0.1,
            range_bounds(item)->Ok_0.2,
        ),
        range_yields(item, out),
    ensures
        out == Err::<Seq<HarrawStepView>, HarrawErrorView>(
            HarrawErrorView::PickTooLarge(item.at("pick"@).as_i64()->0),
        ),
{
    let (start, step, stop) = range_bounds(item)->Ok_0;
    let order = choose|order: Seq<NodeView>|
        #[trigger] is_order_of(order, range_values(start, step, stop), wants_shuffle(item))
            && out == range_outcome(item, order);
    lemma_order_length(order, range_values(start, step, stop), wants_shuffle(item));
}

} // verus!
