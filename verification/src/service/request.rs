//! The step that sends an HTTP request, as far as a plan's expansion knows it.

use crate::benchmark::Context;
use crate::config::HarrawConfig;
use crate::error::{HarrawError, HarrawErrorView};
use crate::node::{Node, NodeView};
use crate::service::hrw_has_table;
use crate::service::{HarrawAction, HarrawActionView, HarrawRunnable};
use crate::value::ValueView;
use vstd::prelude::*;

verus! {

/// A request step: the item that defines it, and the generated value and position
/// that it was made for, if a generator made it.
#[derive(Debug, PartialEq)]
pub struct HarrawRequest {
    pub definition: Node,
    pub with_item: Option<Node>,
    pub index: Option<u32>,
}

/// The mathematical content of a `HarrawRequest`.
pub struct HarrawRequestView {
    pub definition: NodeView,
    pub with_item: Option<NodeView>,
    pub index: Option<u32>,
}

impl View for HarrawRequest {
    type V = HarrawRequestView;

    open spec fn view(&self) -> HarrawRequestView {
        HarrawRequestView {
            definition: self.definition@,
            with_item: self.with_item.deep_view(),
            index: self.index,
        }
    }
}

impl HarrawRequest {
    /// Whether `item` describes a request.
    pub fn hrw_is_that_you(item: &Node) -> (r: bool)
        ensures
            r == item@.at("request"@).is_hash(),
    {
        hrw_has_table(item, "request")
    }

    /// The request that `item` defines, for the generated value `with_item` at
    /// position `index`.
    pub fn new(item: &Node, with_item: Option<Node>, index: Option<u32>) -> (r: HarrawRequest)
        ensures
            r@ == (HarrawRequestView {
                definition: item@,
                with_item: with_item.deep_view(),
                index,
            }),
    {
        HarrawRequest { definition: item.duplicate(), with_item, index }
    }
}

impl HarrawRunnable for HarrawRequest {
    open spec fn outcome(
        &self,
        context: Map<Seq<char>, ValueView>,
        env: Seq<(Seq<char>, Seq<char>)>,
        strict: bool,
    ) -> Result<(Map<Seq<char>, ValueView>, HarrawActionView), HarrawErrorView> {
        Ok((context, HarrawActionView::Send))
    }

    /// Asks the driver to send the request; the context stays as it is.
    fn hrw_execute(
        &self,
        context: &mut Context,
        environment: &Vec<(String, String)>,
        config: &HarrawConfig,
    ) -> (r: Result<HarrawAction, HarrawError>) {
        Ok(HarrawAction::Send)
    }
}

} // verus!
