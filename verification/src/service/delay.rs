//! The step that waits.

use crate::benchmark::Context;
use crate::config::HarrawConfig;
use crate::error::{HarrawError, HarrawErrorView};
use crate::node::{Node, NodeView};
use crate::service::{extracted, hrw_extract, hrw_has_table};
use crate::service::{HarrawAction, HarrawActionView, HarrawRunnable};
use crate::value::ValueView;
use vstd::prelude::*;

verus! {

/// A pause of a whole number of seconds.
#[derive(Debug, PartialEq)]
pub struct HarrawDelay {
    pub name: String,
    pub seconds: u64,
}

/// The mathematical content of a `HarrawDelay`.
pub struct HarrawDelayView {
    pub name: Seq<char>,
    pub seconds: u64,
}

impl View for HarrawDelay {
    type V = HarrawDelayView;

    open spec fn view(&self) -> HarrawDelayView {
        HarrawDelayView { name: self.name@, seconds: self.seconds }
    }
}

/// The pause that `item` describes: its name, and the non-negative whole number
/// under `delay.seconds`.
pub open spec fn delay_of(item: NodeView) -> Result<HarrawDelayView, HarrawErrorView> {
    match extracted(item, "name"@) {
        Err(e) => Err(e),
        Ok(name) => match item.at("delay"@).at("seconds"@) {
            NodeView::Integer(v) => if v >= 0 {
                Ok(HarrawDelayView { name, seconds: v as u64 })
            } else {
                Err(HarrawErrorView::InvalidSeconds)
            },
            _ => Err(HarrawErrorView::InvalidSeconds),
        },
    }
}

impl HarrawDelay {
    /// Whether `item` describes a pause.
    pub fn hrw_is_that_you(item: &Node) -> (r: bool)
        ensures
            r == item@.at("delay"@).is_hash(),
    {
        hrw_has_table(item, "delay")
    }

    /// The pause that `item` describes.
    pub fn new(item: &Node, _with_item: Option<Node>) -> (r: Result<HarrawDelay, HarrawError>)
        ensures
            match r {
                Ok(d) => delay_of(item@) == Ok::<HarrawDelayView, HarrawErrorView>(d@),
                Err(e) => delay_of(item@) == Err::<HarrawDelayView, HarrawErrorView>(e@),
            },
    {
        let name = hrw_extract(item, "name")?;
        let seconds = match item.get("delay") {
            Some(block) => match block.get("seconds") {
                Some(node) => node.as_i64(),
                None => None,
            },
            None => None,
        };
        match seconds {
            Some(v) => {
                if v >= 0 {
                    Ok(HarrawDelay { name, seconds: v as u64 })
                } else {
                    Err(HarrawError::InvalidSeconds)
                }
            },
            None => Err(HarrawError::InvalidSeconds),
        }
    }
}

impl HarrawRunnable for HarrawDelay {
    open spec fn outcome(
        &self,
        context: Map<Seq<char>, ValueView>,
        env: Seq<(Seq<char>, Seq<char>)>,
        strict: bool,
    ) -> Result<(Map<Seq<char>, ValueView>, HarrawActionView), HarrawErrorView> {
        Ok((context, HarrawActionView::Sleep(self.seconds)))
    }

    /// Asks the driver to wait; the context stays as it is.
    fn hrw_execute(
        &self,
        context: &mut Context,
        environment: &Vec<(String, String)>,
        config: &HarrawConfig,
    ) -> (r: Result<HarrawAction, HarrawError>) {
        Ok(HarrawAction::Sleep(self.seconds))
    }
}

} // verus!
