//! The step that binds a variable.

use crate::benchmark::Context;
use crate::config::HarrawConfig;
use crate::error::{HarrawError, HarrawErrorView};
use crate::node::{Node, NodeView};
use crate::service::{extracted, hrw_extract, hrw_extract_in, hrw_has_table};
use crate::service::{HarrawAction, HarrawActionView, HarrawRunnable};
use crate::value::{Value, ValueView};
use vstd::prelude::*;

verus! {

/// An assignment of a literal text to a variable.
#[derive(Debug, PartialEq)]
pub struct HarrawAssign {
    pub name: String,
    pub key: String,
    pub value: String,
}

/// The mathematical content of a `HarrawAssign`.
pub struct HarrawAssignView {
    pub name: Seq<char>,
    pub key: Seq<char>,
    pub value: Seq<char>,
}

impl View for HarrawAssign {
    type V = HarrawAssignView;

    open spec fn view(&self) -> HarrawAssignView {
        HarrawAssignView { name: self.name@, key: self.key@, value: self.value@ }
    }
}

/// The assignment that `item` describes: its name, and `key` and `value` of its
/// `assign` table.
pub open spec fn assign_of(item: NodeView) -> Result<HarrawAssignView, HarrawErrorView> {
    match extracted(item, "name"@) {
        Err(e) => Err(e),
        Ok(name) => match extracted(item.at("assign"@), "key"@) {
            Err(e) => Err(e),
            Ok(key) => match extracted(item.at("assign"@), "value"@) {
                Err(e) => Err(e),
                Ok(value) => Ok(HarrawAssignView { name, key, value }),
            },
        },
    }
}

impl HarrawAssign {
    /// Whether `item` describes an assignment.
    pub fn hrw_is_that_you(item: &Node) -> (r: bool)
        ensures
            r == item@.at("assign"@).is_hash(),
    {
        hrw_has_table(item, "assign")
    }

    /// The assignment that `item` describes.
    pub fn new(item: &Node, _with_item: Option<Node>) -> (r: Result<HarrawAssign, HarrawError>)
        ensures
            match r {
                Ok(a) => assign_of(item@) == Ok::<HarrawAssignView, HarrawErrorView>(a@),
                Err(e) => assign_of(item@) == Err::<HarrawAssignView, HarrawErrorView>(e@),
            },
    {
        let name = hrw_extract(item, "name")?;
        let key = hrw_extract_in(item, "assign", "key")?;
        let value = hrw_extract_in(item, "assign", "value")?;
        Ok(HarrawAssign { name, key, value })
    }
}

impl HarrawRunnable for HarrawAssign {
    open spec fn outcome(
        &self,
        context: Map<Seq<char>, ValueView>,
        env: Seq<(Seq<char>, Seq<char>)>,
        strict: bool,
    ) -> Result<(Map<Seq<char>, ValueView>, HarrawActionView), HarrawErrorView> {
        Ok((context.insert(self.key@, ValueView::Text(self.value@)), HarrawActionView::Done))
    }

    /// Binds the key to the literal value.
    fn hrw_execute(
        &self,
        context: &mut Context,
        environment: &Vec<(String, String)>,
        config: &HarrawConfig,
    ) -> (r: Result<HarrawAction, HarrawError>) {
        context.insert(self.key.clone(), Value::Text(self.value.clone()));
        Ok(HarrawAction::Done)
    }
}

} // verus!
