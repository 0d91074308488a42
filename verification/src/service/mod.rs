//! The steps of a plan: what each is made from and what executing it asks for.

pub mod assertion;
pub mod assign;
pub mod delay;
pub mod exec;
pub mod request;

use crate::benchmark::Context;
use crate::service::assertion::{HarrawAssert, HarrawAssertView};
use crate::service::assign::{HarrawAssign, HarrawAssignView};
use crate::service::delay::{HarrawDelay, HarrawDelayView};
use crate::service::exec::{HarrawExec, HarrawExecView};
use crate::service::request::{HarrawRequest, HarrawRequestView};
use crate::config::HarrawConfig;
use crate::error::{HarrawError, HarrawErrorView};
use crate::node::{Node, NodeView};
use crate::text::{decimal_text, hrw_decimal};
use crate::value::ValueView;
use vstd::prelude::*;

verus! {

/// What the program that drives a plan has to do for a step.
#[derive(Debug, PartialEq)]
pub enum HarrawAction {
    /// Nothing: the step is complete.
    Done,
    /// Wait for this many seconds.
    Sleep(u64),
    /// Run this command in a shell, and hand its output back to the step.
    Shell(String),
    /// Perform the step's HTTP request.
    Send,
}

/// The mathematical content of a `HarrawAction`.
pub enum HarrawActionView {
    Done,
    Sleep(u64),
    Shell(Seq<char>),
    Send,
}

impl View for HarrawAction {
    type V = HarrawActionView;

    open spec fn view(&self) -> HarrawActionView {
        match self {
            HarrawAction::Done => HarrawActionView::Done,
            HarrawAction::Sleep(s) => HarrawActionView::Sleep(*s),
            HarrawAction::Shell(c) => HarrawActionView::Shell(c@),
            HarrawAction::Send => HarrawActionView::Send,
        }
    }
}

/// A step that can be executed against a context.
pub trait HarrawRunnable {
    /// What executing the step does to a context and asks of the driver, or why it
    /// fails. `strict` says whether a name without binding is fatal.
    spec fn outcome(
        &self,
        context: Map<Seq<char>, ValueView>,
        env: Seq<(Seq<char>, Seq<char>)>,
        strict: bool,
    ) -> Result<(Map<Seq<char>, ValueView>, HarrawActionView), HarrawErrorView>;

    /// Executes the part of the step that needs no outside work. A failed step
    /// leaves the context as it was.
    fn hrw_execute(
        &self,
        context: &mut Context,
        environment: &Vec<(String, String)>,
        config: &HarrawConfig,
    ) -> (r: Result<HarrawAction, HarrawError>)
        ensures
            match r {
                Ok(action) => self.outcome(
                    old(context)@,
                    environment.deep_view(),
                    !config.relaxed_interpolations,
                ) == Ok::<(Map<Seq<char>, ValueView>, HarrawActionView), HarrawErrorView>(
                    (final(context)@, action@),
                ),
                Err(e) => self.outcome(
                    old(context)@,
                    environment.deep_view(),
                    !config.relaxed_interpolations,
                ) == Err::<(Map<Seq<char>, ValueView>, HarrawActionView), HarrawErrorView>(e@)
                    && final(context)@ == old(context)@,
            },
    ;
}

/// The text of the attribute `attr` of `item`, where it is a string; nothing where
/// it is absent or a scalar of another kind. A table is refused.
pub open spec fn extracted_optional(item: NodeView, attr: Seq<char>) -> Result<
    Option<Seq<char>>,
    HarrawErrorView,
> {
    match item.at(attr) {
        NodeView::Text(s) => Ok(Some(s)),
        NodeView::Hash(_) => Err(HarrawErrorView::NotAString(attr)),
        _ => Ok(None),
    }
}

/// The text of the attribute `attr` of `item`: a whole number in decimal notation,
/// or a string as it is. Anything else is refused.
pub open spec fn extracted(item: NodeView, attr: Seq<char>) -> Result<Seq<char>, HarrawErrorView> {
    match item.at(attr) {
        NodeView::Integer(v) => Ok(decimal_text(v as int)),
        NodeView::Text(s) => Ok(s),
        NodeView::Hash(_) => Err(HarrawErrorView::NotAString(attr)),
        _ => Err(HarrawErrorView::UnknownAttribute(attr)),
    }
}

/// Reads an optional string attribute.
pub fn hrw_extract_optional(item: &Node, attr: &str) -> (r: Result<Option<String>, HarrawError>)
    ensures
        match r {
            Ok(found) => extracted_optional(item@, attr@) == Ok::<
                Option<Seq<char>>,
                HarrawErrorView,
            >(found.deep_view()),
            Err(e) => extracted_optional(item@, attr@) == Err::<
                Option<Seq<char>>,
                HarrawErrorView,
            >(e@),
        },
{
    match item.get(attr) {
        Some(Node::Text(s)) => Ok(Some(s.clone())),
        Some(Node::Hash(_)) => Err(HarrawError::NotAString(attr.to_owned())),
        _ => Ok(None),
    }
}

/// Reads a required attribute as text.
pub fn hrw_extract(item: &Node, attr: &str) -> (r: Result<String, HarrawError>)
    ensures
        match r {
            Ok(s) => extracted(item@, attr@) == Ok::<Seq<char>, HarrawErrorView>(s@),
            Err(e) => extracted(item@, attr@) == Err::<Seq<char>, HarrawErrorView>(e@),
        },
{
    match item.get(attr) {
        Some(Node::Integer(v)) => Ok(hrw_decimal(*v)),
        Some(Node::Text(s)) => Ok(s.clone()),
        Some(Node::Hash(_)) => Err(HarrawError::NotAString(attr.to_owned())),
        _ => Err(HarrawError::UnknownAttribute(attr.to_owned())),
    }
}

/// Reads a required attribute of the table stored under `block`.
pub fn hrw_extract_in(item: &Node, block: &str, attr: &str) -> (r: Result<String, HarrawError>)
    ensures
        match r {
            Ok(s) => extracted(item@.at(block@), attr@) == Ok::<Seq<char>, HarrawErrorView>(s@),
            Err(e) => extracted(item@.at(block@), attr@) == Err::<Seq<char>, HarrawErrorView>(
                e@,
            ),
        },
{
    match item.get(block) {
        Some(inner) => hrw_extract(inner, attr),
        None => Err(HarrawError::UnknownAttribute(attr.to_owned())),
    }
}

/// Whether `item` holds a table under `key`.
pub fn hrw_has_table(item: &Node, key: &str) -> (r: bool)
    ensures
        r == item@.at(key@).is_hash(),
{
    match item.get(key) {
        Some(inner) => inner.is_hash(),
        None => false,
    }
}

/// One step of a plan.
#[derive(Debug, PartialEq)]
pub enum HarrawStep {
    Delay(HarrawDelay),
    Exec(HarrawExec),
    Assign(HarrawAssign),
    Assert(HarrawAssert),
    Request(HarrawRequest),
}

/// The mathematical content of a `HarrawStep`.
pub enum HarrawStepView {
    Delay(HarrawDelayView),
    Exec(HarrawExecView),
    Assign(HarrawAssignView),
    Assert(HarrawAssertView),
    Request(HarrawRequestView),
}

impl View for HarrawStep {
    type V = HarrawStepView;

    open spec fn view(&self) -> HarrawStepView {
        match self {
            HarrawStep::Delay(s) => HarrawStepView::Delay(s@),
            HarrawStep::Exec(s) => HarrawStepView::Exec(s@),
            HarrawStep::Assign(s) => HarrawStepView::Assign(s@),
            HarrawStep::Assert(s) => HarrawStepView::Assert(s@),
            HarrawStep::Request(s) => HarrawStepView::Request(s@),
        }
    }
}

impl DeepView for HarrawStep {
    type V = HarrawStepView;

    open spec fn deep_view(&self) -> HarrawStepView {
        self@
    }
}

impl HarrawRunnable for HarrawStep {
    open spec fn outcome(
        &self,
        context: Map<Seq<char>, ValueView>,
        env: Seq<(Seq<char>, Seq<char>)>,
        strict: bool,
    ) -> Result<(Map<Seq<char>, ValueView>, HarrawActionView), HarrawErrorView> {
        match self {
            HarrawStep::Delay(s) => s.outcome(context, env, strict),
            HarrawStep::Exec(s) => s.outcome(context, env, strict),
            HarrawStep::Assign(s) => s.outcome(context, env, strict),
            HarrawStep::Assert(s) => s.outcome(context, env, strict),
            HarrawStep::Request(s) => s.outcome(context, env, strict),
        }
    }

    /// Executes the step of whichever kind this is.
    fn hrw_execute(
        &self,
        context: &mut Context,
        environment: &Vec<(String, String)>,
        config: &HarrawConfig,
    ) -> (r: Result<HarrawAction, HarrawError>) {
        match self {
            HarrawStep::Delay(s) => s.hrw_execute(context, environment, config),
            HarrawStep::Exec(s) => s.hrw_execute(context, environment, config),
            HarrawStep::Assign(s) => s.hrw_execute(context, environment, config),
            HarrawStep::Assert(s) => s.hrw_execute(context, environment, config),
            HarrawStep::Request(s) => s.hrw_execute(context, environment, config),
        }
    }
}

} // verus!
