//! The step that runs a shell command.

use crate::benchmark::Context;
use crate::config::HarrawConfig;
use crate::error::{HarrawError, HarrawErrorView};
use crate::interpolator::{resolved, HarrawInterpolator};
use crate::node::{Node, NodeView};
use crate::service::{extracted, extracted_optional, hrw_extract, hrw_extract_in};
use crate::service::{hrw_extract_optional, hrw_has_table};
use crate::service::{HarrawAction, HarrawActionView, HarrawRunnable};
use crate::text::{chars_of, hrw_trim_end, string_of, trimmed_end};
use crate::value::{Value, ValueView};
use vstd::prelude::*;

verus! {

/// A shell command, and the variable that takes its output.
#[derive(Debug, PartialEq)]
pub struct HarrawExec {
    pub name: String,
    pub command: String,
    pub assign: Option<String>,
}

/// The mathematical content of a `HarrawExec`.
pub struct HarrawExecView {
    pub name: Seq<char>,
    pub command: Seq<char>,
    pub assign: Option<Seq<char>>,
}

impl View for HarrawExec {
    type V = HarrawExecView;

    open spec fn view(&self) -> HarrawExecView {
        HarrawExecView {
            name: self.name@,
            command: self.command@,
            assign: self.assign.deep_view(),
        }
    }
}

/// The command step that `item` describes: its name, the `command` of its `exec`
/// table, and its optional `assign` string.
pub open spec fn exec_of(item: NodeView) -> Result<HarrawExecView, HarrawErrorView> {
    match extracted(item, "name"@) {
        Err(e) => Err(e),
        Ok(name) => match extracted(item.at("exec"@), "command"@) {
            Err(e) => Err(e),
            Ok(command) => match extracted_optional(item, "assign"@) {
                Err(e) => Err(e),
                Ok(assign) => Ok(HarrawExecView { name, command, assign }),
            },
        },
    }
}

impl HarrawExec {
    /// Whether `item` describes a command.
    pub fn hrw_is_that_you(item: &Node) -> (r: bool)
        ensures
            r == item@.at("exec"@).is_hash(),
    {
        hrw_has_table(item, "exec")
    }

    /// The command step that `item` describes.
    pub fn new(item: &Node, _with_item: Option<Node>) -> (r: Result<HarrawExec, HarrawError>)
        ensures
            match r {
                Ok(x) => exec_of(item@) == Ok::<HarrawExecView, HarrawErrorView>(x@),
                Err(e) => exec_of(item@) == Err::<HarrawExecView, HarrawErrorView>(e@),
            },
    {
        let name = hrw_extract(item, "name")?;
        let command = hrw_extract_in(item, "exec", "command")?;
        let assign = hrw_extract_optional(item, "assign")?;
        Ok(HarrawExec { name, command, assign })
    }

    /// Takes the output of the command: without its trailing whitespace it becomes
    /// the value of the variable that the step assigns, if it assigns one.
    pub fn hrw_capture(&self, context: &mut Context, output: &str)
        ensures
            final(context)@ == (match self.assign {
                Some(key) => old(context)@.insert(key@, ValueView::Text(trimmed_end(output@))),
                None => old(context)@,
            }),
    {
        if let Some(key) = &self.assign {
            let kept = string_of(&hrw_trim_end(&chars_of(output)));
            context.insert(key.clone(), Value::Text(kept));
        }
    }
}

impl HarrawRunnable for HarrawExec {
    open spec fn outcome(
        &self,
        context: Map<Seq<char>, ValueView>,
        env: Seq<(Seq<char>, Seq<char>)>,
        strict: bool,
    ) -> Result<(Map<Seq<char>, ValueView>, HarrawActionView), HarrawErrorView> {
        match resolved(self.command@, 0, context, env, strict) {
            Ok(command) => Ok((context, HarrawActionView::Shell(command))),
            Err(e) => Err(e),
        }
    }

    /// Interpolates the command and asks the driver to run it.
    fn hrw_execute(
        &self,
        context: &mut Context,
        environment: &Vec<(String, String)>,
        config: &HarrawConfig,
    ) -> (r: Result<HarrawAction, HarrawError>) {
        let interpolator = HarrawInterpolator::new(context, environment);
        let command = interpolator.hrw_resolve(
            self.command.as_str(),
            !config.relaxed_interpolations,
        )?;
        Ok(HarrawAction::Shell(command))
    }
}

} // verus!
