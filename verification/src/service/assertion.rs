//! The step that checks a variable.

use crate::benchmark::Context;
use crate::config::HarrawConfig;
use crate::error::{HarrawError, HarrawErrorView};
use crate::interpolator::{resolved, HarrawInterpolator};
use crate::node::{Node, NodeView};
use crate::service::{extracted, hrw_extract, hrw_extract_in, hrw_has_table};
use crate::service::{HarrawAction, HarrawActionView, HarrawRunnable};
use crate::text::{chars_of, string_of, text_eq};
use crate::value::{push_all, ValueView};
use vstd::prelude::*;

verus! {

/// A check that a variable holds an expected text.
#[derive(Debug, PartialEq)]
pub struct HarrawAssert {
    pub name: String,
    pub key: String,
    pub value: String,
}

/// The mathematical content of a `HarrawAssert`.
pub struct HarrawAssertView {
    pub name: Seq<char>,
    pub key: Seq<char>,
    pub value: Seq<char>,
}

impl View for HarrawAssert {
    type V = HarrawAssertView;

    open spec fn view(&self) -> HarrawAssertView {
        HarrawAssertView { name: self.name@, key: self.key@, value: self.value@ }
    }
}

/// The check that `item` describes: its name, and `key` and `value` of its
/// `assert` table.
pub open spec fn assert_of(item: NodeView) -> Result<HarrawAssertView, HarrawErrorView> {
    match extracted(item, "name"@) {
        Err(e) => Err(e),
        Ok(name) => match extracted(item.at("assert"@), "key"@) {
            Err(e) => Err(e),
            Ok(key) => match extracted(item.at("assert"@), "value"@) {
                Err(e) => Err(e),
                Ok(value) => Ok(HarrawAssertView { name, key, value }),
            },
        },
    }
}

/// The template that reads the variable `key`: the key between `{{ ` and ` }}`.
pub open spec fn reading_of(key: Seq<char>) -> Seq<char> {
    seq!['{', '{', ' '] + key + seq![' ', '}', '}']
}

impl HarrawAssert {
    /// Whether `item` describes a check.
    pub fn hrw_is_that_you(item: &Node) -> (r: bool)
        ensures
            r == item@.at("assert"@).is_hash(),
    {
        hrw_has_table(item, "assert")
    }

    /// The check that `item` describes.
    pub fn new(item: &Node, _with_item: Option<Node>) -> (r: Result<HarrawAssert, HarrawError>)
        ensures
            match r {
                Ok(a) => assert_of(item@) == Ok::<HarrawAssertView, HarrawErrorView>(a@),
                Err(e) => assert_of(item@) == Err::<HarrawAssertView, HarrawErrorView>(e@),
            },
    {
        let name = hrw_extract(item, "name")?;
        let key = hrw_extract_in(item, "assert", "key")?;
        let value = hrw_extract_in(item, "assert", "value")?;
        Ok(HarrawAssert { name, key, value })
    }
}

impl HarrawRunnable for HarrawAssert {
    open spec fn outcome(
        &self,
        context: Map<Seq<char>, ValueView>,
        env: Seq<(Seq<char>, Seq<char>)>,
        strict: bool,
    ) -> Result<(Map<Seq<char>, ValueView>, HarrawActionView), HarrawErrorView> {
        match resolved(reading_of(self.key@), 0, context, env, true) {
            Ok(stored) => if stored == self.value@ {
                Ok((context, HarrawActionView::Done))
            } else {
                Err(HarrawErrorView::AssertionMismatched(stored, self.value@))
            },
            Err(e) => Err(e),
        }
    }

    /// Reads the variable strictly and compares it with the expected text.
    fn hrw_execute(
        &self,
        context: &mut Context,
        environment: &Vec<(String, String)>,
        config: &HarrawConfig,
    ) -> (r: Result<HarrawAction, HarrawError>) {
        let mut template: Vec<char> = Vec::new();
        template.push('{');
        template.push('{');
        template.push(' ');
        push_all(&mut template, &chars_of(self.key.as_str()));
        template.push(' ');
        template.push('}');
        template.push('}');
        assert(template@ =~= reading_of(self.key@));
        let eval = string_of(&template);
        let interpolator = HarrawInterpolator::new(context, environment);
        let stored = interpolator.hrw_resolve(eval.as_str(), true)?;
        if text_eq(stored.as_str(), self.value.as_str()) {
            Ok(HarrawAction::Done)
        } else {
            Err(HarrawError::AssertionMismatched(stored, self.value.clone()))
        }
    }
}

} // verus!
