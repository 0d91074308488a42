//! The configuration of a run, read from the top of a plan document.

use crate::benchmark::Context;
use crate::error::{HarrawError, HarrawErrorView};
use crate::interpolator::{resolved, HarrawInterpolator};
use crate::node::{Node, NodeView};
use crate::text::{chars_of, hrw_parse_i64, hrw_parse_u64, parsed_i64, parsed_u64};
use crate::value::ValueView;
use vstd::prelude::*;

verus! {

/// The number of iterations where the document gives none.
pub const NITERATIONS: i64 = 1;

/// The ramp-up window, in seconds, where the document gives none.
pub const NRAMPUP: i64 = 0;

/// The seconds that a request may take where no usable number is given.
pub const NTIMEOUT: u64 = 10;

/// The seconds that a request may take: the number that the text writes, and the
/// default where there is no text or it writes no such number.
pub open spec fn timeout_of(text: Option<Seq<char>>) -> u64 {
    match text {
        Some(t) => match parsed_u64(t) {
            Some(seconds) => seconds,
            None => NTIMEOUT,
        },
        None => NTIMEOUT,
    }
}

/// The seconds that a request may take, read from an optional text.
pub fn hrw_timeout(text: Option<&str>) -> (seconds: u64)
    ensures
        seconds == timeout_of(
            match text {
                Some(t) => Some(t@),
                None => None,
            },
        ),
{
    match text {
        Some(t) => match hrw_parse_u64(t) {
            Some(seconds) => seconds,
            None => NTIMEOUT,
        },
        None => NTIMEOUT,
    }
}

/// The configuration of a run.
#[derive(Debug, PartialEq)]
pub struct HarrawConfig {
    pub base: String,
    pub concurrency: i64,
    pub iterations: i64,
    pub relaxed_interpolations: bool,
    pub no_check_certificate: bool,
    pub rampup: i64,
    pub quiet: bool,
    pub nanosec: bool,
    pub timeout: u64,
    pub verbose: bool,
}

/// How a numeric setting came to its value.
#[derive(Debug, Clone, Copy, PartialEq, Eq, Structural)]
pub enum ConfigNote {
    /// The document gave a usable value.
    Accepted,
    /// The document gave a negative value: the default stands, and a warning is due.
    Negative,
    /// The document gave a text that is no number: the default stands, and a
    /// warning is due.
    Invalid,
    /// The document gave nothing usable: the default stands.
    Absent,
}

/// The text setting `name`: a string of the document, interpolated strictly where
/// it holds an opening brace; the default where the document has no string there.
pub open spec fn str_configuration(
    doc: NodeView,
    context: Map<Seq<char>, ValueView>,
    env: Seq<(Seq<char>, Seq<char>)>,
    name: Seq<char>,
    default: Seq<char>,
) -> Result<Seq<char>, HarrawErrorView> {
    match doc.at(name).as_str() {
        Some(value) => if value.contains('{') {
            resolved(value, 0, context, env, true)
        } else {
            Ok(value)
        },
        None => Ok(default),
    }
}

/// The numeric setting `name`: a whole number of the document, or a string of it
/// that, interpolated without strictness, writes one. A negative or unreadable
/// value gives way to the default.
pub open spec fn i64_configuration(
    doc: NodeView,
    context: Map<Seq<char>, ValueView>,
    env: Seq<(Seq<char>, Seq<char>)>,
    name: Seq<char>,
    default: i64,
) -> Result<(i64, ConfigNote), HarrawErrorView> {
    let node = doc.at(name);
    match node {
        NodeView::Integer(v) => Ok(
            if v < 0 {
                (default, ConfigNote::Negative)
            } else {
                (v, ConfigNote::Accepted)
            },
        ),
        NodeView::Text(key) => match resolved(key, 0, context, env, false) {
            Ok(text) => Ok(
                match parsed_i64(text) {
                    Some(v) => if v < 0 {
                        (default, ConfigNote::Negative)
                    } else {
                        (v, ConfigNote::Accepted)
                    },
                    None => (default, ConfigNote::Invalid),
                },
            ),
            Err(e) => Err(e),
        },
        _ => Ok((default, ConfigNote::Absent)),
    }
}

/// The settings `base`, `concurrency`, `iterations` and `rampup` of a document, in
/// this order. They are read against an empty context, so that only the
/// environment can fill a token. Concurrency defaults to the number of iterations.
pub open spec fn configuration(doc: NodeView, env: Seq<(Seq<char>, Seq<char>)>) -> Result<
    (Seq<char>, i64, i64, i64),
    HarrawErrorView,
> {
    let context = Map::<Seq<char>, ValueView>::empty();
    match i64_configuration(doc, context, env, "iterations"@, NITERATIONS) {
        Err(e) => Err(e),
        Ok((iterations, _)) => match i64_configuration(
            doc,
            context,
            env,
            "concurrency"@,
            iterations,
        ) {
            Err(e) => Err(e),
            Ok((concurrency, _)) => match i64_configuration(
                doc,
                context,
                env,
                "rampup"@,
                NRAMPUP,
            ) {
                Err(e) => Err(e),
                Ok((rampup, _)) => match str_configuration(
                    doc,
                    context,
                    env,
                    "base"@,
                    Seq::empty(),
                ) {
                    Err(e) => Err(e),
                    Ok(base) => Ok((base, concurrency, iterations, rampup)),
                },
            },
        },
    }
}

fn has_brace(text: &str) -> (r: bool)
    ensures
        r == text@.contains('{'),
{
    let chars = chars_of(text);
    let mut i: usize = 0;
    while i < chars.len()
        invariant
            i <= chars.len(),
            chars@ == text@,
            forall|j: int| 0 <= j < i ==> chars@[j] != '{',
        decreases chars.len() - i,
    {
        if chars[i] == '{' {
            return true;
        }
        i += 1;
    }
    false
}

/// Reads the text setting `name` of a configuration document.
pub fn hrw_read_str_configuration(
    config_doc: &Node,
    interpolator: &HarrawInterpolator,
    name: &str,
    default: &str,
) -> (r: Result<String, HarrawError>)
    ensures
        match r {
            Ok(s) => str_configuration(
                config_doc@,
                interpolator.context@,
                interpolator.environment.deep_view(),
                name@,
                default@,
            ) == Ok::<Seq<char>, HarrawErrorView>(s@),
            Err(e) => str_configuration(
                config_doc@,
                interpolator.context@,
                interpolator.environment.deep_view(),
                name@,
                default@,
            ) == Err::<Seq<char>, HarrawErrorView>(e@),
        },
{
    let value = match config_doc.get(name) {
        Some(node) => node.as_str(),
        None => None,
    };
    match value {
        Some(value) => {
            if has_brace(value) {
                interpolator.hrw_resolve(value, true)
            } else {
                Ok(value.to_owned())
            }
        },
        None => Ok(default.to_owned()),
    }
}

/// Reads the numeric setting `name` of a configuration document, and says how the
/// value came about.
pub fn hrw_read_i64_configuration(
    config_doc: &Node,
    interpolator: &HarrawInterpolator,
    name: &str,
    default: i64,
) -> (r: Result<(i64, ConfigNote), HarrawError>)
    ensures
        match r {
            Ok(found) => i64_configuration(
                config_doc@,
                interpolator.context@,
                interpolator.environment.deep_view(),
                name@,
                default,
            ) == Ok::<(i64, ConfigNote), HarrawErrorView>(found),
            Err(e) => i64_configuration(
                config_doc@,
                interpolator.context@,
                interpolator.environment.deep_view(),
                name@,
                default,
            ) == Err::<(i64, ConfigNote), HarrawErrorView>(e@),
        },
{
    let node = match config_doc.get(name) {
        Some(node) => node,
        None => {
            return Ok((default, ConfigNote::Absent));
        },
    };
    let value = match node {
        Node::Integer(v) => Some(*v),
        Node::Text(key) => {
            let text = interpolator.hrw_resolve(key.as_str(), false)?;
            match hrw_parse_i64(text.as_str()) {
                Some(v) => Some(v),
                None => {
                    return Ok((default, ConfigNote::Invalid));
                },
            }
        },
        _ => None,
    };
    match value {
        Some(v) => {
            if v < 0 {
                Ok((default, ConfigNote::Negative))
            } else {
                Ok((v, ConfigNote::Accepted))
            }
        },
        None => Ok((default, ConfigNote::Absent)),
    }
}

impl HarrawConfig {
    /// The configuration that `config_doc` describes, with the given flags.
    pub fn new(
        config_doc: &Node,
        environment: &Vec<(String, String)>,
        relaxed_interpolations: bool,
        no_check_certificate: bool,
        quiet: bool,
        nanosec: bool,
        timeout: u64,
        verbose: bool,
    ) -> (r: Result<HarrawConfig, HarrawError>)
        ensures
            match r {
                Ok(c) => configuration(config_doc@, environment.deep_view()) == Ok::<
                    (Seq<char>, i64, i64, i64),
                    HarrawErrorView,
                >((c.base@, c.concurrency, c.iterations, c.rampup))
                    && c.relaxed_interpolations == relaxed_interpolations
                    && c.no_check_certificate == no_check_certificate && c.quiet == quiet
                    && c.nanosec == nanosec && c.timeout == timeout && c.verbose == verbose
                    && c.iterations >= 0 && c.concurrency >= 0 && c.rampup >= 0,
                Err(e) => configuration(config_doc@, environment.deep_view()) == Err::<
                    (Seq<char>, i64, i64, i64),
                    HarrawErrorView,
                >(e@),
            },
    {
        let context = Context::new();
        let interpolator = HarrawInterpolator::new(&context, environment);
        let (iterations, _) = hrw_read_i64_configuration(
            config_doc,
            &interpolator,
            "iterations",
            NITERATIONS,
        )?;
        let (concurrency, _) = hrw_read_i64_configuration(
            config_doc,
            &interpolator,
            "concurrency",
            iterations,
        )?;
        let (rampup, _) = hrw_read_i64_configuration(
            config_doc,
            &interpolator,
            "rampup",
            NRAMPUP,
        )?;
        let base = hrw_read_str_configuration(config_doc, &interpolator, "base", "")?;
        proof {
            reveal_strlit("");
            assert(""@ =~= Seq::<char>::empty());
        }
        Ok(
            HarrawConfig {
                base,
                concurrency,
                iterations,
                relaxed_interpolations,
                no_check_certificate,
                rampup,
                quiet,
                nanosec,
                timeout,
                verbose,
            },
        )
    }
}

} // verus!
