//! The failures that the library reports instead of aborting.

use crate::node::{flow, Node, NodeView};
use crate::text::string_of;
use crate::text::{decimal_text, hrw_decimal};
use vstd::prelude::*;

verus! {

/// A property of a plan item in which no `{{ name }}` token may stand.
#[derive(Debug, Clone, Copy, PartialEq, Eq, Structural)]
pub enum Property {
    Include,
    WithItems,
    Start,
    Step,
    Stop,
    CsvFile,
    ItemsFile,
}

/// The kind of a file that an expansion reads.
#[derive(Debug, Clone, Copy, PartialEq, Eq, Structural)]
pub enum SourceKind {
    /// A plan document.
    Plan,
    /// Comma-separated rows, with the given quote character.
    Csv(u8),
    /// A document whose top level is a sequence.
    Items,
}

/// Why an operation failed.
#[derive(Debug, PartialEq)]
pub enum HarrawError {
    /// Strict interpolation found no binding for this name.
    UnknownVariable(String),
    /// The include set and the exclude set of a tag filter share a tag.
    SameTags,
    /// An item's `tags` list holds something that is not a string.
    TagNotText,
    /// A `{{ name }}` token stands in a property that does not allow one.
    InterpolationForbidden(Property),
    /// `pick` is negative; the value is given.
    NegativePick(i64),
    /// `pick` exceeds the number of items; the value is given.
    PickTooLarge(i64),
    /// The named attribute is a table where a string is needed.
    NotAString(String),
    /// The named attribute is missing or is neither a number nor a string.
    UnknownAttribute(String),
    /// `delay.seconds` is missing, not a whole number, or negative.
    InvalidSeconds,
    /// A range has no `start`.
    MissingStart,
    /// A range has no `stop`.
    MissingStop,
    /// The `start` of a range is not a whole number.
    StartNotNumber,
    /// The `step` of a range is not a whole number.
    StepNotNumber,
    /// The `stop` of a range is not a whole number.
    StopNotNumber,
    /// The `step` of a range is zero.
    ZeroStep,
    /// A CSV generator given as a table has no `file_name` string.
    MissingFileName,
    /// A CSV generator's `quote_char` is empty or not a single byte.
    InvalidQuoteChar,
    /// A file generator whose source is a table rather than a path.
    UnsupportedSource,
    /// This item of a plan matches no known shape.
    UnknownNode(Node),
    /// The plan file at this path has not been supplied.
    MissingPlan(String),
    /// The file of this kind that the file at the first path names by the second
    /// text has not been supplied.
    MissingSource(SourceKind, String, String),
    /// The document does not hold a sequence of items where one is expected.
    NotASequence,
    /// Files include one another in a circle: the chain of files is longer than the
    /// number of files supplied.
    TooDeep,
    /// An assertion step found the first text where it expected the second.
    AssertionMismatched(String, String),
}

/// The mathematical content of a `HarrawError`.
pub enum HarrawErrorView {
    UnknownVariable(Seq<char>),
    SameTags,
    TagNotText,
    InterpolationForbidden(Property),
    NegativePick(i64),
    PickTooLarge(i64),
    NotAString(Seq<char>),
    UnknownAttribute(Seq<char>),
    InvalidSeconds,
    MissingStart,
    MissingStop,
    StartNotNumber,
    StepNotNumber,
    StopNotNumber,
    ZeroStep,
    MissingFileName,
    InvalidQuoteChar,
    UnsupportedSource,
    UnknownNode(NodeView),
    MissingPlan(Seq<char>),
    MissingSource(SourceKind, Seq<char>, Seq<char>),
    NotASequence,
    TooDeep,
    AssertionMismatched(Seq<char>, Seq<char>),
}

impl View for HarrawError {
    type V = HarrawErrorView;

    open spec fn view(&self) -> HarrawErrorView {
        match self {
            HarrawError::UnknownVariable(s) => HarrawErrorView::UnknownVariable(s@),
            HarrawError::SameTags => HarrawErrorView::SameTags,
            HarrawError::TagNotText => HarrawErrorView::TagNotText,
            HarrawError::InterpolationForbidden(p) => HarrawErrorView::InterpolationForbidden(*p),
            HarrawError::NegativePick(v) => HarrawErrorView::NegativePick(*v),
            HarrawError::PickTooLarge(v) => HarrawErrorView::PickTooLarge(*v),
            HarrawError::NotAString(s) => HarrawErrorView::NotAString(s@),
            HarrawError::UnknownAttribute(s) => HarrawErrorView::UnknownAttribute(s@),
            HarrawError::InvalidSeconds => HarrawErrorView::InvalidSeconds,
            HarrawError::MissingStart => HarrawErrorView::MissingStart,
            HarrawError::MissingStop => HarrawErrorView::MissingStop,
            HarrawError::StartNotNumber => HarrawErrorView::StartNotNumber,
            HarrawError::StepNotNumber => HarrawErrorView::StepNotNumber,
            HarrawError::StopNotNumber => HarrawErrorView::StopNotNumber,
            HarrawError::ZeroStep => HarrawErrorView::ZeroStep,
            HarrawError::MissingFileName => HarrawErrorView::MissingFileName,
            HarrawError::InvalidQuoteChar => HarrawErrorView::InvalidQuoteChar,
            HarrawError::UnsupportedSource => HarrawErrorView::UnsupportedSource,
            HarrawError::UnknownNode(n) => HarrawErrorView::UnknownNode(n@),
            HarrawError::MissingPlan(p) => HarrawErrorView::MissingPlan(p@),
            HarrawError::MissingSource(k, p, n) => HarrawErrorView::MissingSource(*k, p@, n@),
            HarrawError::NotASequence => HarrawErrorView::NotASequence,
            HarrawError::TooDeep => HarrawErrorView::TooDeep,
            HarrawError::AssertionMismatched(a, b) => HarrawErrorView::AssertionMismatched(a@, b@),
        }
    }
}

/// The content of a result that holds a text.
pub open spec fn text_result(r: Result<String, HarrawError>) -> Result<Seq<char>, HarrawErrorView> {
    match r {
        Ok(s) => Ok(s@),
        Err(e) => Err(e@),
    }
}

/// The name by which a message calls a property.
pub open spec fn property_name(property: Property) -> Seq<char> {
    match property {
        Property::Include => "include"@,
        Property::WithItems => "with_items"@,
        Property::Start => "start"@,
        Property::Step => "step"@,
        Property::Stop => "stop"@,
        Property::CsvFile => "with_items_from_csv"@,
        Property::ItemsFile => "with_items_from_file"@,
    }
}

/// The words that describe a failure.
pub open spec fn message_of(e: HarrawErrorView) -> Seq<char> {
    match e {
        HarrawErrorView::UnknownVariable(name) => "Unknown '"@ + name + "' variable!"@,
        HarrawErrorView::SameTags => "`tags` and `skip-tags` must not contain the same values!"@,
        HarrawErrorView::TagNotText => "Every tag of an item needs to be a string"@,
        HarrawErrorView::InterpolationForbidden(property) => "Interpolations not supported in '"@
            + property_name(property) + "' property!"@,
        HarrawErrorView::NegativePick(v) => "pick option should not be negative, but was "@
            + decimal_text(v as int),
        HarrawErrorView::PickTooLarge(v) =>
            "pick option should not be greater than the provided items, but was "@
            + decimal_text(v as int),
        HarrawErrorView::NotAString(attr) => "`"@ + attr
            + "` needs to be a string. Try adding quotes"@,
        HarrawErrorView::UnknownAttribute(attr) => "Unknown node `"@ + attr + "`"@,
        HarrawErrorView::InvalidSeconds => "Invalid number of seconds"@,
        HarrawErrorView::MissingStart => "Start property is mandatory"@,
        HarrawErrorView::MissingStop => "Stop property is mandatory"@,
        HarrawErrorView::StartNotNumber => "Start needs to be a number"@,
        HarrawErrorView::StepNotNumber => "Step needs to be a number"@,
        HarrawErrorView::StopNotNumber => "Stop needs to be a number"@,
        HarrawErrorView::ZeroStep => "Step must not be zero"@,
        HarrawErrorView::MissingFileName => "Expected a file_name"@,
        HarrawErrorView::InvalidQuoteChar => "Expected a quote_char that is not empty"@,
        HarrawErrorView::UnsupportedSource => "Expected the name of a file"@,
        HarrawErrorView::UnknownNode(item) => "Unknown node:\n\n"@ + flow(item) + "\n\n"@,
        HarrawErrorView::MissingPlan(path) => "File not supplied: "@ + path,
        HarrawErrorView::MissingSource(_, parent, name) => "File not supplied: "@ + name
            + " beside "@ + parent,
        HarrawErrorView::NotASequence => "Expected a sequence of items"@,
        HarrawErrorView::TooDeep => "Files include one another in a circle"@,
        HarrawErrorView::AssertionMismatched(stored, expected) => "Assertion mismatched: "@
            + stored + " != "@ + expected,
    }
}

fn property_text(property: Property) -> (s: &'static str)
    ensures
        s@ == property_name(property),
{
    match property {
        Property::Include => "include",
        Property::WithItems => "with_items",
        Property::Start => "start",
        Property::Step => "step",
        Property::Stop => "stop",
        Property::CsvFile => "with_items_from_csv",
        Property::ItemsFile => "with_items_from_file",
    }
}

fn three(a: &str, b: &str, c: &str) -> (s: String)
    ensures
        s@ == a@ + b@ + c@,
{
    let mut s = a.to_owned();
    s.append(b);
    s.append(c);
    s
}

impl HarrawError {
    /// The words that describe this failure.
    pub fn message(&self) -> (s: String)
        ensures
            s@ == message_of(self@),
    {
        match self {
            HarrawError::UnknownVariable(name) => three("Unknown '", name.as_str(), "' variable!"),
            HarrawError::SameTags => {
                "`tags` and `skip-tags` must not contain the same values!".to_owned()
            },
            HarrawError::TagNotText => "Every tag of an item needs to be a string".to_owned(),
            HarrawError::InterpolationForbidden(property) => three(
                "Interpolations not supported in '",
                property_text(*property),
                "' property!",
            ),
            HarrawError::NegativePick(v) => {
                let mut s = "pick option should not be negative, but was ".to_owned();
                s.append(hrw_decimal(*v).as_str());
                s
            },
            HarrawError::PickTooLarge(v) => {
                let mut s =
                    "pick option should not be greater than the provided items, but was ".to_owned();
                s.append(hrw_decimal(*v).as_str());
                s
            },
            HarrawError::NotAString(attr) => three(
                "`",
                attr.as_str(),
                "` needs to be a string. Try adding quotes",
            ),
            HarrawError::UnknownAttribute(attr) => three("Unknown node `", attr.as_str(), "`"),
            HarrawError::InvalidSeconds => "Invalid number of seconds".to_owned(),
            HarrawError::MissingStart => "Start property is mandatory".to_owned(),
            HarrawError::MissingStop => "Stop property is mandatory".to_owned(),
            HarrawError::StartNotNumber => "Start needs to be a number".to_owned(),
            HarrawError::StepNotNumber => "Step needs to be a number".to_owned(),
            HarrawError::StopNotNumber => "Stop needs to be a number".to_owned(),
            HarrawError::ZeroStep => "Step must not be zero".to_owned(),
            HarrawError::MissingFileName => "Expected a file_name".to_owned(),
            HarrawError::InvalidQuoteChar => "Expected a quote_char that is not empty".to_owned(),
            HarrawError::UnsupportedSource => "Expected the name of a file".to_owned(),
            HarrawError::UnknownNode(item) => {
                let mut fragment: Vec<char> = Vec::new();
                item.write_flow(&mut fragment);
                assert(fragment@ =~= flow(item@));
                three("Unknown node:\n\n", string_of(&fragment).as_str(), "\n\n")
            },
            HarrawError::MissingPlan(path) => {
                let mut s = "File not supplied: ".to_owned();
                s.append(path.as_str());
                s
            },
            HarrawError::MissingSource(_, parent, name) => {
                let mut s = three("File not supplied: ", name.as_str(), " beside ");
                s.append(parent.as_str());
                s
            },
            HarrawError::NotASequence => "Expected a sequence of items".to_owned(),
            HarrawError::TooDeep => "Files include one another in a circle".to_owned(),
            HarrawError::AssertionMismatched(stored, expected) => {
                let mut s = three("Assertion mismatched: ", stored.as_str(), " != ");
                s.append(expected.as_str());
                s
            },
        }
    }
}

} // verus!
