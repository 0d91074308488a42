//! The generator over the rows of a CSV file.

use crate::backend::{appended, kept, picked_requests, steps_result};
use crate::backend::{hrw_arrange, hrw_emit, hrw_pick, hrw_splice, hrw_wants_shuffle};
use crate::backend::{hrw_source_beside, source_beside, HarrawSource, HarrawSourceView};
use crate::backend::{is_order_of, wants_shuffle};
use crate::error::{HarrawError, HarrawErrorView, Property, SourceKind};
use crate::interpolator::{has_token, hrw_has_interpolation};
use crate::node::{Node, NodeView};
use crate::service::{hrw_has_table, HarrawStep, HarrawStepView};
use vstd::prelude::*;
use vstd::utf8::encode_utf8;

verus! {

/// Whether an item is a request with a `with_items_from_csv` string or table.
pub open spec fn is_csv_generator(item: NodeView) -> bool {
    item.at("request"@).is_hash() && (item.at("with_items_from_csv"@) is Text || item.at(
        "with_items_from_csv"@,
    ) is Hash)
}

/// The first byte of a text in UTF-8, if it has one.
pub open spec fn first_byte(text: Seq<char>) -> Option<u8> {
    if encode_utf8(text).len() > 0 {
        Some(encode_utf8(text)[0])
    } else {
        None
    }
}

/// The file and the quote character of a CSV generator. Given as a string, the
/// source is the file's name, and the quote character is the double quote. Given
/// as a table, it needs a `file_name` string, and its `quote_char` string, if
/// there is one, gives the quote character by its first byte.
pub open spec fn csv_target(item: NodeView) -> Result<(Seq<char>, u8), HarrawErrorView> {
    let source = item.at("with_items_from_csv"@);
    match source {
        NodeView::Text(path) => Ok((path, 34u8)),
        NodeView::Hash(_) => match source.at("file_name"@).as_str() {
            None => Err(HarrawErrorView::MissingFileName),
            Some(path) => match source.at("quote_char"@).as_str() {
                None => Ok((path, 34u8)),
                Some(quote) => match first_byte(quote) {
                    Some(byte) => Ok((path, byte)),
                    None => Err(HarrawErrorView::InvalidQuoteChar),
                },
            },
        },
        _ => Err(HarrawErrorView::UnsupportedSource),
    }
}

/// Whether `out` is a possible result of expanding `item`, which stands in the
/// file at `parent`. A token in the file's name is refused before any file is
/// asked for. A file that is not among `sources` is reported as missing.
/// Otherwise `out` holds the requests for the rows that the item picks from some
/// order of the file's rows, which is their own order unless the item asks for a
/// shuffle.
pub open spec fn csv_yields(
    sources: Seq<HarrawSourceView>,
    parent: Seq<char>,
    item: NodeView,
    out: Result<Seq<HarrawStepView>, HarrawErrorView>,
) -> bool {
    if csv_target(item) is Err {
        out == Err::<Seq<HarrawStepView>, HarrawErrorView>(csv_target(item)->Err_0)
    } else {
        let (path, quote) = csv_target(item)->Ok_0;
        let found = source_beside(sources, SourceKind::Csv(quote), parent, path);
        if has_token(path) {
            out == Err::<Seq<HarrawStepView>, HarrawErrorView>(
                HarrawErrorView::InterpolationForbidden(Property::CsvFile),
            )
        } else if found is None {
            out == Err::<Seq<HarrawStepView>, HarrawErrorView>(
                HarrawErrorView::MissingSource(SourceKind::Csv(quote), parent, path),
            )
        } else {
            exists|order: Seq<NodeView>|
                #[trigger] is_order_of(order, found->0.items, wants_shuffle(item)) && out
                    == picked_requests(item, order)
        }
    }
}

/// Whether `item` is for this generator.
pub fn hrw_is_that_you(item: &Node) -> (r: bool)
    ensures
        r == is_csv_generator(item@),
{
    hrw_has_table(item, "request") && match item.get("with_items_from_csv") {
        Some(Node::Text(_)) => true,
        Some(Node::Hash(_)) => true,
        _ => false,
    }
}

/// Reads the file and the quote character of a CSV generator.
pub fn hrw_csv_target(item: &Node) -> (r: Result<(String, u8), HarrawError>)
    ensures
        match r {
            Ok((path, quote)) => csv_target(item@) == Ok::<(Seq<char>, u8), HarrawErrorView>(
                (path@, quote),
            ),
            Err(e) => csv_target(item@) == Err::<(Seq<char>, u8), HarrawErrorView>(e@),
        },
{
    let source = match item.get("with_items_from_csv") {
        Some(source) => source,
        None => {
            return Err(HarrawError::UnsupportedSource);
        },
    };
    match source {
        Node::Text(path) => Ok((path.clone(), 34u8)),
        Node::Hash(_) => {
            let path = match source.get("file_name") {
                Some(Node::Text(path)) => path.clone(),
                _ => {
                    return Err(HarrawError::MissingFileName);
                },
            };
            match source.get("quote_char") {
                Some(Node::Text(quote)) => {
                    let bytes = quote.as_str().as_bytes();
                    if bytes.len() > 0 {
                        Ok((path, bytes[0]))
                    } else {
                        Err(HarrawError::InvalidQuoteChar)
                    }
                },
                _ => Ok((path, 34u8)),
            }
        },
        _ => Err(HarrawError::UnsupportedSource),
    }
}

/// The steps that the generator makes of the rows in `order`.
pub fn hrw_expand_ordered(item: &Node, order: &Vec<Node>) -> (r: Result<
    Vec<HarrawStep>,
    HarrawError,
>)
    ensures
        steps_result(r) == picked_requests(item@, order.deep_view()),
{
    let pick = hrw_pick(item, order)?;
    Ok(hrw_emit(item, order, pick))
}

/// The steps that `item`, which stands in the file at `parent_path`, expands to.
pub fn hrw_generate(parent_path: &str, item: &Node, sources: &Vec<HarrawSource>) -> (r: Result<
    Vec<HarrawStep>,
    HarrawError,
>)
    ensures
        csv_yields(sources.deep_view(), parent_path@, item@, steps_result(r)),
{
    let (path, quote) = hrw_csv_target(item)?;
    if hrw_has_interpolation(path.as_str()) {
        return Err(HarrawError::InterpolationForbidden(Property::CsvFile));
    }
    let found = match hrw_source_beside(sources, SourceKind::Csv(quote), parent_path, path.as_str()) {
        Some(found) => found,
        None => {
            return Err(
                HarrawError::MissingSource(SourceKind::Csv(quote), parent_path.to_owned(), path),
            );
        },
    };
    let order = hrw_arrange(&found.items, hrw_wants_shuffle(item));
    let r = hrw_expand_ordered(item, &order);
    proof {
        let out = steps_result(r);
        let seen = source_beside(sources.deep_view(), SourceKind::Csv(quote), parent_path@, path@);
        assert(csv_target(item@)->Ok_0 == (path@, quote));
        assert(seen->0.items == found.items.deep_view());
        assert(is_order_of(order.deep_view(), seen->0.items, wants_shuffle(item@)));
        assert(out == picked_requests(item@, order.deep_view()));
    }
    r
}

/// Appends the steps that `item`, which stands in the file at `parent_path`,
/// expands to.
pub fn hrw_expand(
    parent_path: &str,
    item: &Node,
    benchmark: &mut Vec<HarrawStep>,
    sources: &Vec<HarrawSource>,
) -> (r: Result<(), HarrawError>)
    ensures
        kept(old(benchmark).deep_view(), final(benchmark).deep_view(), r),
        csv_yields(
            sources.deep_view(),
            parent_path@,
            item@,
            appended(old(benchmark).deep_view(), final(benchmark).deep_view(), r),
        ),
{
    hrw_splice(benchmark, hrw_generate(parent_path, item, sources))
}

} // verus!
