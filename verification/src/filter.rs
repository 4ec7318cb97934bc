//! From an input line to an item. A line of plain text is its own key. With
//! a query, the line is read as JSON and the key is what the query selects
//! from it.

use vstd::prelude::*;
use vstd::string::StringExecFns;
use crate::decimal::{decimal_digits, push_decimal};
use crate::item::{Item, ItemView};
use crate::text::{has_substring, str_contains, text_view, trim_matches, trimmed};

verus! {

/// Why a line gave no item.
#[derive(Clone, Debug, PartialEq, Eq)]
pub enum ExtractionError {
    /// The line is no JSON; the text says where it stops being so.
    InvalidJson(String),
    /// The query cannot be read or selects nothing from the line; the text
    /// says why.
    FilterFailed(String),
}

/// An [`ExtractionError`] as contracts see it.
pub ghost enum ExtractionErrorView {
    InvalidJson(Seq<char>),
    FilterFailed(Seq<char>),
}

impl View for ExtractionError {
    type V = ExtractionErrorView;

    open spec fn view(&self) -> ExtractionErrorView {
        match self {
            ExtractionError::InvalidJson(cause) => ExtractionErrorView::InvalidJson(cause@),
            ExtractionError::FilterFailed(cause) => ExtractionErrorView::FilterFailed(cause@),
        }
    }
}

impl ExtractionErrorView {
    /// The error in words.
    pub open spec fn message_text(self) -> Seq<char> {
        match self {
            ExtractionErrorView::InvalidJson(cause) => "failed to parse item as json: "@ + cause,
            ExtractionErrorView::FilterFailed(cause) => "failed to apply filter on item: "@
                + cause,
        }
    }
}

impl ExtractionError {
    /// The error in words, with its cause.
    pub fn message(&self) -> (r: String)
        ensures
            r@ == self@.message_text(),
    {
        match self {
            ExtractionError::InvalidJson(cause) => {
                let mut text = String::from_str("failed to parse item as json: ");
                text.append(cause.as_str());
                text
            },
            ExtractionError::FilterFailed(cause) => {
                let mut text = String::from_str("failed to apply filter on item: ");
                text.append(cause.as_str());
                text
            },
        }
    }
}

/// What the query `filter` selects from the JSON text `item`, written as
/// JSON on one line, or why it selects nothing. A query may write indexes
/// that only a wide machine can hold, so the largest index of the machine,
/// `largest`, has a say too.
pub uninterp spec fn selected_json(filter: Seq<char>, item: Seq<char>, largest: nat) -> Result<
    Seq<char>,
    ExtractionErrorView,
>;

/// The view of what a selection gives.
pub open spec fn selection_view(r: Result<String, ExtractionError>) -> Result<
    Seq<char>,
    ExtractionErrorView,
> {
    match r {
        Ok(rendered) => Ok(rendered@),
        Err(e) => Err(e@),
    }
}

/// `filter` writes the largest index that the machine can hold.
pub open spec fn names_largest_index(filter: Seq<char>) -> bool {
    has_substring(filter, decimal_digits(usize::MAX as nat))
}

/// `runner::raw` of jql-runner, applied to the value that
/// `serde_json::from_str` reads from `item`; what it selects is written out
/// by `Value::to_string`. What comes back depends on the two texts, and on
/// the width of `usize` where the query writes an index, and is too long
/// to state, so it goes by the name [`selected_json`]. A text that is no
/// JSON gives `InvalidJson` with serde_json's message, a query that fails
/// gives `FilterFailed` with the error in its debug form. Where a query
/// has eight parts or more, `raw` works on them side by side and puts what
/// they give in the order of the parts. It adds 1 to the indexes of a
/// query, so a query that writes the largest `usize` is left out.
#[verifier::external_body]
fn select_json(filter: &str, item: &str) -> (r: Result<String, ExtractionError>)
    requires
        !names_largest_index(filter@),
    ensures
        selection_view(r) == selected_json(filter@, item@, usize::MAX as nat),
{
    let input: serde_json::Value = match serde_json::from_str(item) {
        Ok(input) => input,
        Err(e) => return Err(ExtractionError::InvalidJson(e.to_string())),
    };
    match jql_runner::runner::raw(filter, &input) {
        Ok(value) => Ok(value.to_string()),
        Err(e) => Err(ExtractionError::FilterFailed(format!("{e:?}"))),
    }
}

/// Whether `filter` writes the largest index that the machine can hold.
/// Such a query cannot be run: see [`Filter::to_item`].
pub fn writes_largest_index(filter: &str) -> (r: bool)
    ensures
        r == names_largest_index(filter@),
{
    let mut largest = String::new();
    push_decimal(&mut largest, usize::MAX as u64);
    assert(largest@ == decimal_digits(usize::MAX as nat));
    str_contains(filter, largest.as_str())
}

/// The item for the line `item` whose selection was written out as
/// `rendered`: its key is `rendered` without the double quotes around it,
/// its value is the line.
pub fn keyed_item(rendered: &str, item: String) -> (r: Item)
    ensures
        r@ == (ItemView { key: trimmed(rendered@, '"'), value: item@ }),
{
    Item { key: trim_matches(rendered, '"'), value: item }
}

/// Turns input lines into items, by a query or as plain text.
pub struct Filter {
    filter: Option<String>,
}

impl Filter {
    /// The query, if lines are read as JSON.
    pub closed spec fn query(&self) -> Option<Seq<char>> {
        text_view(self.filter)
    }

    /// Whether [`Filter::to_item`] can be called: the query, if there is
    /// one, does not write the largest index that the machine can hold.
    pub open spec fn runs(&self) -> bool {
        match self.query() {
            Some(filter) => !names_largest_index(filter),
            None => true,
        }
    }

    /// What [`Filter::to_item`] gives for the line `item`.
    pub open spec fn item_of(&self, item: Seq<char>) -> Result<ItemView, ExtractionErrorView> {
        match self.query() {
            None => Ok(ItemView { key: item, value: item }),
            Some(filter) => match selected_json(filter, item, usize::MAX as nat) {
                Ok(rendered) => Ok(ItemView { key: trimmed(rendered, '"'), value: item }),
                Err(e) => Err(e),
            },
        }
    }

    /// A filter that selects keys by the query `filter`, or takes lines as
    /// plain text where there is none.
    pub fn new(filter: &Option<String>) -> (r: Self)
        ensures
            r.query() == text_view(*filter),
    {
        Self {
            filter: match filter {
                Some(filter) => Some(filter.clone()),
                None => None,
            },
        }
    }

    /// Whether [`Filter::to_item`] can be called.
    pub fn can_run(&self) -> (r: bool)
        ensures
            r == self.runs(),
    {
        match &self.filter {
            Some(filter) => !writes_largest_index(filter.as_str()),
            None => true,
        }
    }

    /// The item for the input line `item`. Without a query the line is its
    /// own key. With a query the line is read as JSON, and the key is what
    /// the query selects, without the double quotes around it; a line that
    /// is no JSON and a query that selects nothing give an error.
    pub fn to_item(&self, item: String) -> (r: Result<Item, ExtractionError>)
        requires
            self.runs(),
        ensures
            match self.item_of(item@) {
                Ok(expected) => r matches Ok(found) && found@ == expected,
                Err(expected) => r matches Err(e) && e@ == expected,
            },
    {
        match &self.filter {
            Some(filter) => {
                match select_json(filter.as_str(), item.as_str()) {
                    Ok(rendered) => Ok(keyed_item(rendered.as_str(), item)),
                    Err(e) => Err(e),
                }
            },
            None => Ok(Item::plain(item)),
        }
    }
}

} // verus!
