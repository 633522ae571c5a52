//! Tables of text.

use vstd::prelude::*;

use crate::text::views;

verus! {

/// The text of a table that `comfy_table` draws from a header and rows, in its default style.
pub uninterp spec fn table_text(header: Seq<Seq<char>>, rows: Seq<Seq<Seq<char>>>) -> Seq<char>;

/// The views of the rows of a table.
pub open spec fn row_views(rows: Seq<Vec<String>>) -> Seq<Seq<Seq<char>>> {
    rows.map_values(|row: Vec<String>| views(row@))
}

/// Calls `comfy_table::Table` with its default settings, its `set_header`, `add_rows` and
/// `to_string`. Without styles and with the content arrangement disabled, the text is a function of
/// the header and the rows, named `table_text`.
#[verifier::external_body]
pub(crate) fn draw_table(header: Vec<String>, rows: Vec<Vec<String>>) -> (text: String)
    ensures
        text@ == table_text(views(header@), row_views(rows@)),
{
    let mut table = comfy_table::Table::new();
    table.set_header(header).add_rows(rows);
    table.to_string()
}

} // verus!
