//! Drawing a table: the records go to the table library, which lays them out.

use vstd::prelude::*;
use crate::output::tab::TabStyle;
use crate::text::push_str;

verus! {

/// `tabled::builder::Builder`: the records of a table in the making.
#[verifier::external_type_specification]
#[verifier::external_body]
pub struct ExBuilder(tabled::builder::Builder);

/// `tabled::Table`: a table with its records and its looks. Nothing is
/// known of what it draws.
#[verifier::external_type_specification]
#[verifier::external_body]
pub struct ExTable(tabled::Table);

/// The number of cells in the first record that a builder holds; zero where
/// it holds no record. A table that is built from the builder has as many
/// columns.
pub uninterp spec fn builder_columns(builder: tabled::builder::Builder) -> nat;

/// The number of columns of a table: the number of cells in its first row,
/// and zero where it has no row.
pub uninterp spec fn table_columns(table: tabled::Table) -> nat;

/// A builder without records; the call is `tabled::builder::Builder::default`.
#[verifier::external_body]
pub(crate) fn new_builder() -> (builder: tabled::builder::Builder)
    ensures
        builder_columns(builder) == 0,
{
    tabled::builder::Builder::default()
}

/// Adds a record; the call is `tabled::builder::Builder::push_record`. The
/// claim: the first record does not lose cells, and a record that comes first
/// is held with all its cells.
#[verifier::external_body]
pub(crate) fn push_record(builder: &mut tabled::builder::Builder, record: Vec<String>)
    ensures
        builder_columns(*final(builder)) >= builder_columns(*old(builder)),
        builder_columns(*old(builder)) == 0 ==> builder_columns(*final(builder)) >= record@.len(),
{
    builder.push_record(record)
}

/// The table of the records; the call is `tabled::builder::Builder::build`.
/// The claim: the table has the columns of the builder's first record.
#[verifier::external_body]
pub(crate) fn build_table(builder: tabled::builder::Builder) -> (table: tabled::Table)
    ensures
        table_columns(table) == builder_columns(builder),
{
    builder.build()
}

/// Gives the table the style `tabled::settings::Style::rounded`; the records of
/// the table stay as they are.
#[verifier::external_body]
pub(crate) fn style_rounded(table: &mut tabled::Table)
    ensures
        table_columns(*final(table)) == table_columns(*old(table)),
{
    table.with(tabled::settings::Style::rounded());
}

/// Gives the table the style `tabled::settings::Style::modern`; the records of
/// the table stay as they are.
#[verifier::external_body]
pub(crate) fn style_modern(table: &mut tabled::Table)
    ensures
        table_columns(*final(table)) == table_columns(*old(table)),
{
    table.with(tabled::settings::Style::modern());
}

/// Gives the table the style `tabled::settings::Style::modern_rounded`; the records of
/// the table stay as they are.
#[verifier::external_body]
pub(crate) fn style_modern_rounded(table: &mut tabled::Table)
    ensures
        table_columns(*final(table)) == table_columns(*old(table)),
{
    table.with(tabled::settings::Style::modern_rounded());
}

/// Gives the table the style `tabled::settings::Style::ascii`; the records of
/// the table stay as they are.
#[verifier::external_body]
pub(crate) fn style_ascii(table: &mut tabled::Table)
    ensures
        table_columns(*final(table)) == table_columns(*old(table)),
{
    table.with(tabled::settings::Style::ascii());
}

/// Gives the table the style `tabled::settings::Style::ascii_rounded`; the records of
/// the table stay as they are.
#[verifier::external_body]
pub(crate) fn style_ascii_rounded(table: &mut tabled::Table)
    ensures
        table_columns(*final(table)) == table_columns(*old(table)),
{
    table.with(tabled::settings::Style::ascii_rounded());
}

/// Gives the table the style `tabled::settings::Style::psql`; the records of
/// the table stay as they are.
#[verifier::external_body]
pub(crate) fn style_psql(table: &mut tabled::Table)
    ensures
        table_columns(*final(table)) == table_columns(*old(table)),
{
    table.with(tabled::settings::Style::psql());
}

/// Gives the table the style `tabled::settings::Style::markdown`; the records of
/// the table stay as they are.
#[verifier::external_body]
pub(crate) fn style_markdown(table: &mut tabled::Table)
    ensures
        table_columns(*final(table)) == table_columns(*old(table)),
{
    table.with(tabled::settings::Style::markdown());
}

/// Gives the table the style `tabled::settings::Style::extended`; the records of
/// the table stay as they are.
#[verifier::external_body]
pub(crate) fn style_extended(table: &mut tabled::Table)
    ensures
        table_columns(*final(table)) == table_columns(*old(table)),
{
    table.with(tabled::settings::Style::extended());
}

/// Gives the table the style `tabled::settings::Style::sharp`; the records of
/// the table stay as they are.
#[verifier::external_body]
pub(crate) fn style_sharp(table: &mut tabled::Table)
    ensures
        table_columns(*final(table)) == table_columns(*old(table)),
{
    table.with(tabled::settings::Style::sharp());
}

/// Gives the table the style `tabled::settings::Style::dots`; the records of
/// the table stay as they are.
#[verifier::external_body]
pub(crate) fn style_dots(table: &mut tabled::Table)
    ensures
        table_columns(*final(table)) == table_columns(*old(table)),
{
    table.with(tabled::settings::Style::dots());
}

/// Gives the table the style `tabled::settings::Style::re_structured_text`; the records of
/// the table stay as they are.
#[verifier::external_body]
pub(crate) fn style_re_structured_text(table: &mut tabled::Table)
    ensures
        table_columns(*final(table)) == table_columns(*old(table)),
{
    table.with(tabled::settings::Style::re_structured_text());
}

/// Gives the table the style `tabled::settings::Style::blank`; the records of
/// the table stay as they are.
#[verifier::external_body]
pub(crate) fn style_blank(table: &mut tabled::Table)
    ensures
        table_columns(*final(table)) == table_columns(*old(table)),
{
    table.with(tabled::settings::Style::blank());
}

/// Gives the table the style `tabled::settings::Style::empty`; the records of
/// the table stay as they are.
#[verifier::external_body]
pub(crate) fn style_empty(table: &mut tabled::Table)
    ensures
        table_columns(*final(table)) == table_columns(*old(table)),
{
    table.with(tabled::settings::Style::empty());
}

/// Sets the columns `from..to` flush right; the calls are
/// `tabled::settings::Modify::new` over `tabled::settings::object::Columns::new`,
/// with `tabled::settings::Alignment::right`.
#[verifier::external_body]
pub(crate) fn align_right(table: &mut tabled::Table, from: usize, to: usize) {
    table.with(
        tabled::settings::Modify::new(tabled::settings::object::Columns::new(from..to)).with(
            tabled::settings::Alignment::right(),
        ),
    );
}

/// Puts a row with `text` above the table; the call is
/// `tabled::settings::Panel::header`, which writes the text into the first
/// cell of the new row. The table must have a column for it.
#[verifier::external_body]
pub(crate) fn panel_header(table: &mut tabled::Table, text: &str)
    requires
        table_columns(*old(table)) > 0,
{
    table.with(tabled::settings::Panel::header(text));
}

/// Writes `text` into the top border, `offset` places in; the call is
/// `tabled::settings::style::LineText::new` on the first row, with `offset`.
#[verifier::external_body]
pub(crate) fn line_text(table: &mut tabled::Table, text: String, offset: usize) {
    table.with(
        tabled::settings::style::LineText::new(text, tabled::settings::object::Rows::first()).offset(
            offset,
        ),
    );
}

/// The table as text; the call is its `Display` impl, by way of `format!`.
#[verifier::external_body]
pub(crate) fn table_text(table: &tabled::Table) -> String {
    format!("{table}")
}

/// Gives the table the look that `style` names. The records of the table
/// stay as they are.
pub fn apply_style(table: &mut tabled::Table, style: TabStyle)
    ensures
        table_columns(*final(table)) == table_columns(*old(table)),
{
    match style {
        TabStyle::Rounded => style_rounded(table),
        TabStyle::Modern => style_modern(table),
        TabStyle::ModernRounded => style_modern_rounded(table),
        TabStyle::Ascii => style_ascii(table),
        TabStyle::AsciiRounded => style_ascii_rounded(table),
        TabStyle::Psql => style_psql(table),
        TabStyle::Markdown => style_markdown(table),
        TabStyle::Extended => style_extended(table),
        TabStyle::Sharp => style_sharp(table),
        TabStyle::Dots => style_dots(table),
        TabStyle::ReStructuredText => style_re_structured_text(table),
        TabStyle::Blank => style_blank(table),
        TabStyle::Empty => style_empty(table),
    }
}

/// A title as it is written: with a blank on either side.
pub open spec fn title_text(title: Seq<char>) -> Seq<char> {
    " "@ + title + " "@
}

/// Computes `title_text`.
pub fn padded_title(title: &str) -> (r: String)
    ensures
        r@ == title_text(title@),
{
    let mut r = String::new();
    push_str(&mut r, " ");
    push_str(&mut r, title);
    push_str(&mut r, " ");
    assert(r@ =~= title_text(title@));
    r
}

/// Writes the title into the top border of the table, one place in.
pub fn apply_title_line(table: &mut tabled::Table, title: &str) {
    line_text(table, padded_title(title), 1);
}

/// What a section of the report shows: a title, and under it the records, of
/// which the first names the columns; some columns hold numbers and are set
/// flush right. A section with nothing to show has no records.
#[derive(Debug, Clone)]
pub struct Section {
    pub title: String,
    pub records: Vec<Vec<String>>,
    pub right_columns: Vec<usize>,
}

/// The cells of a list of records.
pub open spec fn cells_of(records: Seq<Vec<String>>) -> Seq<Seq<Seq<char>>> {
    records.map_values(|r: Vec<String>| crate::types::views(r@))
}

/// A section as a table. A section without records is drawn as the one cell
/// `(none)` under its title.
pub fn render_section(section: Section, style: TabStyle) -> String {
    let mut builder = new_builder();
    if section.records.len() == 0 {
        let mut cell: Vec<String> = Vec::new();
        cell.push("(none)".to_owned());
        push_record(&mut builder, cell);
        let mut table = build_table(builder);
        apply_style(&mut table, style);
        let title = padded_title(section.title.as_str());
        panel_header(&mut table, title.as_str());
        return table_text(&table);
    }
    let mut records = section.records;
    let total = records.len();
    let mut done: usize = 0;
    while done < total
        invariant
            done <= total,
            records.len() == total - done,
        decreases total - done,
    {
        let record = records.remove(0);
        push_record(&mut builder, record);
        done += 1;
    }
    let mut table = build_table(builder);
    apply_style(&mut table, style);
    let mut i: usize = 0;
    while i < section.right_columns.len()
        invariant
            i <= section.right_columns.len(),
        decreases section.right_columns.len() - i,
    {
        let column = section.right_columns[i];
        align_right(&mut table, column, column.saturating_add(1));
        i += 1;
    }
    apply_title_line(&mut table, section.title.as_str());
    table_text(&table)
}

} // verus!
