//! The Help Renderer: the two reference tables shown for `fw -help`.
use vstd::prelude::*;
use comfy_table::Table;

verus! {

#[verifier::external_type_specification]
#[verifier::external_body]
pub struct ExTable(comfy_table::Table);

/// The cells of a table's header row, empty while none is set.
pub uninterp spec fn table_header(t: Table) -> Seq<Seq<char>>;

/// The cells of each data row of a table, in the order they were added.
pub uninterp spec fn table_rows(t: Table) -> Seq<Seq<Seq<char>>>;

/// Relies on comfy_table's `Table::new`: a table with no header and no rows.
#[verifier::external_body]
fn new_table() -> (t: Table)
    ensures
        table_header(t) == Seq::<Seq<char>>::empty(),
        table_rows(t) == Seq::<Seq<Seq<char>>>::empty(),
{
    Table::new()
}

/// Relies on comfy_table's `Table::set_header`: the header becomes one cell
/// per string, the rows stay.
#[verifier::external_body]
fn set_table_header(t: &mut Table, cells: Vec<String>)
    ensures
        table_header(*final(t)) == texts(cells@),
        table_rows(*final(t)) == table_rows(*old(t)),
{
    t.set_header(cells);
}

/// Relies on comfy_table's `Table::add_row`: one row, one cell per string,
/// goes after the others; the header stays.
#[verifier::external_body]
fn add_table_row(t: &mut Table, cells: Vec<String>)
    ensures
        table_header(*final(t)) == table_header(*old(t)),
        table_rows(*final(t)) == table_rows(*old(t)).push(texts(cells@)),
{
    t.add_row(cells);
}

/// The text of each string.
pub open spec fn texts(v: Seq<String>) -> Seq<Seq<char>> {
    v.map_values(|s: String| s@)
}

pub open spec fn commands_header() -> Seq<Seq<char>> {
    seq!["Komut"@, "Komut Açıklaması"@]
}

pub open spec fn commands_rows() -> Seq<Seq<Seq<char>>> {
    seq![
        seq!["fw"@, "Komut satırı uygulaması olan 'Find Word' uygulamasını çalıştırır."@],
        seq!["-f"@, "Hedef dosyayı belirtir."@],
        seq!["-w"@, "Hedef kelimeyi belirtir."@],
    ]
}

pub open spec fn shortcuts_header() -> Seq<Seq<char>> {
    seq!["Kısa Yol"@, "Kısa Yol Açıklaması"@, "Örnek Kullanım"@]
}

pub open spec fn shortcuts_rows() -> Seq<Seq<Seq<char>>> {
    seq![seq!["desk/"@, "Masaüstü yolu için bir kısa yoldur."@, "desk/a.txt"@]]
}

/// A row of two cells.
fn pair(a: &str, b: &str) -> (r: Vec<String>)
    ensures
        texts(r@) == seq![a@, b@],
{
    let mut v: Vec<String> = Vec::new();
    v.push(String::from_str(a));
    v.push(String::from_str(b));
    assert(texts(v@) =~= seq![a@, b@]);
    v
}

/// A row of three cells.
fn triple(a: &str, b: &str, c: &str) -> (r: Vec<String>)
    ensures
        texts(r@) == seq![a@, b@, c@],
{
    let mut v: Vec<String> = Vec::new();
    v.push(String::from_str(a));
    v.push(String::from_str(b));
    v.push(String::from_str(c));
    assert(texts(v@) =~= seq![a@, b@, c@]);
    v
}

/// Builds the commands table and the shortcuts table.
pub fn create_table() -> (r: Result<(Table, Table), ()>)
    ensures
        r matches Ok((c, s)) && table_header(c) == commands_header() && table_rows(c)
            == commands_rows() && table_header(s) == shortcuts_header() && table_rows(s)
            == shortcuts_rows(),
{
    let mut commands_table = new_table();
    set_table_header(&mut commands_table, pair("Komut", "Komut Açıklaması"));
    add_table_row(
        &mut commands_table,
        pair("fw", "Komut satırı uygulaması olan 'Find Word' uygulamasını çalıştırır."),
    );
    add_table_row(&mut commands_table, pair("-f", "Hedef dosyayı belirtir."));
    add_table_row(&mut commands_table, pair("-w", "Hedef kelimeyi belirtir."));

    let mut short_cuts_table = new_table();
    set_table_header(
        &mut short_cuts_table,
        triple("Kısa Yol", "Kısa Yol Açıklaması", "Örnek Kullanım"),
    );
    add_table_row(
        &mut short_cuts_table,
        triple("desk/", "Masaüstü yolu için bir kısa yoldur.", "desk/a.txt"),
    );
    assert(table_rows(commands_table) =~= commands_rows());
    assert(table_rows(short_cuts_table) =~= shortcuts_rows());
    Ok((commands_table, short_cuts_table))
}

} // verus!
