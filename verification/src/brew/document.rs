//! Writing installed formulae and casks into the `[brew]` table of a
//! configuration document, with the `toml_edit` crate, which keeps the rest
//! of the document as it was written.
use vstd::prelude::*;

verus! {

#[verifier::external_type_specification]
#[verifier::external_body]
pub struct ExDocumentMut(toml_edit::DocumentMut);

/// A `toml_edit` document and the text it displays as. Its fields are
/// private, so that only the functions of this module build and change one:
/// the text is always the document's `Display`.
pub struct EditDoc {
    doc: toml_edit::DocumentMut,
    shown: String,
}

impl View for EditDoc {
    type V = Seq<char>;

    /// The text the document displays as.
    closed spec fn view(&self) -> Seq<char> {
        self.shown@
    }
}

/// Whether `toml_edit` reads a text as a document.
pub uninterp spec fn edit_parses(text: Seq<char>) -> bool;

/// The text the document `toml_edit` reads from a text displays as.
pub uninterp spec fn edit_display(text: Seq<char>) -> Seq<char>;

/// What the document displayed as `doc` holds at the top-level `key`
/// (`Table::get`): 0 for nothing, 1 for a table, 2 for anything else (a
/// value, an inline table, an array of tables).
pub uninterp spec fn item_kind(doc: Seq<char>, key: Seq<char>) -> u8;

/// The text of the document displayed as `doc` once `Table::insert` puts an
/// empty table at the top-level `key`.
pub uninterp spec fn with_table(doc: Seq<char>, key: Seq<char>) -> Seq<char>;

/// The text of the document displayed as `doc` once its table `table` has
/// `key` set (`IndexMut`) to an array of the given strings.
pub uninterp spec fn with_array(doc: Seq<char>, table: Seq<char>, key: Seq<char>, items: Seq<Seq<char>>) -> Seq<char>;

pub open spec fn strings_view(items: Seq<String>) -> Seq<Seq<char>> {
    items.map_values(|s: String| s@)
}

/// `FromStr` of `toml_edit::DocumentMut`, then its `Display`. Claimed:
/// success and the displayed text depend on the text alone.
#[verifier::external_body]
fn parse_document(text: &str) -> (r: Option<EditDoc>)
    ensures
        r is Some <==> edit_parses(text@),
        r matches Some(d) ==> d@ == edit_display(text@),
{
    match text.parse::<toml_edit::DocumentMut>() {
        Ok(doc) => {
            let shown = doc.to_string();
            Some(EditDoc { doc, shown })
        },
        Err(_) => None,
    }
}

/// `toml_edit::DocumentMut::new`: an empty document, which displays as
/// nothing.
#[verifier::external_body]
fn new_document() -> (r: EditDoc)
    ensures
        r@ == Seq::<char>::empty(),
{
    EditDoc { doc: toml_edit::DocumentMut::new(), shown: String::new() }
}

/// `Table::get` of a top-level key, told apart by the item's variant.
/// Claimed: the outcome depends on the document's text and the key alone,
/// and is one of the three.
#[verifier::external_body]
fn key_kind(d: &EditDoc, key: &str) -> (r: u8)
    ensures
        r == item_kind(d@, key@),
        r <= 2,
{
    match d.doc.get(key) {
        None => 0,
        Some(toml_edit::Item::Table(_)) => 1,
        Some(_) => 2,
    }
}

/// `Table::insert` of an empty table at a top-level key, then `Display`.
/// Claimed: the new text depends on the old text and the key alone, and the
/// key then holds a table.
#[verifier::external_body]
fn insert_table(d: &mut EditDoc, key: &str)
    ensures
        final(d)@ == with_table(old(d)@, key@),
        item_kind(final(d)@, key@) == 1,
{
    d.doc.insert(key, toml_edit::Item::Table(toml_edit::Table::new()));
    d.shown = d.doc.to_string();
}

/// `IndexMut` of a table, then of a key in it, assigned an array of the
/// strings; then `Display`. The table must hold a table (else `IndexMut`
/// panics). Claimed: the new text depends on the old text and the
/// arguments alone, and the table stays a table.
#[verifier::external_body]
fn set_array(d: &mut EditDoc, table: &str, key: &str, items: &Vec<String>)
    requires
        item_kind(old(d)@, table@) == 1,
    ensures
        final(d)@ == with_array(old(d)@, table@, key@, strings_view(items@)),
        item_kind(final(d)@, table@) == 1,
{
    d.doc[table][key] = toml_edit::Item::Value(toml_edit::Value::Array(items.iter().map(|s| s.as_str()).collect()));
    d.shown = d.doc.to_string();
}

/// The text a document displays as.
pub fn document_text(d: &EditDoc) -> (r: String)
    ensures
        r@ == d@,
{
    d.shown.clone()
}

/// Why a backup cannot be written into a configuration's text.
pub enum BackupError {
    /// The configuration's text is not a TOML document.
    Parse,
    /// The configuration's `brew` key holds something other than a table.
    BrewNotATable,
}

pub open spec fn brew_key() -> Seq<char> {
    "brew"@
}

/// The text a backup starts from: the existing document's, or an empty one.
pub open spec fn start_text(text: Option<Seq<char>>) -> Seq<char> {
    match text {
        Some(t) => edit_display(t),
        None => Seq::empty(),
    }
}

/// The text of a backup: `[brew]` added where the document has no `brew`,
/// then its `formulae` and its `casks` set to the installed ones.
pub open spec fn backup_text(start: Seq<char>, formulae: Seq<Seq<char>>, casks: Seq<Seq<char>>) -> Seq<char> {
    let s1 = if item_kind(start, brew_key()) == 0 { with_table(start, brew_key()) } else { start };
    with_array(with_array(s1, brew_key(), "formulae"@, formulae), brew_key(), "casks"@, casks)
}

/// The configuration's text with `[brew]`'s `formulae` and `casks` set to
/// the installed ones: the existing text where there is one, else an empty
/// document, with `[brew]` added where it is missing. Fails where the
/// existing text does not parse, or where its `brew` is not a table.
pub fn backup_document(text: Option<&str>, formulae: &Vec<String>, casks: &Vec<String>) -> (r: Result<String, BackupError>)
    ensures
        (r matches Err(BackupError::Parse)) <==> (text matches Some(t) && !edit_parses(t@)),
        ({
            let given = match text { Some(t) => Some(t@), None => None };
            let parses = match text { Some(t) => edit_parses(t@), None => true };
            &&& (r matches Err(BackupError::BrewNotATable)) <==> (parses && item_kind(start_text(given), brew_key()) == 2)
            &&& parses && item_kind(start_text(given), brew_key()) != 2 ==> (r matches Ok(s)
                && s@ == backup_text(start_text(given), strings_view(formulae@), strings_view(casks@)))
        }),
{
    let mut doc = match text {
        Some(t) => match parse_document(t) {
            Some(d) => d,
            None => return Err(BackupError::Parse),
        },
        None => new_document(),
    };
    proof {
        reveal_strlit("brew");
    }
    let kind = key_kind(&doc, "brew");
    if kind == 2 {
        return Err(BackupError::BrewNotATable);
    }
    if kind == 0 {
        insert_table(&mut doc, "brew");
    }
    set_array(&mut doc, "brew", "formulae", formulae);
    set_array(&mut doc, "brew", "casks", casks);
    Ok(document_text(&doc))
}

} // verus!
