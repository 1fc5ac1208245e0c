//! `ls`: the permission string and the table of a long listing.
use vstd::prelude::*;
use tabular::{Row, Table};
use crate::text::{int_string, int_text, string_views};

verus! {

/// The letter for permission bit `8 - i` of `rwxrwxrwx`.
pub open spec fn mode_letter(i: int) -> char {
    if i % 3 == 0 {
        'r'
    } else if i % 3 == 1 {
        'w'
    } else {
        'x'
    }
}

/// Whether bit `b` of `mode` is set.
pub open spec fn bit_set(mode: u32, b: u32) -> bool {
    (mode >> b) & 1u32 == 1u32
}

/// The nine permission characters of `mode`, owner first: a letter where the
/// bit is set, `-` where it is not.
pub open spec fn mode_text(mode: u32) -> Seq<char> {
    Seq::new(
        9,
        |i: int|
            if bit_set(mode, (8 - i) as u32) {
                mode_letter(i)
            } else {
                '-'
            },
    )
}

/// Formats the permission bits of `mode` as `rwxr-xr-x`.
pub fn format_mode(mode: u32) -> (r: String)
    ensures
        r@ == mode_text(mode),
{
    let mut out: Vec<char> = Vec::new();
    let mut i: u32 = 0;
    while i < 9
        invariant
            i <= 9,
            out@ == mode_text(mode).subrange(0, i as int),
        decreases 9 - i,
    {
        let b: u32 = 8 - i;
        let set = (mode >> b) & 1u32 == 1u32;
        let c = if !set {
            '-'
        } else if i % 3 == 0 {
            'r'
        } else if i % 3 == 1 {
            'w'
        } else {
            'x'
        };
        out.push(c);
        i = i + 1;
        assert(out@ =~= mode_text(mode).subrange(0, i as int));
    }
    crate::text::string_of(out.as_slice())
}

/// What `ls -l` shows of one entry.
#[derive(Debug)]
pub struct EntryInfo {
    pub is_dir: bool,
    pub mode: u32,
    pub nlink: u64,
    pub user: String,
    pub group: String,
    pub size: u64,
    pub modified: String,
    pub path: String,
}

/// The column layout of a long listing, in tabular's notation.
pub open spec fn listing_spec() -> Seq<char> {
    "{:<}{:<}  {:>} {:<}  {:<}  {:>} {:<} {:<}"@
}

/// What tabular's `Table` writes for the column layout `spec` and these
/// rows of cells.
pub uninterp spec fn table_text(spec: Seq<char>, rows: Seq<Seq<Seq<char>>>) -> Seq<char>;

pub open spec fn row_views(rows: Seq<Vec<String>>) -> Seq<Seq<Seq<char>>> {
    rows.map_values(|r: Vec<String>| string_views(r@))
}

/// Relies on tabular's `Table::new`, `Row::from_cells`, `Table::add_row` and
/// `Display for Table`: the text depends on the layout and the cells alone.
/// `Table::new` panics on a layout it cannot parse and `add_row` on a row of
/// the wrong length, so only the listing layout and rows of its eight cells
/// are admitted.
#[verifier::external_body]
fn render_table(spec: &str, rows: &Vec<Vec<String>>) -> (r: String)
    requires
        spec@ == listing_spec(),
        forall|i: int| 0 <= i < rows@.len() ==> (#[trigger] rows@[i])@.len() == 8,
    ensures
        r@ == table_text(spec@, row_views(rows@)),
{
    let mut table = Table::new(spec);
    for row in rows {
        table.add_row(Row::from_cells(row.iter().cloned()));
    }
    format!("{}", table)
}

/// The cells of one entry: its kind, permissions, link count, owner, group,
/// size, modification time and path.
pub open spec fn entry_cells(e: EntryInfo) -> Seq<Seq<char>> {
    seq![
        if e.is_dir {
            seq!['d']
        } else {
            seq!['-']
        },
        mode_text(e.mode),
        int_text(e.nlink as int),
        e.user@,
        e.group@,
        int_text(e.size as int),
        e.modified@,
        e.path@
    ]
}

fn entry_row(e: &EntryInfo) -> (r: Vec<String>)
    ensures
        r@.len() == 8,
        string_views(r@) == entry_cells(*e),
{
    let mut r: Vec<String> = Vec::new();
    let kind = if e.is_dir {
        String::from_str("d")
    } else {
        String::from_str("-")
    };
    proof {
        reveal_strlit("d");
        reveal_strlit("-");
        assert("d"@ =~= seq!['d']);
        assert("-"@ =~= seq!['-']);
    }
    assert(kind@ == (if e.is_dir {
        seq!['d']
    } else {
        seq!['-']
    }));
    r.push(kind);
    r.push(format_mode(e.mode));
    r.push(int_string(e.nlink as i128));
    r.push(e.user.clone());
    r.push(e.group.clone());
    r.push(int_string(e.size as i128));
    r.push(e.modified.clone());
    r.push(e.path.clone());
    assert(string_views(r@) =~= entry_cells(*e));
    r
}

/// The long listing of the entries, one row each, laid out by tabular.
pub fn format_output(entries: &[EntryInfo]) -> (r: String)
    ensures
        r@ == table_text(
            listing_spec(),
            Seq::new(entries@.len(), |i: int| entry_cells(entries@[i])),
        ),
{
    let mut rows: Vec<Vec<String>> = Vec::new();
    let mut i: usize = 0;
    while i < entries.len()
        invariant
            i <= entries.len(),
            rows@.len() == i,
            forall|j: int| 0 <= j < i ==> (#[trigger] rows@[j])@.len() == 8,
            forall|j: int| 0 <= j < i ==> string_views((#[trigger] rows@[j])@) == entry_cells(entries@[j]),
        decreases entries.len() - i,
    {
        rows.push(entry_row(&entries[i]));
        i = i + 1;
    }
    let spec = "{:<}{:<}  {:>} {:<}  {:<}  {:>} {:<} {:<}";
    assert(row_views(rows@) =~= Seq::new(entries@.len(), |i: int| entry_cells(entries@[i])));
    render_table(spec, &rows)
}

} // verus!
