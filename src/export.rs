//! The backup and selection exports.
use vstd::prelude::*;
use crate::text::{newlines_to_spaces, replace_newlines};
use crate::types::{rows_view, PackageRow, PackageState, RowView};

verus! {

/// The header row of a backup table.
pub open spec fn backup_header() -> Seq<Seq<char>> {
    seq!["Package Name"@, "Description"@]
}

/// The data rows of a backup: one per uninstalled record, in order, holding
/// its name and its description with newlines turned into spaces.
pub open spec fn uninstalled_rows(rows: Seq<RowView>) -> Seq<Seq<Seq<char>>>
    decreases rows.len(),
{
    if rows.len() == 0 {
        Seq::empty()
    } else if rows.last().state == PackageState::Uninstalled {
        uninstalled_rows(rows.drop_last()).push(
            seq![rows.last().name, newlines_to_spaces(rows.last().description)],
        )
    } else {
        uninstalled_rows(rows.drop_last())
    }
}

/// The whole backup table: the header, then the data rows.
pub open spec fn backup_table_of(rows: Seq<RowView>) -> Seq<Seq<Seq<char>>> {
    seq![backup_header()] + uninstalled_rows(rows)
}

/// Whether a field must be quoted: it holds a comma, a quote, `\r` or `\n`.
pub open spec fn needs_quotes(f: Seq<char>) -> bool {
    f.contains(',') || f.contains('"') || f.contains('\r') || f.contains('\n')
}

/// `f` with every quote doubled.
pub open spec fn double_quotes(f: Seq<char>) -> Seq<char>
    decreases f.len(),
{
    if f.len() == 0 {
        f
    } else if f.last() == '"' {
        double_quotes(f.drop_last()) + seq!['"', '"']
    } else {
        double_quotes(f.drop_last()).push(f.last())
    }
}

/// A field as written: quoted, with quotes doubled, where it must be.
pub open spec fn csv_field(f: Seq<char>) -> Seq<char> {
    if needs_quotes(f) {
        seq!['"'] + double_quotes(f) + seq!['"']
    } else {
        f
    }
}

/// The written fields joined by commas.
pub open spec fn csv_fields(fields: Seq<Seq<char>>) -> Seq<char>
    decreases fields.len(),
{
    if fields.len() == 0 {
        Seq::empty()
    } else if fields.len() == 1 {
        csv_field(fields[0])
    } else {
        csv_fields(fields.drop_last()) + seq![','] + csv_field(fields.last())
    }
}

/// The text of one record: its fields, or `""` where they come to nothing,
/// then a newline.
pub open spec fn csv_line(fields: Seq<Seq<char>>) -> Seq<char> {
    let body = csv_fields(fields);
    (if body.len() == 0 { seq!['"', '"'] } else { body }).push('\n')
}

/// The bytes of one record: the UTF-8 encoding of its text.
pub open spec fn csv_record_of(fields: Seq<Seq<char>>) -> Seq<u8> {
    vstd::utf8::encode_utf8(csv_line(fields))
}

/// The bytes of a table: its records written one after the other.
pub open spec fn csv_of(table: Seq<Seq<Seq<char>>>) -> Seq<u8>
    decreases table.len(),
{
    if table.len() == 0 {
        Seq::empty()
    } else {
        csv_of(table.drop_last()) + csv_record_of(table.last())
    }
}

/// The names of the selected records, in order.
pub open spec fn selected_names(rows: Seq<RowView>) -> Seq<Seq<char>>
    decreases rows.len(),
{
    if rows.len() == 0 {
        Seq::empty()
    } else if rows.last().selected {
        selected_names(rows.drop_last()).push(rows.last().name)
    } else {
        selected_names(rows.drop_last())
    }
}

/// The names joined by single newlines, with none after the last.
pub open spec fn join_lines(names: Seq<Seq<char>>) -> Seq<char>
    decreases names.len(),
{
    if names.len() == 0 {
        Seq::empty()
    } else if names.len() == 1 {
        names[0]
    } else {
        join_lines(names.drop_last()) + seq!['\n'] + names.last()
    }
}

/// The character sequences of a row of strings.
pub open spec fn fields_view(v: Seq<String>) -> Seq<Seq<char>> {
    v.map_values(|s: String| s@)
}

/// The character sequences of a table of strings.
pub open spec fn table_view(v: Seq<Vec<String>>) -> Seq<Seq<Seq<char>>> {
    v.map_values(|r: Vec<String>| fields_view(r@))
}

/// Relies on `csv::Writer::from_writer`, `write_record` and `into_inner`: the
/// bytes of one record in the crate's default dialect (comma, `"` doubled,
/// quotes only where needed, `\n` after each record, `""` for a record that
/// writes nothing else). Written as the first
/// record of a fresh writer into a `Vec<u8>`, it meets no field-count check
/// and no failing write, so it succeeds.
#[verifier::external_body]
fn csv_record(fields: &Vec<String>) -> (r: Result<Vec<u8>, String>)
    ensures
        r is Ok,
        r is Ok ==> r->Ok_0@ == csv_record_of(fields_view(fields@)),
{
    let mut wtr = csv::Writer::from_writer(Vec::new());
    wtr.write_record(fields).map_err(|e| e.to_string())?;
    wtr.into_inner().map_err(|e| e.to_string())
}

/// The backup table of `packages`: the header row, then the name and the
/// single-line description of each uninstalled package, in order.
pub fn backup_table(packages: &Vec<PackageRow>) -> (r: Vec<Vec<String>>)
    ensures
        table_view(r@) == backup_table_of(rows_view(packages@)),
{
    let mut table: Vec<Vec<String>> = Vec::new();
    let mut header: Vec<String> = Vec::new();
    header.push("Package Name".to_owned());
    header.push("Description".to_owned());
    assert(fields_view(header@) =~= backup_header());
    table.push(header);
    assert(table_view(table@) =~= seq![backup_header()]);
    let mut i: usize = 0;
    assert(rows_view(packages@).subrange(0, 0) =~= Seq::<RowView>::empty());
    while i < packages.len()
        invariant
            i <= packages@.len(),
            table_view(table@) == seq![backup_header()] + uninstalled_rows(rows_view(packages@).subrange(0, i as int)),
        decreases packages@.len() - i,
    {
        let p = &packages[i];
        let ghost before = table_view(table@);
        let ghost rs = rows_view(packages@);
        assert(rs.subrange(0, i + 1).drop_last() =~= rs.subrange(0, i as int));
        assert(rs.subrange(0, i + 1).last() == p@);
        if p.state == PackageState::Uninstalled {
            let mut row: Vec<String> = Vec::new();
            row.push(p.name.clone());
            row.push(replace_newlines(p.description.as_str()));
            assert(fields_view(row@) =~= seq![p.name@, newlines_to_spaces(p.description@)]);
            table.push(row);
            assert(table_view(table@) =~= before.push(fields_view(row@)));
        }
        i = i + 1;
    }
    assert(rows_view(packages@).subrange(0, i as int) =~= rows_view(packages@));
    table
}

/// The CSV bytes of the backup of `packages`: each record of `backup_table`
/// as the `csv` crate writes it. Encoding into memory always succeeds.
pub fn backup_csv(packages: &Vec<PackageRow>) -> (r: Result<Vec<u8>, String>)
    ensures
        r is Ok,
        r is Ok ==> r->Ok_0@ == csv_of(backup_table_of(rows_view(packages@))),
{
    let table = backup_table(packages);
    let mut out: Vec<u8> = Vec::new();
    let mut i: usize = 0;
    assert(table_view(table@).subrange(0, 0) =~= Seq::<Seq<Seq<char>>>::empty());
    while i < table.len()
        invariant
            i <= table@.len(),
            out@ == csv_of(table_view(table@).subrange(0, i as int)),
        decreases table@.len() - i,
    {
        let mut bytes = match csv_record(&table[i]) {
            Ok(b) => b,
            Err(e) => return Err(e),
        };
        let ghost tv = table_view(table@);
        assert(tv.subrange(0, i + 1).drop_last() =~= tv.subrange(0, i as int));
        assert(tv.subrange(0, i + 1).last() == fields_view(table@[i as int]@));
        out.append(&mut bytes);
        i = i + 1;
    }
    assert(table_view(table@).subrange(0, i as int) =~= table_view(table@));
    Ok(out)
}

/// The text of a selection export: the names of the selected packages,
/// whatever their state, joined by newlines.
pub fn selection_text(packages: &Vec<PackageRow>) -> (r: String)
    ensures
        r@ == join_lines(selected_names(rows_view(packages@))),
{
    let mut out = String::new();
    let mut count: usize = 0;
    let mut i: usize = 0;
    assert(rows_view(packages@).subrange(0, 0) =~= Seq::<RowView>::empty());
    while i < packages.len()
        invariant
            i <= packages@.len(),
            count == selected_names(rows_view(packages@).subrange(0, i as int)).len(),
            count <= i,
            out@ == join_lines(selected_names(rows_view(packages@).subrange(0, i as int))),
        decreases packages@.len() - i,
    {
        let p = &packages[i];
        let ghost rs = rows_view(packages@);
        let ghost before = selected_names(rs.subrange(0, i as int));
        assert(rs.subrange(0, i + 1).drop_last() =~= rs.subrange(0, i as int));
        assert(rs.subrange(0, i + 1).last() == p@);
        if p.selected {
            let ghost after = before.push(p.name@);
            assert(after.drop_last() =~= before);
            if count > 0 {
                out.append("\n");
                proof {
                    reveal_strlit("\n");
                }
            }
            out.append(p.name.as_str());
            assert(out@ =~= join_lines(after));
            count = count + 1;
        }
        i = i + 1;
    }
    assert(rows_view(packages@).subrange(0, i as int) =~= rows_view(packages@));
    out
}

/// No description in a backup's data rows holds a newline, and each data row
/// has exactly two fields: a description never spans two CSV records.
pub proof fn law_backup_rows_single_line(rows: Seq<RowView>)
    ensures
        forall|k: int| 0 <= k < uninstalled_rows(rows).len() ==> {
            &&& (#[trigger] uninstalled_rows(rows)[k]).len() == 2
            &&& !uninstalled_rows(rows)[k][1].contains('\n')
        },
    decreases rows.len(),
{
    if rows.len() > 0 {
        law_backup_rows_single_line(rows.drop_last());
        let d = rows.last().description;
        assert(!newlines_to_spaces(d).contains('\n')) by {
            if newlines_to_spaces(d).contains('\n') {
                let j = choose|j: int| 0 <= j < newlines_to_spaces(d).len() && newlines_to_spaces(d)[j] == '\n';
                assert(newlines_to_spaces(d)[j] == (if d[j] == '\n' { ' ' } else { d[j] }));
            }
        }
        let prev = uninstalled_rows(rows.drop_last());
        let row = seq![rows.last().name, newlines_to_spaces(d)];
        assert(row.len() == 2 && row[1] == newlines_to_spaces(d));
        assert forall|k: int| 0 <= k < uninstalled_rows(rows).len() implies {
            &&& (#[trigger] uninstalled_rows(rows)[k]).len() == 2
            &&& !uninstalled_rows(rows)[k][1].contains('\n')
        } by {
            if k < prev.len() {
                assert(uninstalled_rows(rows)[k] == prev[k]);
            } else {
                assert(uninstalled_rows(rows)[k] == row);
            }
        }
    }
}

proof fn lemma_concat_lacks(a: Seq<char>, b: Seq<char>, c: char)
    requires
        !a.contains(c),
        !b.contains(c),
    ensures
        !(a + b).contains(c),
{
    assert forall|j: int| 0 <= j < (a + b).len() implies (a + b)[j] != c by {
        if j < a.len() {
            assert((a + b)[j] == a[j]);
        } else {
            assert((a + b)[j] == b[j - a.len()]);
        }
    }
}

proof fn lemma_double_quotes_lacks_newline(f: Seq<char>)
    requires
        !f.contains('\n'),
    ensures
        !double_quotes(f).contains('\n'),
    decreases f.len(),
{
    if f.len() > 0 {
        assert(!f.drop_last().contains('\n')) by {
            assert forall|j: int| 0 <= j < f.drop_last().len() implies f.drop_last()[j] != '\n' by {
                assert(f.drop_last()[j] == f[j]);
            }
        }
        lemma_double_quotes_lacks_newline(f.drop_last());
        assert(f.last() != '\n') by {
            assert(f[f.len() - 1] == f.last());
        }
        if f.last() == '"' {
            lemma_concat_lacks(double_quotes(f.drop_last()), seq!['"', '"'], '\n');
        } else {
            lemma_concat_lacks(double_quotes(f.drop_last()), seq![f.last()], '\n');
            assert(double_quotes(f.drop_last()).push(f.last()) =~= double_quotes(f.drop_last()) + seq![f.last()]);
        }
    }
}

proof fn lemma_field_lacks_newline(f: Seq<char>)
    requires
        !f.contains('\n'),
    ensures
        !csv_field(f).contains('\n'),
{
    if needs_quotes(f) {
        lemma_double_quotes_lacks_newline(f);
        lemma_concat_lacks(seq!['"'], double_quotes(f), '\n');
        lemma_concat_lacks(seq!['"'] + double_quotes(f), seq!['"'], '\n');
    }
}

/// Each data row of a backup is written as one line of text: where the
/// package name holds no newline, the record's only newline is the one that
/// ends it, whatever the description held.
pub proof fn law_backup_record_is_one_line(rows: Seq<RowView>)
    ensures
        forall|k: int| 0 <= k < uninstalled_rows(rows).len() && !uninstalled_rows(rows)[k][0].contains('\n')
            ==> {
            let line = #[trigger] csv_line(uninstalled_rows(rows)[k]);
            &&& line.last() == '\n'
            &&& !line.drop_last().contains('\n')
        },
{
    law_backup_rows_single_line(rows);
    assert forall|k: int| 0 <= k < uninstalled_rows(rows).len() && !uninstalled_rows(rows)[k][0].contains('\n')
        implies {
        let line = #[trigger] csv_line(uninstalled_rows(rows)[k]);
        &&& line.last() == '\n'
        &&& !line.drop_last().contains('\n')
    } by {
        let f = uninstalled_rows(rows)[k];
        assert(f.len() == 2);
        assert(f.drop_last().len() == 1 && f.drop_last()[0] == f[0]);
        assert(csv_fields(f.drop_last()) == csv_field(f[0]));
        let body = csv_fields(f);
        assert(body == csv_field(f[0]) + seq![','] + csv_field(f[1]));
        lemma_field_lacks_newline(f[0]);
        lemma_field_lacks_newline(f[1]);
        lemma_concat_lacks(csv_field(f[0]), seq![','], '\n');
        lemma_concat_lacks(csv_field(f[0]) + seq![','], csv_field(f[1]), '\n');
        assert(body.len() > 0);
        assert(csv_line(f).drop_last() =~= body);
    }
}

} // verus!
