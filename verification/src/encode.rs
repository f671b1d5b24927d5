//! The format encoder and the CSV projector.
//!
//! One table becomes a block: a `#table=` header line, a schema section
//! listing each column, and a data section with one `name=_=value` line
//! per row, the block closed by two blank lines.  Schema lines carry a
//! pipe between the `%` and the first field; data lines do not.
use vstd::prelude::*;

use crate::table::{ColModel, PostgresColumn, PostgresResult, PostgresTable, TableModel};
use crate::text::{join_char, unlines, lemma_unlines_concat};
use crate::values::{render_spec, TaggedValue, ValModel};

verus! {

// ---------------------------------------------------------------------------
// Spec: the block grammar, line by line
// ---------------------------------------------------------------------------

pub open spec fn marker_seq(is_nullable: bool) -> Seq<char> {
    if is_nullable {
        "y_null"@
    } else {
        "n_null"@
    }
}

pub open spec fn header_line_spec(name: Seq<char>) -> Seq<char> {
    "#table="@ + name
}

pub open spec fn schema_line_spec(c: ColModel) -> Seq<char> {
    "%|"@ + c.name + "|"@ + c.data_type + "|"@ + marker_seq(c.is_nullable)
}

pub open spec fn pair_spec(name: Seq<char>, v: ValModel) -> Seq<char> {
    name + "=_="@ + render_spec(v)
}

pub open spec fn data_line_spec(names: Seq<Seq<char>>, row: Seq<ValModel>) -> Seq<char> {
    "%"@ + join_char(Seq::new(row.len(), |i: int| pair_spec(names[i], row[i])), '|')
}

/// The lines of one encoded table block, blank separators included.
pub open spec fn table_lines_spec(
    name: Seq<char>,
    schema: Seq<ColModel>,
    names: Seq<Seq<char>>,
    rows: Seq<Seq<ValModel>>,
) -> Seq<Seq<char>> {
    seq![header_line_spec(name), "+schema:"@] + schema.map_values(|c: ColModel| schema_line_spec(c))
        + seq!["-schema"@, "+data:"@] + rows.map_values(|row: Seq<ValModel>| data_line_spec(names, row))
        + seq!["-data"@, Seq::<char>::empty(), Seq::<char>::empty()]
}

/// The lines of one snapshot, whose data lines use the schema order.
pub open spec fn snapshot_lines_spec(t: TableModel) -> Seq<Seq<char>> {
    table_lines_spec(t.name, t.columns, t.columns.map_values(|c: ColModel| c.name), t.data)
}

pub open spec fn tables_lines_spec(ts: Seq<TableModel>) -> Seq<Seq<char>>
    decreases ts.len(),
{
    if ts.len() == 0 {
        Seq::<Seq<char>>::empty()
    } else {
        snapshot_lines_spec(ts[0]) + tables_lines_spec(ts.drop_first())
    }
}

/// The whole exchange text of a sequence of snapshots.
pub open spec fn encode_spec(ts: Seq<TableModel>) -> Seq<char> {
    unlines(tables_lines_spec(ts))
}

pub proof fn lemma_tables_lines_push(ts: Seq<TableModel>, t: TableModel)
    ensures
        tables_lines_spec(ts.push(t)) == tables_lines_spec(ts) + snapshot_lines_spec(t),
    decreases ts.len(),
{
    let p = ts.push(t);
    if ts.len() == 0 {
        assert(p[0] == t);
        assert(p.drop_first() =~= Seq::<TableModel>::empty());
        assert(tables_lines_spec(Seq::<TableModel>::empty()) == Seq::<Seq<char>>::empty());
        assert(tables_lines_spec(p) == snapshot_lines_spec(t) + tables_lines_spec(p.drop_first()));
        assert(tables_lines_spec(p) =~= tables_lines_spec(ts) + snapshot_lines_spec(t));
    } else {
        assert(p.drop_first() =~= ts.drop_first().push(t));
        lemma_tables_lines_push(ts.drop_first(), t);
        assert(p[0] == ts[0]);
        assert(tables_lines_spec(p) == snapshot_lines_spec(ts[0]) + tables_lines_spec(
            p.drop_first(),
        ));
        assert(tables_lines_spec(p.drop_first()) == tables_lines_spec(ts.drop_first())
            + snapshot_lines_spec(t));
        assert(tables_lines_spec(ts) == snapshot_lines_spec(ts[0]) + tables_lines_spec(
            ts.drop_first(),
        ));
        assert(snapshot_lines_spec(ts[0]) + (tables_lines_spec(ts.drop_first())
            + snapshot_lines_spec(t)) =~= (snapshot_lines_spec(ts[0]) + tables_lines_spec(
            ts.drop_first(),
        )) + snapshot_lines_spec(t));
    }
}

// ---------------------------------------------------------------------------
// Exec: joining helpers
// ---------------------------------------------------------------------------

pub proof fn lemma_join_push(fields: Seq<Seq<char>>, x: Seq<char>, sep: char)
    ensures
        fields.len() == 0 ==> join_char(fields.push(x), sep) == x,
        fields.len() > 0 ==> join_char(fields.push(x), sep) == join_char(fields, sep)
            + seq![sep] + x,
    decreases fields.len(),
{
    if fields.len() == 0 {
        assert(join_char(fields.push(x), sep) == fields.push(x)[0]);
        assert(fields.push(x)[0] == x);
    } else if fields.len() == 1 {
        let f = fields.push(x);
        assert(f.len() == 2);
        assert(f[0] == fields[0]);
        assert(f.drop_first() =~= seq![x]);
        assert(join_char(f, sep) == f[0] + seq![sep] + join_char(seq![x], sep));
        assert(join_char(seq![x], sep) == x);
    } else {
        let f = fields.push(x);
        assert(f.drop_first() =~= fields.drop_first().push(x));
        lemma_join_push(fields.drop_first(), x, sep);
        assert(f[0] == fields[0]);
        assert(join_char(f, sep) == f[0] + seq![sep] + join_char(fields.drop_first().push(x), sep));
        assert(fields[0] + seq![sep] + (join_char(fields.drop_first(), sep) + seq![sep] + x)
            =~= (fields[0] + seq![sep] + join_char(fields.drop_first(), sep)) + seq![sep] + x);
    }
}

/// Join strings with a newline after each line.
pub fn unlines_exec(lines: &Vec<String>) -> (r: String)
    ensures
        r@ == unlines(lines.deep_view()),
{
    let mut out = String::new();
    let mut i: usize = 0;
    proof {
        assert(lines.deep_view().take(0) =~= Seq::<Seq<char>>::empty());
        assert(out@ =~= unlines(lines.deep_view().take(0)));
        reveal_strlit("\n");
        assert("\n"@ =~= seq!['\n']);
    }
    while i < lines.len()
        invariant
            0 <= i <= lines.len(),
            lines.deep_view().len() == lines.len(),
            out@ == unlines(lines.deep_view().take(i as int)),
            "\n"@ == seq!['\n'],
        decreases lines.len() - i,
    {
        out.append(lines[i].as_str());
        out.append("\n");
        proof {
            let dv = lines.deep_view();
            assert(dv[i as int] == lines[i as int]@);
            assert(dv.take(i + 1) =~= dv.take(i as int).push(dv[i as int]));
            lemma_unlines_concat(dv.take(i as int), seq![dv[i as int]]);
            assert(dv.take(i as int).push(dv[i as int]) =~= dv.take(i as int) + seq![
                dv[i as int],
            ]);
            let sl = seq![dv[i as int]];
            assert(sl.drop_first() =~= Seq::<Seq<char>>::empty());
            assert(unlines(Seq::<Seq<char>>::empty()) == Seq::<char>::empty());
            assert(unlines(sl) == sl[0] + seq!['\n'] + unlines(sl.drop_first()));
            assert(unlines(sl) =~= dv[i as int] + seq!['\n']);
            assert(out@ =~= unlines(dv.take(i + 1)));
        }
        i += 1;
    }
    proof {
        assert(lines.deep_view().take(lines.len() as int) =~= lines.deep_view());
    }
    out
}

/// Join strings with a separator character between them.
pub fn join_with_char(fields: &Vec<String>, sep_str: &str, sep: char) -> (r: String)
    requires
        sep_str@ == seq![sep],
    ensures
        r@ == join_char(fields.deep_view(), sep),
{
    let mut out = String::new();
    let mut i: usize = 0;
    proof {
        assert(fields.deep_view().take(0) =~= Seq::<Seq<char>>::empty());
        assert(out@ =~= join_char(fields.deep_view().take(0), sep));
    }
    while i < fields.len()
        invariant
            0 <= i <= fields.len(),
            fields.deep_view().len() == fields.len(),
            sep_str@ == seq![sep],
            out@ == join_char(fields.deep_view().take(i as int), sep),
        decreases fields.len() - i,
    {
        if i > 0 {
            out.append(sep_str);
        }
        out.append(fields[i].as_str());
        proof {
            let dv = fields.deep_view();
            assert(dv[i as int] == fields[i as int]@);
            assert(dv.take(i + 1) =~= dv.take(i as int).push(dv[i as int]));
            lemma_join_push(dv.take(i as int), dv[i as int], sep);
            assert(out@ =~= join_char(dv.take(i + 1), sep));
        }
        i += 1;
    }
    proof {
        assert(fields.deep_view().take(fields.len() as int) =~= fields.deep_view());
    }
    out
}

// ---------------------------------------------------------------------------
// Exec: the encoder
// ---------------------------------------------------------------------------

/// The nullability marker written in a schema line.
pub fn nullable_marker(is_nullable: bool) -> (r: &'static str)
    ensures
        r@ == marker_seq(is_nullable),
{
    if is_nullable {
        "y_null"
    } else {
        "n_null"
    }
}

fn schema_line(c: &PostgresColumn) -> (r: String)
    ensures
        r@ == schema_line_spec(c@),
{
    let mut out = String::new();
    out.append("%|");
    out.append(c.name.as_str());
    out.append("|");
    out.append(c.data_type.as_str());
    out.append("|");
    out.append(nullable_marker(c.is_nullable));
    proof {
        assert(out@ =~= schema_line_spec(c@));
    }
    out
}

fn data_line(names: &Vec<String>, row: &Vec<TaggedValue>) -> (r: String)
    requires
        row@.len() <= names@.len(),
    ensures
        r@ == data_line_spec(names.deep_view(), row.deep_view()),
{
    let ghost fields = Seq::new(row.deep_view().len(), |i: int| pair_spec(
        names.deep_view()[i],
        row.deep_view()[i],
    ));
    let mut out = String::new();
    out.append("%");
    let mut i: usize = 0;
    proof {
        reveal_strlit("|");
        assert(fields.take(0) =~= Seq::<Seq<char>>::empty());
        assert(out@ =~= "%"@ + join_char(fields.take(0), '|'));
    }
    while i < row.len()
        invariant
            0 <= i <= row.len(),
            row.deep_view().len() == row.len(),
            names.deep_view().len() == names.len(),
            row.len() <= names.len(),
            "|"@ == seq!['|'],
            fields == Seq::new(row.deep_view().len(), |j: int| pair_spec(
                names.deep_view()[j],
                row.deep_view()[j],
            )),
            out@ == "%"@ + join_char(fields.take(i as int), '|'),
        decreases row.len() - i,
    {
        if i > 0 {
            out.append("|");
        }
        out.append(names[i].as_str());
        out.append("=_=");
        let rendered = row[i].render();
        out.append(rendered.as_str());
        proof {
            let ghost dvi = row.deep_view()[i as int];
            assert(fields[i as int] == pair_spec(names.deep_view()[i as int], dvi));
            assert(fields.take(i + 1) =~= fields.take(i as int).push(fields[i as int]));
            lemma_join_push(fields.take(i as int), fields[i as int], '|');
            assert(names.deep_view()[i as int] == names[i as int]@);
            assert(row.deep_view()[i as int] == row[i as int]@);
            assert(out@ =~= "%"@ + join_char(fields.take(i + 1), '|'));
        }
        i += 1;
    }
    proof {
        assert(fields.take(row.len() as int) =~= fields);
    }
    out
}

/// Encode one table block from its name, schema, data-order column
/// names and rows; rows may not be wider than the column-name list.
pub fn encode_table(
    name: &str,
    schema: &Vec<PostgresColumn>,
    data_columns: &Vec<String>,
    rows: &Vec<Vec<TaggedValue>>,
) -> (r: String)
    requires
        forall|i: int| 0 <= i < rows@.len() ==> (#[trigger] rows@[i])@.len() <= data_columns@.len(),
    ensures
        r@ == unlines(
            table_lines_spec(
                name@,
                schema@.map_values(|c: PostgresColumn| c@),
                data_columns.deep_view(),
                rows@.map_values(|w: Vec<TaggedValue>| w.deep_view()),
            ),
        ),
{
    let ghost schema_model = schema@.map_values(|c: PostgresColumn| c@);
    let ghost rows_model = rows@.map_values(|w: Vec<TaggedValue>| w.deep_view());
    let mut lines: Vec<String> = Vec::new();
    let mut header = String::new();
    header.append("#table=");
    header.append(name);
    lines.push(header);
    lines.push("+schema:".to_owned());
    let mut i: usize = 0;
    proof {
        assert(schema_model.take(0).map_values(|c: ColModel| schema_line_spec(c))
            =~= Seq::<Seq<char>>::empty());
        assert(lines.deep_view() =~= seq![header_line_spec(name@), "+schema:"@]
            + schema_model.take(0).map_values(|c: ColModel| schema_line_spec(c)));
    }
    while i < schema.len()
        invariant
            0 <= i <= schema.len(),
            schema_model == schema@.map_values(|c: PostgresColumn| c@),
            schema_model.len() == schema.len(),
            lines@.len() == 2 + i,
            lines.deep_view() =~= seq![header_line_spec(name@), "+schema:"@]
                + schema_model.take(i as int).map_values(|c: ColModel| schema_line_spec(c)),
        decreases schema.len() - i,
    {
        let line = schema_line(&schema[i]);
        let ghost lv = line@;
        let ghost prev = lines.deep_view();
        lines.push(line);
        proof {
            assert(lines.deep_view() =~= prev.push(lv));
            assert(lv == schema_line_spec(schema@[i as int]@));
            let ghost smi = schema_model[i as int];
            assert(schema_model.take(i + 1) =~= schema_model.take(i as int).push(smi));
            assert(schema_model[i as int] == schema@[i as int]@);
            assert(schema_model.take(i + 1).map_values(|c: ColModel| schema_line_spec(c))
                =~= schema_model.take(i as int).map_values(|c: ColModel| schema_line_spec(c)).push(
                schema_line_spec(schema_model[i as int]),
            ));
            assert(lines.deep_view() =~= seq![header_line_spec(name@), "+schema:"@]
                + schema_model.take(i + 1).map_values(|c: ColModel| schema_line_spec(c)));
        }
        i += 1;
    }
    lines.push("-schema".to_owned());
    lines.push("+data:".to_owned());
    let ghost data_lines = rows_model.map_values(|row: Seq<ValModel>| data_line_spec(
        data_columns.deep_view(),
        row,
    ));
    let ghost prefix = seq![header_line_spec(name@), "+schema:"@] + schema_model.map_values(
        |c: ColModel| schema_line_spec(c),
    ) + seq!["-schema"@, "+data:"@];
    proof {
        assert(schema_model.take(schema.len() as int) =~= schema_model);
        assert(lines.deep_view() =~= prefix + data_lines.take(0));
    }
    let mut j: usize = 0;
    while j < rows.len()
        invariant
            0 <= j <= rows.len(),
            rows_model == rows@.map_values(|w: Vec<TaggedValue>| w.deep_view()),
            rows_model.len() == rows.len(),
            forall|k: int| 0 <= k < rows@.len() ==> (#[trigger] rows@[k])@.len()
                <= data_columns@.len(),
            data_lines == rows_model.map_values(|row: Seq<ValModel>| data_line_spec(
                data_columns.deep_view(),
                row,
            )),
            lines@.len() == prefix.len() + j,
            lines.deep_view() =~= prefix + data_lines.take(j as int),
        decreases rows.len() - j,
    {
        proof {
            assert(rows@[j as int]@.len() <= data_columns@.len());
            assert(data_columns.deep_view().len() == data_columns@.len());
        }
        let line = data_line(data_columns, &rows[j]);
        let ghost lv = line@;
        let ghost prev = lines.deep_view();
        lines.push(line);
        proof {
            assert(lines.deep_view() =~= prev.push(lv));
            assert(lv == data_line_spec(data_columns.deep_view(), rows@[j as int].deep_view()));
            assert(rows_model[j as int] == rows@[j as int].deep_view());
            let ghost dlj = data_lines[j as int];
            assert(data_lines.take(j + 1) =~= data_lines.take(j as int).push(dlj));
            assert(lines.deep_view() =~= prefix + data_lines.take(j + 1));
        }
        j += 1;
    }
    lines.push("-data".to_owned());
    lines.push(String::new());
    lines.push(String::new());
    proof {
        assert(data_lines.take(rows.len() as int) =~= data_lines);
        assert(lines.deep_view() =~= table_lines_spec(
            name@,
            schema_model,
            data_columns.deep_view(),
            rows_model,
        ));
    }
    unlines_exec(&lines)
}

/// Encode a sequence of snapshots, each data line in its table's schema
/// order, as the exchange text.
pub fn encode_tables(tables: &Vec<PostgresTable>) -> (r: String)
    requires
        forall|i: int, j: int|
            0 <= i < tables@.len() && 0 <= j < (#[trigger] tables@[i]).data@.len()
                ==> (#[trigger] tables@[i].data@[j])@.len() <= tables@[i].columns@.len(),
    ensures
        r@ == encode_spec(tables@.map_values(|t: PostgresTable| t@)),
{
    let ghost ts = tables@.map_values(|t: PostgresTable| t@);
    let mut out = String::new();
    let mut i: usize = 0;
    proof {
        assert(ts.take(0) =~= Seq::<TableModel>::empty());
        assert(out@ =~= unlines(tables_lines_spec(ts.take(0))));
    }
    while i < tables.len()
        invariant
            0 <= i <= tables.len(),
            ts == tables@.map_values(|t: PostgresTable| t@),
            ts.len() == tables.len(),
            forall|a: int, b: int|
                0 <= a < tables@.len() && 0 <= b < (#[trigger] tables@[a]).data@.len()
                    ==> (#[trigger] tables@[a].data@[b])@.len() <= tables@[a].columns@.len(),
            out@ == unlines(tables_lines_spec(ts.take(i as int))),
        decreases tables.len() - i,
    {
        let t = &tables[i];
        let mut names: Vec<String> = Vec::new();
        let mut k: usize = 0;
        while k < t.columns.len()
            invariant
                0 <= k <= t.columns.len(),
                names@.len() == k,
                names.deep_view() =~= t.columns@.map_values(|c: PostgresColumn| c@).map_values(
                    |c: ColModel| c.name,
                ).take(k as int),
            decreases t.columns.len() - k,
        {
            names.push(t.columns[k].name.clone());
            proof {
                let full = t.columns@.map_values(|c: PostgresColumn| c@).map_values(
                    |c: ColModel| c.name,
                );
                assert(full.take(k + 1) =~= full.take(k as int).push(full[k as int]));
                assert(full[k as int] == t.columns@[k as int]@.name);
                assert(names.deep_view() =~= full.take(k + 1));
            }
            k += 1;
        }
        proof {
            let full = t.columns@.map_values(|c: PostgresColumn| c@).map_values(
                |c: ColModel| c.name,
            );
            assert(full.take(t.columns.len() as int) =~= full);
            assert forall|b: int| 0 <= b < t.data@.len() implies (#[trigger] t.data@[b])@.len()
                <= names@.len() by {
                assert(tables@[i as int].data@[b]@.len() <= tables@[i as int].columns@.len());
            }
        }
        let block = encode_table(t.name.as_str(), &t.columns, &names, &t.data);
        out.append(block.as_str());
        proof {
            assert(ts[i as int] == tables@[i as int]@);
            assert(ts.take(i + 1) =~= ts.take(i as int).push(ts[i as int]));
            lemma_tables_lines_push(ts.take(i as int), ts[i as int]);
            lemma_unlines_concat(
                tables_lines_spec(ts.take(i as int)),
                snapshot_lines_spec(ts[i as int]),
            );
            assert(block@ == unlines(snapshot_lines_spec(ts[i as int])));
            assert(out@ =~= unlines(tables_lines_spec(ts.take(i + 1))));
        }
        i += 1;
    }
    proof {
        assert(ts.take(tables.len() as int) =~= ts);
    }
    out
}

// ---------------------------------------------------------------------------
// Spec and exec: the CSV projector
// ---------------------------------------------------------------------------

pub open spec fn csv_row_spec(row: Seq<ValModel>) -> Seq<char> {
    join_char(row.map_values(|v: ValModel| render_spec(v)), ',')
}

/// The CSV text of one fetched table: the comma-joined header line, then
/// one comma-joined rendered line per row, newline-separated with no
/// trailing newline and no quoting.
pub open spec fn csv_spec(names: Seq<Seq<char>>, rows: Seq<Seq<ValModel>>) -> Seq<char> {
    join_char(
        seq![join_char(names, ',')] + rows.map_values(|row: Seq<ValModel>| csv_row_spec(row)),
        '\n',
    )
}

/// Project one fetched result to CSV.
pub fn csv_project(result: &PostgresResult) -> (r: String)
    ensures
        r@ == csv_spec(result@.0, result@.1),
{
    let ghost names = result.columns.deep_view();
    let ghost rows_model = result.rows@.map_values(|w: Vec<TaggedValue>| w.deep_view());
    let mut lines: Vec<String> = Vec::new();
    proof {
        reveal_strlit(",");
        assert(","@ =~= seq![',']);
    }
    let header = join_with_char(&result.columns, ",", ',');
    lines.push(header);
    let ghost body = rows_model.map_values(|row: Seq<ValModel>| csv_row_spec(row));
    proof {
        assert(lines.deep_view() =~= seq![join_char(names, ',')] + body.take(0));
    }
    let mut i: usize = 0;
    while i < result.rows.len()
        invariant
            0 <= i <= result.rows.len(),
            names == result.columns.deep_view(),
            rows_model == result.rows@.map_values(|w: Vec<TaggedValue>| w.deep_view()),
            rows_model.len() == result.rows.len(),
            body == rows_model.map_values(|row: Seq<ValModel>| csv_row_spec(row)),
            lines@.len() == 1 + i,
            lines.deep_view() =~= seq![join_char(names, ',')] + body.take(i as int),
        decreases result.rows.len() - i,
    {
        let row = &result.rows[i];
        let mut rendered: Vec<String> = Vec::new();
        let mut k: usize = 0;
        while k < row.len()
            invariant
                0 <= k <= row.len(),
                rendered@.len() == k,
                rendered.deep_view() =~= row.deep_view().map_values(
                    |v: ValModel| render_spec(v),
                ).take(k as int),
            decreases row.len() - k,
        {
            rendered.push(row[k].render());
            proof {
                let full = row.deep_view().map_values(|v: ValModel| render_spec(v));
                assert(full.take(k + 1) =~= full.take(k as int).push(full[k as int]));
                assert(full[k as int] == render_spec(row@[k as int]@));
                assert(rendered.deep_view() =~= full.take(k + 1));
            }
            k += 1;
        }
        proof {
            let full = row.deep_view().map_values(|v: ValModel| render_spec(v));
            assert(full.take(row.len() as int) =~= full);
            reveal_strlit(",");
            assert(","@ =~= seq![',']);
        }
        let line = join_with_char(&rendered, ",", ',');
        let ghost lv = line@;
        let ghost prev = lines.deep_view();
        lines.push(line);
        proof {
            assert(lines.deep_view() =~= prev.push(lv));
            assert(lv == csv_row_spec(result.rows@[i as int].deep_view()));
            assert(rows_model[i as int] == result.rows@[i as int].deep_view());
            assert(body[i as int] == csv_row_spec(rows_model[i as int]));
            assert(body.take(i + 1) =~= body.take(i as int).push(body[i as int]));
            assert(lines.deep_view() =~= seq![join_char(names, ',')] + body.take(i + 1));
        }
        i += 1;
    }
    proof {
        assert(body.take(result.rows.len() as int) =~= body);
        reveal_strlit("\n");
        assert("\n"@ =~= seq!['\n']);
    }
    let r = join_with_char(&lines, "\n", '\n');
    proof {
        assert(lines.deep_view() =~= seq![join_char(names, ',')] + body);
    }
    r
}

} // verus!
