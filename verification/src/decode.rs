//! The format decoder: a streaming, single-pass, line-oriented state
//! machine with one open table at a time.
//!
//! A `#table` header without an `=` is fatal for the whole decode; every
//! other malformed line (a short column definition, a field without the
//! `=_=` separator) is skipped and the decode goes on.  Tables flushed
//! before a fatal header are preserved and returned beside the failure
//! indicator.
use vstd::prelude::*;

use crate::table::{
    empty_table_model, tables_view, ColModel, PostgresColumn, PostgresTable, TableModel,
};
use crate::text::{
    contains_pat, contains_str, find_char, index_of_char, is_prefix, split_char, split_on_char,
    split_on_str, split_pat, starts_with_str, str_eq,
};
use crate::values::{from_declared_spec, TaggedValue, ValModel};

verus! {

/// Where in a table block the machine stands.
#[derive(Clone, Copy, Debug, PartialEq, Eq, Structural)]
pub enum ParseMode {
    Outside,
    InSchema,
    InData,
}

/// The decoder's whole state between lines.
#[verifier::ext_equal]
pub struct DecState {
    pub mode: ParseMode,
    pub cur: TableModel,
    pub done: Seq<TableModel>,
    pub failed: bool,
}

pub open spec fn init_state() -> DecState {
    DecState {
        mode: ParseMode::Outside,
        cur: empty_table_model(),
        done: Seq::<TableModel>::empty(),
        failed: false,
    }
}

/// A schema line adds one column: strip the leading two characters,
/// split on pipes, and keep name, declared type and nullability marker;
/// anything shorter is skipped.
pub open spec fn schema_step(cur: TableModel, line: Seq<char>) -> TableModel {
    if line.len() >= 2 {
        let fields = split_char(line.skip(2), '|');
        if fields.len() >= 3 {
            TableModel {
                name: cur.name,
                columns: cur.columns.push(
                    ColModel {
                        name: fields[0],
                        data_type: fields[1],
                        is_nullable: fields[2] == "y_null"@,
                    },
                ),
                data: cur.data,
            }
        } else {
            cur
        }
    } else {
        cur
    }
}

/// The (name, raw text) pairs of a data line's fields: fields without
/// the `=_=` separator are discarded.
pub open spec fn pairs_of(fields: Seq<Seq<char>>) -> Seq<(Seq<char>, Seq<char>)>
    decreases fields.len(),
{
    if fields.len() == 0 {
        Seq::<(Seq<char>, Seq<char>)>::empty()
    } else {
        let rest = pairs_of(fields.drop_last());
        let parts = split_pat(fields.last(), "=_="@);
        if parts.len() >= 2 {
            rest.push((parts[0], parts[1]))
        } else {
            rest
        }
    }
}

/// The raw text bound to a column name, the last binding winning as a
/// map built left to right would have it.
pub open spec fn lookup_pair(pairs: Seq<(Seq<char>, Seq<char>)>, key: Seq<char>) -> Option<
    Seq<char>,
>
    decreases pairs.len(),
{
    if pairs.len() == 0 {
        None
    } else if pairs.last().0 == key {
        Some(pairs.last().1)
    } else {
        lookup_pair(pairs.drop_last(), key)
    }
}

/// One decoded row: in the current column order, each column whose name
/// the line bound contributes one value; absent columns are skipped, so
/// a sparse line yields a row shorter than the column list.
pub open spec fn row_from(columns: Seq<ColModel>, pairs: Seq<(Seq<char>, Seq<char>)>) -> Seq<
    ValModel,
>
    decreases columns.len(),
{
    if columns.len() == 0 {
        Seq::<ValModel>::empty()
    } else {
        row_from(columns.drop_last(), pairs) + (match lookup_pair(pairs, columns.last().name) {
            Some(raw) => seq![from_declared_spec(columns.last().data_type, raw)],
            None => Seq::<ValModel>::empty(),
        })
    }
}

/// A data line appends one row: strip the leading `%`, split on pipes,
/// pair the surviving fields, and rebuild the row in column order.
pub open spec fn data_step(cur: TableModel, line: Seq<char>) -> TableModel {
    TableModel {
        name: cur.name,
        columns: cur.columns,
        data: cur.data.push(row_from(cur.columns, pairs_of(split_char(line.skip(1), '|')))),
    }
}

/// One step of the machine on one line, newline already stripped.
pub open spec fn dec_step(st: DecState, line: Seq<char>) -> DecState {
    if st.failed {
        st
    } else {
        match st.mode {
            ParseMode::Outside => {
                if is_prefix("#table"@, line) {
                    let done2 = if st.cur.name.len() > 0 {
                        st.done.push(st.cur)
                    } else {
                        st.done
                    };
                    let i = index_of_char(line, '=');
                    if i < line.len() {
                        DecState {
                            mode: ParseMode::Outside,
                            cur: TableModel {
                                name: line.skip(i + 1),
                                columns: Seq::<ColModel>::empty(),
                                data: Seq::<Seq<ValModel>>::empty(),
                            },
                            done: done2,
                            failed: false,
                        }
                    } else {
                        DecState {
                            mode: ParseMode::Outside,
                            cur: empty_table_model(),
                            done: done2,
                            failed: true,
                        }
                    }
                } else if is_prefix("+schema"@, line) {
                    DecState { mode: ParseMode::InSchema, cur: st.cur, done: st.done, failed: false }
                } else if is_prefix("+data"@, line) {
                    DecState { mode: ParseMode::InData, cur: st.cur, done: st.done, failed: false }
                } else {
                    st
                }
            },
            ParseMode::InSchema => {
                if contains_pat(line, "-schema"@) {
                    DecState { mode: ParseMode::Outside, cur: st.cur, done: st.done, failed: false }
                } else if line.len() >= 1 && line[0] == '%' {
                    DecState {
                        mode: ParseMode::InSchema,
                        cur: schema_step(st.cur, line),
                        done: st.done,
                        failed: false,
                    }
                } else {
                    st
                }
            },
            ParseMode::InData => {
                if contains_pat(line, "-data"@) {
                    DecState { mode: ParseMode::Outside, cur: st.cur, done: st.done, failed: false }
                } else if line.len() >= 1 && line[0] == '%' {
                    DecState {
                        mode: ParseMode::InData,
                        cur: data_step(st.cur, line),
                        done: st.done,
                        failed: false,
                    }
                } else {
                    st
                }
            },
        }
    }
}

pub open spec fn dec_run(st: DecState, lines: Seq<Seq<char>>) -> DecState
    decreases lines.len(),
{
    if lines.len() == 0 {
        st
    } else {
        dec_run(dec_step(st, lines[0]), lines.drop_first())
    }
}

/// End of input flushes a still-open table with a non-empty name.
pub open spec fn final_tables(st: DecState) -> Seq<TableModel> {
    if !st.failed && st.cur.name.len() > 0 {
        st.done.push(st.cur)
    } else {
        st.done
    }
}

/// What decoding a line sequence yields: the tables, and whether the
/// whole decode succeeded.
pub open spec fn decode_lines_spec(lines: Seq<Seq<char>>) -> (Seq<TableModel>, bool) {
    let st = dec_run(init_state(), lines);
    (final_tables(st), !st.failed)
}

/// What decoding a whole text yields, splitting it into lines first.
pub open spec fn decode_spec(text: Seq<char>) -> (Seq<TableModel>, bool) {
    decode_lines_spec(split_char(text, '\n'))
}

pub proof fn lemma_dec_run_concat(st: DecState, a: Seq<Seq<char>>, b: Seq<Seq<char>>)
    ensures
        dec_run(st, a + b) == dec_run(dec_run(st, a), b),
    decreases a.len(),
{
    if a.len() == 0 {
        assert(a + b =~= b);
    } else {
        assert((a + b)[0] == a[0]);
        assert((a + b).drop_first() =~= a.drop_first() + b);
        lemma_dec_run_concat(dec_step(st, a[0]), a.drop_first(), b);
    }
}

pub proof fn lemma_dec_run_push(st: DecState, a: Seq<Seq<char>>, l: Seq<char>)
    ensures
        dec_run(st, a.push(l)) == dec_step(dec_run(st, a), l),
{
    assert(a.push(l) =~= a + seq![l]);
    lemma_dec_run_concat(st, a, seq![l]);
    let one = seq![l];
    assert(one.drop_first() =~= Seq::<Seq<char>>::empty());
    assert(one[0] == l);
    assert(dec_run(dec_step(dec_run(st, a), l), Seq::<Seq<char>>::empty()) == dec_step(
        dec_run(st, a),
        l,
    ));
    assert(dec_run(dec_run(st, a), one) == dec_step(dec_run(st, a), l));
}

/// A failed state absorbs every further line.
pub proof fn lemma_dec_run_failed(st: DecState, lines: Seq<Seq<char>>)
    requires
        st.failed,
    ensures
        dec_run(st, lines) == st,
    decreases lines.len(),
{
    if lines.len() == 0 {
    } else {
        assert(dec_step(st, lines[0]) == st);
        lemma_dec_run_failed(st, lines.drop_first());
    }
}

/// The fatal format error of a decode: a `#table` header without `=`.
#[derive(Clone, Copy, Debug, PartialEq, Eq, Structural)]
pub enum DecodeError {
    InvalidHeader,
}

/// The decode's outcome: every table flushed before the end or before a
/// fatal header, and the error if one was hit.
#[derive(Debug)]
pub struct DecodeOutcome {
    pub tables: Vec<PostgresTable>,
    pub error: Option<DecodeError>,
}

// ---------------------------------------------------------------------------
// Exec helpers
// ---------------------------------------------------------------------------

pub(crate) fn lookup_value(pairs: &Vec<(String, String)>, key: &str) -> (r: Option<String>)
    ensures
        ({
            let model = pairs@.map_values(|p: (String, String)| (p.0@, p.1@));
            match r {
                Some(v) => lookup_pair(model, key@) == Some(v@),
                None => lookup_pair(model, key@) is None,
            }
        }),
{
    let ghost model = pairs@.map_values(|p: (String, String)| (p.0@, p.1@));
    let mut idx: usize = pairs.len();
    proof {
        assert(model.take(pairs.len() as int) =~= model);
    }
    while idx > 0
        invariant
            0 <= idx <= pairs.len(),
            model == pairs@.map_values(|p: (String, String)| (p.0@, p.1@)),
            model.len() == pairs.len(),
            lookup_pair(model, key@) == lookup_pair(model.take(idx as int), key@),
        decreases idx,
    {
        idx -= 1;
        if str_eq(pairs[idx].0.as_str(), key) {
            proof {
                let t = model.take(idx + 1);
                assert(t.last() == model[idx as int]);
                assert(model[idx as int].0 == pairs@[idx as int].0@);
                assert(lookup_pair(t, key@) == Some(model[idx as int].1));
            }
            return Some(pairs[idx].1.clone());
        }
        proof {
            let t = model.take(idx + 1);
            assert(t.last() == model[idx as int]);
            assert(model[idx as int].0 == pairs@[idx as int].0@);
            assert(t.drop_last() =~= model.take(idx as int));
            assert(lookup_pair(t, key@) == lookup_pair(model.take(idx as int), key@));
        }
    }
    proof {
        assert(model.take(0) =~= Seq::<(Seq<char>, Seq<char>)>::empty());
    }
    None
}

/// Decode one data line's remainder (after the `%`) against the current
/// columns.
fn decode_row(rest: &str, columns: &Vec<PostgresColumn>) -> (r: Vec<TaggedValue>)
    ensures
        r.deep_view() == row_from(
            columns@.map_values(|c: PostgresColumn| c@),
            pairs_of(split_char(rest@, '|')),
        ),
{
    let fields = split_on_char(rest, '|');
    let ghost fields_model = split_char(rest@, '|');
    let mut pairs: Vec<(String, String)> = Vec::new();
    let mut k: usize = 0;
    proof {
        assert(fields_model.take(0) =~= Seq::<Seq<char>>::empty());
        assert(pairs@.map_values(|p: (String, String)| (p.0@, p.1@)) =~= pairs_of(
            fields_model.take(0),
        ));
    }
    while k < fields.len()
        invariant
            0 <= k <= fields.len(),
            fields.deep_view() == fields_model,
            fields_model.len() == fields.len(),
            pairs@.map_values(|p: (String, String)| (p.0@, p.1@)) == pairs_of(
                fields_model.take(k as int),
            ),
        decreases fields.len() - k,
    {
        proof {
            reveal_strlit("=_=");
            assert("=_="@.len() == 3);
        }
        let parts = split_on_str(fields[k].as_str(), "=_=");
        proof {
            assert(fields@[k as int]@ == fields_model[k as int]);
            assert(parts.deep_view() == split_pat(fields_model[k as int], "=_="@));
            assert(fields_model.take(k + 1).drop_last() =~= fields_model.take(k as int));
            assert(fields_model.take(k + 1).last() == fields_model[k as int]);
        }
        if parts.len() >= 2 {
            let ghost prev = pairs@.map_values(|p: (String, String)| (p.0@, p.1@));
            let name = parts[0].clone();
            let value = parts[1].clone();
            let ghost nv = name@;
            let ghost vv = value@;
            pairs.push((name, value));
            proof {
                assert(pairs@.map_values(|p: (String, String)| (p.0@, p.1@)) =~= prev.push(
                    (nv, vv),
                ));
                assert(nv == split_pat(fields_model[k as int], "=_="@)[0]);
                assert(vv == split_pat(fields_model[k as int], "=_="@)[1]);
                assert(pairs@.map_values(|p: (String, String)| (p.0@, p.1@)) =~= pairs_of(
                    fields_model.take(k + 1),
                ));
            }
        } else {
            proof {
                assert(pairs@.map_values(|p: (String, String)| (p.0@, p.1@)) =~= pairs_of(
                    fields_model.take(k + 1),
                ));
            }
        }
        k += 1;
    }
    proof {
        assert(fields_model.take(fields.len() as int) =~= fields_model);
    }
    let ghost pairs_model = pairs@.map_values(|p: (String, String)| (p.0@, p.1@));
    let ghost cols_model = columns@.map_values(|c: PostgresColumn| c@);
    let mut row: Vec<TaggedValue> = Vec::new();
    let mut j: usize = 0;
    proof {
        assert(cols_model.take(0) =~= Seq::<ColModel>::empty());
        assert(row.deep_view() =~= row_from(cols_model.take(0), pairs_model));
    }
    while j < columns.len()
        invariant
            0 <= j <= columns.len(),
            pairs_model == pairs@.map_values(|p: (String, String)| (p.0@, p.1@)),
            cols_model == columns@.map_values(|c: PostgresColumn| c@),
            cols_model.len() == columns.len(),
            row.deep_view() == row_from(cols_model.take(j as int), pairs_model),
        decreases columns.len() - j,
    {
        proof {
            assert(cols_model.take(j + 1).drop_last() =~= cols_model.take(j as int));
            assert(cols_model.take(j + 1).last() == cols_model[j as int]);
            assert(cols_model[j as int] == columns@[j as int]@);
        }
        let found = lookup_value(&pairs, columns[j].name.as_str());
        match found {
            Some(raw) => {
                let v = TaggedValue::from_declared(columns[j].data_type.as_str(), raw.as_str());
                let ghost vv = v@;
                let ghost prev = row.deep_view();
                row.push(v);
                proof {
                    assert(row.deep_view() =~= prev.push(vv));
                    assert(lookup_pair(pairs_model, cols_model[j as int].name) == Some(raw@));
                    assert(vv == from_declared_spec(cols_model[j as int].data_type, raw@));
                    assert(prev.push(vv) =~= prev + seq![vv]);
                    assert(row.deep_view() =~= row_from(cols_model.take(j + 1), pairs_model));
                }
            },
            None => {
                proof {
                    assert(lookup_pair(pairs_model, cols_model[j as int].name) is None);
                    assert(row_from(cols_model.take(j + 1), pairs_model) =~= row_from(
                        cols_model.take(j as int),
                        pairs_model,
                    ) + Seq::<ValModel>::empty());
                    assert(row.deep_view() =~= row_from(cols_model.take(j + 1), pairs_model));
                }
            },
        }
        j += 1;
    }
    proof {
        assert(cols_model.take(columns.len() as int) =~= cols_model);
    }
    row
}

// ---------------------------------------------------------------------------
// The decoder
// ---------------------------------------------------------------------------

/// Decode a sequence of lines (newlines already stripped) into table
/// snapshots, exactly as the state machine `dec_run` describes: tables
/// flushed before a fatal header are kept beside the error.
pub fn decode_lines(lines: &Vec<String>) -> (r: DecodeOutcome)
    ensures
        tables_view(r.tables@) == decode_lines_spec(lines.deep_view()).0,
        (r.error is None) == decode_lines_spec(lines.deep_view()).1,
{
    let ghost all = lines.deep_view();
    let mut mode = ParseMode::Outside;
    let mut cur = PostgresTable::new();
    let mut done: Vec<PostgresTable> = Vec::new();
    let mut i: usize = 0;
    proof {
        assert(all.take(0) =~= Seq::<Seq<char>>::empty());
        assert(tables_view(done@) =~= Seq::<TableModel>::empty());
        assert(dec_run(init_state(), all.take(0)) == init_state());
        assert(cur@ =~= init_state().cur);
    }
    while i < lines.len()
        invariant
            0 <= i <= lines.len(),
            all == lines.deep_view(),
            all.len() == lines.len(),
            ({
                let st = dec_run(init_state(), all.take(i as int));
                &&& mode == st.mode
                &&& cur@ == st.cur
                &&& tables_view(done@) == st.done
                &&& !st.failed
            }),
        decreases lines.len() - i,
    {
        let ghost st = dec_run(init_state(), all.take(i as int));
        let line = &lines[i];
        let s = line.as_str();
        proof {
            assert(s@ == all[i as int]);
            assert(all.take(i + 1) =~= all.take(i as int).push(all[i as int]));
            lemma_dec_run_push(init_state(), all.take(i as int), all[i as int]);
        }
        let ghost next = dec_step(st, all[i as int]);
        match mode {
            ParseMode::Outside => {
                if starts_with_str(s, "#table") {
                    let name_present = !cur.name.as_str().is_empty();
                    let ghost cv = cur@;
                    let ghost prevd = tables_view(done@);
                    if name_present {
                        done.push(cur);
                        proof {
                            assert(tables_view(done@) =~= prevd.push(cv));
                        }
                    }
                    let slen = s.unicode_len();
                    let eq_at = find_char(s, '=');
                    if eq_at < slen {
                        let name = s.substring_char(eq_at + 1, slen).to_owned();
                        cur = PostgresTable { columns: Vec::new(), data: Vec::new(), name };
                        proof {
                            assert(cur@.name =~= all[i as int].skip(eq_at + 1));
                            assert(cur@.columns =~= Seq::<ColModel>::empty());
                            assert(cur@.data =~= Seq::<Seq<ValModel>>::empty());
                            assert(cur@ =~~= next.cur);
                            assert(tables_view(done@) =~= next.done);
                        }
                    } else {
                        // Fatal: a header with no `=` aborts the decode.
                        cur = PostgresTable::new();
                        proof {
                            assert(next.failed);
                            assert(tables_view(done@) =~= next.done);
                            lemma_dec_run_failed(next, all.skip(i + 1));
                            assert(all.take(i + 1) + all.skip(i + 1) =~= all);
                            lemma_dec_run_concat(init_state(), all.take(i + 1), all.skip(i + 1));
                            assert(dec_run(init_state(), all) == next);
                        }
                        return DecodeOutcome { tables: done, error: Some(DecodeError::InvalidHeader) };
                    }
                } else if starts_with_str(s, "+schema") {
                    mode = ParseMode::InSchema;
                } else if starts_with_str(s, "+data") {
                    mode = ParseMode::InData;
                }
            },
            ParseMode::InSchema => {
                proof {
                    reveal_strlit("-schema");
                    assert("-schema"@.len() == 7);
                }
                if contains_str(s, "-schema") {
                    mode = ParseMode::Outside;
                } else {
                    let slen = s.unicode_len();
                    if slen >= 1 && s.get_char(0) == '%' {
                        if slen >= 2 {
                            let rest = s.substring_char(2, slen);
                            let fields = split_on_char(rest, '|');
                            proof {
                                assert(rest@ =~= all[i as int].skip(2));
                                assert(fields.deep_view() == split_char(all[i as int].skip(2), '|'));
                            }
                            if fields.len() >= 3 {
                                let is_nullable = str_eq(fields[2].as_str(), "y_null");
                                let col = PostgresColumn {
                                    name: fields[0].clone(),
                                    data_type: fields[1].clone(),
                                    is_nullable,
                                };
                                let ghost colv = col@;
                                let ghost prevc = cur@.columns;
                                cur.columns.push(col);
                                proof {
                                    let fm = split_char(all[i as int].skip(2), '|');
                                    assert(colv.name == fm[0]);
                                    assert(colv.data_type == fm[1]);
                                    assert(colv.is_nullable == (fm[2] == "y_null"@));
                                    assert(cur@.columns =~= prevc.push(colv));
                                    assert(cur@ =~~= schema_step(st.cur, all[i as int]));
                                    assert(cur@ =~~= next.cur);
                                }
                            } else {
                                proof {
                                    assert(cur@ =~~= next.cur);
                                }
                            }
                        } else {
                            proof {
                                assert(cur@ =~~= next.cur);
                            }
                        }
                    }
                }
            },
            ParseMode::InData => {
                proof {
                    reveal_strlit("-data");
                    assert("-data"@.len() == 5);
                }
                if contains_str(s, "-data") {
                    mode = ParseMode::Outside;
                } else {
                    let slen = s.unicode_len();
                    if slen >= 1 && s.get_char(0) == '%' {
                        let rest = s.substring_char(1, slen);
                        proof {
                            assert(rest@ =~= all[i as int].skip(1));
                        }
                        let row = decode_row(rest, &cur.columns);
                        let ghost rowv = row.deep_view();
                        let ghost prevdata = cur@.data;
                        cur.data.push(row);
                        proof {
                            assert(cur@.data =~= prevdata.push(rowv));
                            assert(rowv == row_from(
                                st.cur.columns,
                                pairs_of(split_char(all[i as int].skip(1), '|')),
                            ));
                            assert(cur@ =~~= data_step(st.cur, all[i as int]));
                            assert(cur@ =~~= next.cur);
                        }
                    }
                }
            },
        }
        proof {
            assert(mode == next.mode);
            assert(cur@ == next.cur);
            assert(tables_view(done@) == next.done);
            assert(!next.failed);
        }
        i += 1;
    }
    proof {
        assert(all.take(lines.len() as int) =~= all);
    }
    let ghost st = dec_run(init_state(), all);
    if !cur.name.as_str().is_empty() {
        let ghost cv = cur@;
        let ghost prevd = tables_view(done@);
        done.push(cur);
        proof {
            assert(tables_view(done@) =~= prevd.push(cv));
            assert(tables_view(done@) == final_tables(st));
        }
        DecodeOutcome { tables: done, error: None }
    } else {
        proof {
            assert(tables_view(done@) == final_tables(st));
        }
        DecodeOutcome { tables: done, error: None }
    }
}

/// Decode a whole exchange text: split it into lines on newlines, then
/// run the state machine.
pub fn decode(text: &str) -> (r: DecodeOutcome)
    ensures
        tables_view(r.tables@) == decode_spec(text@).0,
        (r.error is None) == decode_spec(text@).1,
{
    let lines = split_on_char(text, '\n');
    decode_lines(&lines)
}

} // verus!
