//! The format's laws: encoding then decoding recovers the snapshots,
//! and a fatal header preserves exactly the tables flushed before it.
use vstd::prelude::*;

use crate::decode::{
    dec_run, dec_step, decode_lines_spec, decode_spec, final_tables, init_state,
    lemma_dec_run_concat, lemma_dec_run_failed, lookup_pair, pairs_of, row_from, DecState,
    ParseMode,
};
use crate::encode::{
    data_line_spec, encode_spec, header_line_spec, marker_seq, pair_spec, schema_line_spec,
    snapshot_lines_spec, tables_lines_spec,
};
use crate::table::{ColModel, TableModel};
use crate::text::{
    contains_char, contains_pat, has_pat_at, index_of_char, is_prefix, join_char,
    lemma_index_of_char, lemma_index_of_char_unique, lemma_split_join_char, lemma_split_pat_first,
    lemma_split_pat_none, lemma_split_unlines, split_char, split_pat,
};
use crate::values::{from_declared_spec, rebuilds, render_spec, ValModel};
use crate::num::{dec_render, dec_digits, is_digit_char, lemma_dec_digits_shape};

verus! {

// ---------------------------------------------------------------------------
// Well-formedness: the inputs on which the round trip holds
// ---------------------------------------------------------------------------

/// A value the wire format can carry back unharmed: no empty Text (it
/// collapses with Null), and no Text holding a line break, a field
/// separator, the pair separator or the section terminator.
pub open spec fn val_wf(v: ValModel) -> bool {
    match v {
        ValModel::Text(s) => s.len() > 0 && !contains_char(s, '\n') && !contains_char(s, '|')
            && !contains_pat(s, "=_="@) && !contains_pat(s, "-data"@),
        ValModel::Integer(i) => i32::MIN <= i <= i32::MAX,
        _ => true,
    }
}

/// A column the wire format can carry back: name and declared type free
/// of the format's own separators and terminators.
pub open spec fn col_wf(c: ColModel) -> bool {
    &&& !contains_char(c.name, '\n')
    &&& !contains_char(c.name, '|')
    &&& !contains_char(c.name, '=')
    &&& !contains_pat(c.name, "-schema"@)
    &&& !contains_pat(c.name, "-data"@)
    &&& !contains_char(c.data_type, '\n')
    &&& !contains_char(c.data_type, '|')
    &&& !contains_pat(c.data_type, "-schema"@)
}

/// A snapshot the exchange format reproduces exactly: a non-empty name
/// without `=` or line breaks, well-formed columns with distinct names,
/// rows no wider than the column list, and every cell both well-formed
/// and rebuilt by its column's declared type.
pub open spec fn round_trippable(t: TableModel) -> bool {
    &&& t.name.len() > 0
    &&& !contains_char(t.name, '\n')
    &&& !contains_char(t.name, '=')
    &&& forall|i: int| 0 <= i < t.columns.len() ==> col_wf(#[trigger] t.columns[i])
    &&& forall|i: int, j: int|
        0 <= i < j < t.columns.len() ==> t.columns[i].name != t.columns[j].name
    &&& forall|i: int| 0 <= i < t.data.len() ==> (#[trigger] t.data[i]).len() <= t.columns.len()
    &&& forall|i: int, j: int|
        0 <= i < t.data.len() && 0 <= j < (#[trigger] t.data[i]).len() ==> val_wf(
            #[trigger] t.data[i][j],
        ) && rebuilds(t.columns[j].data_type, t.data[i][j])
}

// ---------------------------------------------------------------------------
// Character and pattern plumbing
// ---------------------------------------------------------------------------

pub proof fn lemma_contains_char_concat(a: Seq<char>, b: Seq<char>, c: char)
    ensures
        contains_char(a + b, c) == (contains_char(a, c) || contains_char(b, c)),
{
    let s = a + b;
    if contains_char(s, c) {
        let i = choose|i: int| 0 <= i < s.len() && s[i] == c;
        if i < a.len() {
            assert(a[i] == c);
        } else {
            assert(b[i - a.len()] == c);
        }
    }
    if contains_char(a, c) {
        let i = choose|i: int| 0 <= i < a.len() && a[i] == c;
        assert(s[i] == c);
    }
    if contains_char(b, c) {
        let i = choose|i: int| 0 <= i < b.len() && b[i] == c;
        assert(s[a.len() + i] == c);
    }
}

/// A string missing the pattern's first character misses the pattern.
pub proof fn lemma_pat_first_char(s: Seq<char>, p: Seq<char>)
    requires
        p.len() >= 1,
        !contains_char(s, p[0]),
    ensures
        !contains_pat(s, p),
{
    if contains_pat(s, p) {
        let i = choose|i: int| has_pat_at(s, p, i);
        assert(s.subrange(i, i + p.len() as int)[0] == p[0]);
        assert(s[i] == p[0]);
    }
}

/// A pattern missing the character `c` cannot straddle it: if neither
/// side holds the pattern, the joined text does not either.
pub proof fn lemma_pat_concat_char(x: Seq<char>, y: Seq<char>, p: Seq<char>, c: char)
    requires
        p.len() >= 1,
        !contains_char(p, c),
        !contains_pat(x, p),
        !contains_pat(y, p),
    ensures
        !contains_pat(x + seq![c] + y, p),
{
    let s = x + seq![c] + y;
    if contains_pat(s, p) {
        let i = choose|i: int| has_pat_at(s, p, i);
        let sub = s.subrange(i, i + p.len() as int);
        if i + p.len() <= x.len() {
            assert(x.subrange(i, i + p.len() as int) =~= sub);
            assert(has_pat_at(x, p, i));
        } else if i > x.len() {
            let k = i - x.len() - 1;
            assert(y.subrange(k, k + p.len() as int) =~= sub);
            assert(has_pat_at(y, p, k));
        } else {
            assert(sub[x.len() - i] == s[x.len() as int]);
            assert(s[x.len() as int] == c);
            assert(p[x.len() - i] == c);
        }
    }
}

/// Joining pattern-free fields with a character the pattern lacks stays
/// pattern-free.
pub proof fn lemma_join_no_pat(fields: Seq<Seq<char>>, p: Seq<char>, sep: char)
    requires
        p.len() >= 1,
        !contains_char(p, sep),
        forall|i: int| 0 <= i < fields.len() ==> !contains_pat(#[trigger] fields[i], p),
    ensures
        !contains_pat(join_char(fields, sep), p),
    decreases fields.len(),
{
    if fields.len() == 0 {
        if contains_pat(join_char(fields, sep), p) {
            let i = choose|i: int| has_pat_at(join_char(fields, sep), p, i);
        }
    } else if fields.len() == 1 {
        assert(join_char(fields, sep) == fields[0]);
    } else {
        lemma_join_no_pat(fields.drop_first(), p, sep);
        assert(forall|i: int|
            0 <= i < fields.drop_first().len() ==> !contains_pat(
                #[trigger] fields.drop_first()[i],
                p,
            ));
        lemma_pat_concat_char(fields[0], join_char(fields.drop_first(), sep), p, sep);
    }
}

pub proof fn lemma_join_no_char(fields: Seq<Seq<char>>, c: char, sep: char)
    requires
        c != sep,
        forall|i: int| 0 <= i < fields.len() ==> !contains_char(#[trigger] fields[i], c),
    ensures
        !contains_char(join_char(fields, sep), c),
    decreases fields.len(),
{
    if fields.len() == 0 {
        if contains_char(join_char(fields, sep), c) {
            let i = choose|i: int|
                0 <= i < join_char(fields, sep).len() && join_char(fields, sep)[i] == c;
        }
    } else if fields.len() == 1 {
        assert(join_char(fields, sep) == fields[0]);
    } else {
        lemma_join_no_char(fields.drop_first(), c, sep);
        lemma_contains_char_concat(fields[0], seq![sep], c);
        lemma_contains_char_concat(fields[0] + seq![sep], join_char(fields.drop_first(), sep), c);
        assert(!contains_char(seq![sep], c)) by {
            if contains_char(seq![sep], c) {
                let i = choose|i: int| 0 <= i < 1 && seq![sep][i] == c;
            }
        }
    }
}

// ---------------------------------------------------------------------------
// What a rendered value looks like on the wire
// ---------------------------------------------------------------------------

proof fn lemma_literals()
    ensures
        "=_="@ =~= seq!['=', '_', '='],
        "-data"@ =~= seq!['-', 'd', 'a', 't', 'a'],
        "-schema"@ =~= seq!['-', 's', 'c', 'h', 'e', 'm', 'a'],
        "%"@ =~= seq!['%'],
        "%|"@ =~= seq!['%', '|'],
        "|"@ =~= seq!['|'],
        "#table"@ =~= seq!['#', 't', 'a', 'b', 'l', 'e'],
        "#table="@ =~= seq!['#', 't', 'a', 'b', 'l', 'e', '='],
        "+schema"@ =~= seq!['+', 's', 'c', 'h', 'e', 'm', 'a'],
        "+schema:"@ =~= seq!['+', 's', 'c', 'h', 'e', 'm', 'a', ':'],
        "+data"@ =~= seq!['+', 'd', 'a', 't', 'a'],
        "+data:"@ =~= seq!['+', 'd', 'a', 't', 'a', ':'],
        "y_null"@ =~= seq!['y', '_', 'n', 'u', 'l', 'l'],
        "n_null"@ =~= seq!['n', '_', 'n', 'u', 'l', 'l'],
        "true"@ =~= seq!['t', 'r', 'u', 'e'],
        "false"@ =~= seq!['f', 'a', 'l', 's', 'e'],
{
    reveal_strlit("=_=");
    reveal_strlit("-data");
    reveal_strlit("-schema");
    reveal_strlit("%");
    reveal_strlit("%|");
    reveal_strlit("|");
    reveal_strlit("#table");
    reveal_strlit("#table=");
    reveal_strlit("+schema");
    reveal_strlit("+schema:");
    reveal_strlit("+data");
    reveal_strlit("+data:");
    reveal_strlit("y_null");
    reveal_strlit("n_null");
    reveal_strlit("true");
    reveal_strlit("false");
}

/// Every character of a decimal rendering is a digit, or a leading `-`.
proof fn lemma_dec_render_chars(i: int)
    requires
        i32::MIN <= i <= i32::MAX,
    ensures
        forall|k: int|
            0 <= k < dec_render(i).len() ==> (is_digit_char(#[trigger] dec_render(i)[k]) || (k == 0
                && dec_render(i)[k] == '-')),
{
    if i < 0 {
        lemma_dec_digits_shape(-i);
        assert forall|k: int|
            0 <= k < dec_render(i).len() implies (is_digit_char(#[trigger] dec_render(i)[k]) || (k
            == 0 && dec_render(i)[k] == '-')) by {
            if k > 0 {
                assert(dec_render(i)[k] == dec_digits(-i)[k - 1]);
            }
        }
    } else {
        lemma_dec_digits_shape(i);
    }
}

/// What the rendering of a well-formed value cannot contain.
proof fn lemma_render_plain(v: ValModel)
    requires
        val_wf(v),
    ensures
        !contains_char(render_spec(v), '\n'),
        !contains_char(render_spec(v), '|'),
        !contains_pat(render_spec(v), "=_="@),
        !contains_pat(render_spec(v), "-data"@),
{
    lemma_literals();
    let r = render_spec(v);
    match v {
        ValModel::Text(s) => {},
        ValModel::Null => {
            assert(!contains_pat(r, "=_="@)) by {
                if contains_pat(r, "=_="@) {
                    let i = choose|i: int| has_pat_at(r, "=_="@, i);
                }
            }
            assert(!contains_pat(r, "-data"@)) by {
                if contains_pat(r, "-data"@) {
                    let i = choose|i: int| has_pat_at(r, "-data"@, i);
                }
            }
        },
        ValModel::Boolean(b) => {
            assert(!contains_char(r, '\n'));
            assert(!contains_char(r, '|'));
            assert(!contains_char(r, '='));
            assert(!contains_char(r, '-'));
            lemma_pat_first_char(r, "=_="@);
            lemma_pat_first_char(r, "-data"@);
        },
        ValModel::Integer(i) => {
            lemma_dec_render_chars(i);
            assert(!contains_char(r, '\n'));
            assert(!contains_char(r, '|'));
            assert(!contains_char(r, '='));
            lemma_pat_first_char(r, "=_="@);
            assert(!contains_pat(r, "-data"@)) by {
                if contains_pat(r, "-data"@) {
                    let k = choose|k: int| has_pat_at(r, "-data"@, k);
                    let sub = r.subrange(k, k + 5);
                    assert(sub[0] == r[k]);
                    assert(r[k] == '-');
                    assert(k == 0);
                    assert(sub[1] == r[1]);
                    assert(r[1] == 'd');
                    assert(is_digit_char(r[1]) || (1 == 0 && r[1] == '-'));
                }
            }
        },
    }
}

// ---------------------------------------------------------------------------
// One field, one line
// ---------------------------------------------------------------------------

/// A `name=_=value` field splits back into exactly its name and its
/// rendered value.
proof fn lemma_field_parse(name: Seq<char>, v: ValModel)
    requires
        !contains_char(name, '='),
        !contains_char(name, '|'),
        !contains_char(name, '\n'),
        !contains_pat(name, "-data"@),
        val_wf(v),
    ensures
        split_pat(pair_spec(name, v), "=_="@) == seq![name, render_spec(v)],
        !contains_char(pair_spec(name, v), '|'),
        !contains_char(pair_spec(name, v), '\n'),
        !contains_pat(pair_spec(name, v), "-data"@),
{
    lemma_literals();
    lemma_render_plain(v);
    let p = "=_="@;
    let r = render_spec(v);
    let f = pair_spec(name, v);
    assert(f =~= name + p + r);
    // The first occurrence of the separator starts right after the name.
    assert(has_pat_at(f, p, name.len() as int)) by {
        assert(f.subrange(name.len() as int, name.len() as int + 3) =~= p);
    }
    assert(forall|k: int| 0 <= k < name.len() ==> !has_pat_at(f, p, k)) by {
        assert forall|k: int| 0 <= k < name.len() implies !has_pat_at(f, p, k) by {
            if has_pat_at(f, p, k) {
                assert(f.subrange(k, k + 3)[0] == p[0]);
                assert(f[k] == '=');
                assert(f[k] == name[k]);
            }
        }
    }
    lemma_split_pat_first(f, p, name.len() as int);
    lemma_split_pat_none(r, p);
    assert(f.take(name.len() as int) =~= name);
    assert(f.skip(name.len() as int + 3) =~= r);
    assert(seq![name] + seq![r] =~= seq![name, r]);
    // Character and pattern freedom of the whole field.
    lemma_contains_char_concat(name, p, '|');
    lemma_contains_char_concat(name + p, r, '|');
    assert(!contains_char(p, '|'));
    assert(name + p + r =~= (name + p) + r);
    lemma_contains_char_concat(name, p, '\n');
    lemma_contains_char_concat(name + p, r, '\n');
    assert(!contains_char(p, '\n'));
    // `-data` cannot straddle the separator: it holds neither `=` nor `_`.
    let t1 = seq!['='] + r;
    let t2 = seq!['_'] + t1;
    let t3 = seq!['='] + t2;
    assert(Seq::<char>::empty() + seq!['='] + r =~= t1);
    lemma_pat_concat_char(Seq::<char>::empty(), r, "-data"@, '=');
    assert(!contains_pat(t1, "-data"@));
    assert(Seq::<char>::empty() + seq!['_'] + t1 =~= t2);
    lemma_pat_concat_char(Seq::<char>::empty(), t1, "-data"@, '_');
    assert(!contains_pat(t2, "-data"@));
    assert(name + seq!['='] + t2 =~= f);
    lemma_pat_concat_char(name, t2, "-data"@, '=');
    assert(!contains_pat(f, "-data"@));
}

/// Looking a key up among distinct-keyed pairs finds its binding.
proof fn lemma_lookup_found(pairs: Seq<(Seq<char>, Seq<char>)>, j: int)
    requires
        0 <= j < pairs.len(),
        forall|k: int| 0 <= k < pairs.len() && k != j ==> (#[trigger] pairs[k]).0 != pairs[j].0,
    ensures
        lookup_pair(pairs, pairs[j].0) == Some(pairs[j].1),
    decreases pairs.len(),
{
    if j == pairs.len() - 1 {
        assert(pairs.last() == pairs[j]);
    } else {
        assert(pairs.last().0 != pairs[j].0);
        assert(pairs.drop_last()[j] == pairs[j]);
        lemma_lookup_found(pairs.drop_last(), j);
    }
}

proof fn lemma_lookup_absent(pairs: Seq<(Seq<char>, Seq<char>)>, key: Seq<char>)
    requires
        forall|k: int| 0 <= k < pairs.len() ==> (#[trigger] pairs[k]).0 != key,
    ensures
        lookup_pair(pairs, key) is None,
    decreases pairs.len(),
{
    if pairs.len() > 0 {
        lemma_lookup_absent(pairs.drop_last(), key);
    }
}

proof fn lemma_row_from_empty(columns: Seq<ColModel>)
    ensures
        row_from(columns, Seq::<(Seq<char>, Seq<char>)>::empty()) == Seq::<ValModel>::empty(),
    decreases columns.len(),
{
    if columns.len() > 0 {
        lemma_row_from_empty(columns.drop_last());
        assert(row_from(columns, Seq::<(Seq<char>, Seq<char>)>::empty()) =~= Seq::<
            ValModel,
        >::empty());
    }
}

/// The pairs parsed from an encoded data line's fields.
proof fn lemma_pairs_of_fields(names: Seq<Seq<char>>, row: Seq<ValModel>, m: int)
    requires
        0 <= m <= row.len(),
        row.len() <= names.len(),
        forall|j: int|
            0 <= j < row.len() ==> !contains_char(#[trigger] names[j], '=') && !contains_char(
                names[j],
                '|',
            ) && !contains_char(names[j], '\n') && !contains_pat(names[j], "-data"@),
        forall|j: int| 0 <= j < row.len() ==> val_wf(#[trigger] row[j]),
    ensures
        pairs_of(Seq::new(m as nat, |j: int| pair_spec(names[j], row[j]))) == Seq::new(
            m as nat,
            |j: int| (names[j], render_spec(row[j])),
        ),
    decreases m,
{
    let fields = Seq::new(m as nat, |j: int| pair_spec(names[j], row[j]));
    let pairs = Seq::new(m as nat, |j: int| (names[j], render_spec(row[j])));
    if m == 0 {
        assert(fields =~= Seq::<Seq<char>>::empty());
        assert(pairs_of(fields) =~= pairs);
    } else {
        lemma_pairs_of_fields(names, row, m - 1);
        let prev_fields = Seq::new((m - 1) as nat, |j: int| pair_spec(names[j], row[j]));
        assert(fields.drop_last() =~= prev_fields);
        assert(fields.last() == pair_spec(names[m - 1], row[m - 1]));
        lemma_field_parse(names[m - 1], row[m - 1]);
        let parts = split_pat(fields.last(), "=_="@);
        assert(parts == seq![names[m - 1], render_spec(row[m - 1])]);
        assert(parts.len() == 2);
        assert(parts[0] == names[m - 1]);
        assert(parts[1] == render_spec(row[m - 1]));
        let prev_pairs = Seq::new((m - 1) as nat, |j: int| (names[j], render_spec(row[j])));
        assert(pairs_of(fields) == prev_pairs.push((names[m - 1], render_spec(row[m - 1]))));
        assert(prev_pairs.push((names[m - 1], render_spec(row[m - 1]))) =~= pairs);
    }
}

/// Rebuilding a row from the looked-up pairs recovers it.
proof fn lemma_row_reconstruct(cols: Seq<ColModel>, row: Seq<ValModel>, m: int)
    requires
        0 <= m <= cols.len(),
        row.len() <= cols.len(),
        forall|i: int, j: int| 0 <= i < j < cols.len() ==> cols[i].name != cols[j].name,
        forall|j: int| 0 <= j < row.len() ==> val_wf(#[trigger] row[j]) && rebuilds(
            cols[j].data_type,
            row[j],
        ),
    ensures
        row_from(
            cols.take(m),
            Seq::new(row.len(), |j: int| (cols[j].name, render_spec(row[j]))),
        ) == (if m <= row.len() {
            row.take(m)
        } else {
            row
        }),
    decreases m,
{
    let pairs = Seq::new(row.len(), |j: int| (cols[j].name, render_spec(row[j])));
    if m == 0 {
        assert(cols.take(0) =~= Seq::<ColModel>::empty());
        assert(row.take(0) =~= Seq::<ValModel>::empty());
    } else {
        lemma_row_reconstruct(cols, row, m - 1);
        let t = cols.take(m);
        assert(t.drop_last() =~= cols.take(m - 1));
        assert(t.last() == cols[m - 1]);
        if m - 1 < row.len() {
            assert(pairs[m - 1].0 == cols[m - 1].name);
            assert(forall|k: int|
                0 <= k < pairs.len() && k != m - 1 ==> (#[trigger] pairs[k]).0 != pairs[m
                    - 1].0);
            lemma_lookup_found(pairs, m - 1);
            assert(lookup_pair(pairs, cols[m - 1].name) == Some(render_spec(row[m - 1])));
            assert(from_declared_spec(cols[m - 1].data_type, render_spec(row[m - 1])) == row[m
                - 1]);
            assert(row.take(m - 1) + seq![row[m - 1]] =~= row.take(m));
        } else {
            assert(forall|k: int|
                0 <= k < pairs.len() ==> (#[trigger] pairs[k]).0 != cols[m - 1].name);
            lemma_lookup_absent(pairs, cols[m - 1].name);
            if m - 1 == row.len() {
                assert(row.take(m - 1) =~= row);
            }
            assert(row_from(t, pairs) =~= row_from(cols.take(m - 1), pairs));
        }
    }
}

/// An encoded data line decodes back into exactly its row.
proof fn lemma_data_line_parse(cols: Seq<ColModel>, row: Seq<ValModel>)
    requires
        forall|i: int| 0 <= i < cols.len() ==> col_wf(#[trigger] cols[i]),
        forall|i: int, j: int| 0 <= i < j < cols.len() ==> cols[i].name != cols[j].name,
        row.len() <= cols.len(),
        forall|j: int| 0 <= j < row.len() ==> val_wf(#[trigger] row[j]) && rebuilds(
            cols[j].data_type,
            row[j],
        ),
    ensures
        ({
            let line = data_line_spec(cols.map_values(|c: ColModel| c.name), row);
            &&& line.len() >= 1
            &&& line[0] == '%'
            &&& !contains_pat(line, "-data"@)
            &&& !contains_char(line, '\n')
            &&& row_from(cols, pairs_of(split_char(line.skip(1), '|'))) == row
        }),
{
    lemma_literals();
    let names = cols.map_values(|c: ColModel| c.name);
    let fields = Seq::new(row.len(), |i: int| pair_spec(names[i], row[i]));
    let line = data_line_spec(names, row);
    assert(line =~= "%"@ + join_char(fields, '|'));
    assert(line[0] == '%');
    assert(forall|j: int|
        0 <= j < row.len() ==> !contains_char(#[trigger] names[j], '=') && !contains_char(
            names[j],
            '|',
        ) && !contains_char(names[j], '\n') && !contains_pat(names[j], "-data"@)) by {
        assert forall|j: int| 0 <= j < row.len() implies !contains_char(
            #[trigger] names[j],
            '=',
        ) && !contains_char(names[j], '|') && !contains_char(names[j], '\n') && !contains_pat(
            names[j],
            "-data"@,
        ) by {
            assert(col_wf(cols[j]));
        }
    }
    assert(forall|i: int|
        0 <= i < fields.len() ==> !contains_char(#[trigger] fields[i], '|') && !contains_char(
            fields[i],
            '\n',
        ) && !contains_pat(fields[i], "-data"@) && split_pat(fields[i], "=_="@) == seq![
            names[i],
            render_spec(row[i]),
        ]) by {
        assert forall|i: int| 0 <= i < fields.len() implies !contains_char(
            #[trigger] fields[i],
            '|',
        ) && !contains_char(fields[i], '\n') && !contains_pat(fields[i], "-data"@) && split_pat(
            fields[i],
            "=_="@,
        ) == seq![names[i], render_spec(row[i])] by {
            lemma_field_parse(names[i], row[i]);
        }
    }
    // The whole line stays clear of `-data` and line breaks.
    lemma_join_no_pat(fields, "-data"@, '|');
    lemma_pat_concat_char(Seq::<char>::empty(), join_char(fields, '|'), "-data"@, '%');
    assert(Seq::<char>::empty() + seq!['%'] + join_char(fields, '|') =~= line);
    lemma_join_no_char(fields, '\n', '|');
    lemma_contains_char_concat("%"@, join_char(fields, '|'), '\n');
    assert(!contains_char("%"@, '\n'));
    // Split the line back into its fields and pairs.
    assert(line.skip(1) =~= join_char(fields, '|'));
    let pairs = Seq::new(row.len(), |j: int| (names[j], render_spec(row[j])));
    if row.len() == 0 {
        assert(fields.len() == 0);
        assert(join_char(fields, '|') =~= Seq::<char>::empty());
        assert(split_char(line.skip(1), '|') =~= seq![Seq::<char>::empty()]);
        let parsed = pairs_of(seq![Seq::<char>::empty()]);
        assert(seq![Seq::<char>::empty()].drop_last() =~= Seq::<Seq<char>>::empty());
        assert(pairs_of(Seq::<Seq<char>>::empty()) == Seq::<(Seq<char>, Seq<char>)>::empty());
        assert(split_pat(Seq::<char>::empty(), "=_="@).len() == 1);
        assert(parsed =~= Seq::<(Seq<char>, Seq<char>)>::empty());
        lemma_row_from_empty(cols);
        assert(row_from(cols, parsed) =~= row);
    } else {
        lemma_split_join_char(fields, '|');
        assert(split_char(line.skip(1), '|') == fields);
        lemma_pairs_of_fields(names, row, row.len() as int);
        assert(fields =~= Seq::new(row.len(), |j: int| pair_spec(names[j], row[j])));
        assert(pairs_of(fields) == pairs);
        assert(forall|j: int| 0 <= j < row.len() ==> (#[trigger] pairs[j]).0 == cols[j].name);
        assert(pairs =~= Seq::new(row.len(), |j: int| (cols[j].name, render_spec(row[j]))));
        lemma_row_reconstruct(cols, row, cols.len() as int);
        assert(cols.take(cols.len() as int) =~= cols);
        if row.len() == cols.len() {
            assert(row.take(cols.len() as int) =~= row);
        }
        assert(row_from(cols, pairs) == row);
    }
}

/// An encoded schema line decodes back into exactly its column.
proof fn lemma_schema_line_parse(c: ColModel)
    requires
        col_wf(c),
    ensures
        ({
            let line = schema_line_spec(c);
            &&& line.len() >= 2
            &&& line[0] == '%'
            &&& !contains_pat(line, "-schema"@)
            &&& !contains_char(line, '\n')
            &&& split_char(line.skip(2), '|') == seq![c.name, c.data_type, marker_seq(
                c.is_nullable,
            )]
            &&& ((marker_seq(c.is_nullable) == "y_null"@) <==> c.is_nullable)
        }),
{
    lemma_literals();
    let line = schema_line_spec(c);
    let marker = marker_seq(c.is_nullable);
    let fields = seq![c.name, c.data_type, marker];
    assert(!contains_char(marker, '|'));
    assert(!contains_char(marker, '\n'));
    assert(!contains_char(marker, '-'));
    lemma_pat_first_char(marker, "-schema"@);
    assert(join_char(fields, '|') =~= c.name + seq!['|'] + (c.data_type + seq!['|'] + marker)) by {
        assert(fields.drop_first() =~= seq![c.data_type, marker]);
        assert(seq![c.data_type, marker].drop_first() =~= seq![marker]);
        assert(join_char(seq![marker], '|') == marker);
        assert(join_char(seq![c.data_type, marker], '|') == c.data_type + seq!['|'] + join_char(
            seq![marker],
            '|',
        ));
        assert(join_char(fields, '|') == fields[0] + seq!['|'] + join_char(
            fields.drop_first(),
            '|',
        ));
    }
    assert(line =~= "%|"@ + join_char(fields, '|'));
    assert(line.skip(2) =~= join_char(fields, '|'));
    lemma_split_join_char(fields, '|');
    assert(split_char(line.skip(2), '|') == fields);
    assert(line[0] == '%');
    // No `-schema` and no line break anywhere in the line.
    lemma_join_no_pat(fields, "-schema"@, '|');
    let joined = join_char(fields, '|');
    let t1 = seq!['|'] + joined;
    assert(Seq::<char>::empty() + seq!['|'] + joined =~= t1);
    lemma_pat_concat_char(Seq::<char>::empty(), joined, "-schema"@, '|');
    assert(Seq::<char>::empty() + seq!['%'] + t1 =~= line);
    lemma_pat_concat_char(Seq::<char>::empty(), t1, "-schema"@, '%');
    lemma_join_no_char(fields, '\n', '|');
    lemma_contains_char_concat("%|"@, joined, '\n');
    assert(!contains_char("%|"@, '\n'));
    // The marker distinguishes nullability.
    if !c.is_nullable {
        assert(marker[0] == 'n');
        assert("y_null"@[0] == 'y');
    }
}


// ---------------------------------------------------------------------------
// Running the machine over one encoded block
// ---------------------------------------------------------------------------


proof fn lemma_dec_run_two(st: DecState, a: Seq<char>, b: Seq<char>)
    ensures
        dec_run(st, seq![a, b]) == dec_step(dec_step(st, a), b),
{
    let l: Seq<Seq<char>> = seq![a, b];
    assert(l[0] == a);
    assert(l.drop_first() =~= seq![b]);
    assert(seq![b][0] == b);
    assert(seq![b].drop_first() =~= Seq::<Seq<char>>::empty());
    assert(dec_run(dec_step(dec_step(st, a), b), Seq::<Seq<char>>::empty()) == dec_step(
        dec_step(st, a),
        b,
    ));
    assert(dec_run(dec_step(st, a), seq![b]) == dec_run(
        dec_step(dec_step(st, a), b),
        seq![b].drop_first(),
    ));
    assert(dec_run(st, l) == dec_run(dec_step(st, a), l.drop_first()));
}

proof fn lemma_dec_run_three(st: DecState, a: Seq<char>, b: Seq<char>, c: Seq<char>)
    ensures
        dec_run(st, seq![a, b, c]) == dec_step(dec_step(dec_step(st, a), b), c),
{
    let l: Seq<Seq<char>> = seq![a, b, c];
    assert(l[0] == a);
    assert(l.drop_first() =~= seq![b, c]);
    lemma_dec_run_two(dec_step(st, a), b, c);
    assert(dec_run(st, l) == dec_run(dec_step(st, a), l.drop_first()));
}

proof fn lemma_run_schema_lines(st: DecState, cols: Seq<ColModel>)
    requires
        st.mode == ParseMode::InSchema,
        !st.failed,
        forall|i: int| 0 <= i < cols.len() ==> col_wf(#[trigger] cols[i]),
    ensures
        dec_run(st, cols.map_values(|c: ColModel| schema_line_spec(c))) == (DecState {
            mode: ParseMode::InSchema,
            cur: TableModel {
                name: st.cur.name,
                columns: st.cur.columns + cols,
                data: st.cur.data,
            },
            done: st.done,
            failed: false,
        }),
    decreases cols.len(),
{
    let lines = cols.map_values(|c: ColModel| schema_line_spec(c));
    let target = DecState {
        mode: ParseMode::InSchema,
        cur: TableModel { name: st.cur.name, columns: st.cur.columns + cols, data: st.cur.data },
        done: st.done,
        failed: false,
    };
    if cols.len() == 0 {
        assert(lines =~= Seq::<Seq<char>>::empty());
        assert(dec_run(st, lines) == st);
        assert(st.cur.columns + cols =~= st.cur.columns);
        assert(st =~~= target);
    } else {
        lemma_schema_line_parse(cols[0]);
        let line0 = schema_line_spec(cols[0]);
        assert(lines[0] == line0);
        let st1 = dec_step(st, line0);
        assert(st1.mode == ParseMode::InSchema);
        assert(!st1.failed);
        let fields = split_char(line0.skip(2), '|');
        assert(fields == seq![cols[0].name, cols[0].data_type, marker_seq(cols[0].is_nullable)]);
        assert(fields.len() == 3);
        assert(fields[0] == cols[0].name);
        assert(fields[1] == cols[0].data_type);
        assert(fields[2] == marker_seq(cols[0].is_nullable));
        assert((fields[2] == "y_null"@) == cols[0].is_nullable);
        assert(st1.cur.columns =~~= st.cur.columns.push(cols[0]));
        assert(st1.cur.name == st.cur.name);
        assert(st1.cur.data == st.cur.data);
        assert(forall|i: int|
            0 <= i < cols.drop_first().len() ==> col_wf(#[trigger] cols.drop_first()[i]));
        lemma_run_schema_lines(st1, cols.drop_first());
        assert(lines.drop_first() =~= cols.drop_first().map_values(
            |c: ColModel| schema_line_spec(c),
        ));
        assert(st.cur.columns.push(cols[0]) + cols.drop_first() =~= st.cur.columns + cols);
        assert(dec_run(st1, lines.drop_first()) =~~= target);
        assert(dec_run(st, lines) == dec_run(st1, lines.drop_first()));
    }
}

proof fn lemma_run_data_lines(st: DecState, cols: Seq<ColModel>, rows: Seq<Seq<ValModel>>)
    requires
        st.mode == ParseMode::InData,
        !st.failed,
        st.cur.columns == cols,
        forall|i: int| 0 <= i < cols.len() ==> col_wf(#[trigger] cols[i]),
        forall|i: int, j: int| 0 <= i < j < cols.len() ==> cols[i].name != cols[j].name,
        forall|i: int| 0 <= i < rows.len() ==> (#[trigger] rows[i]).len() <= cols.len(),
        forall|i: int, j: int|
            0 <= i < rows.len() && 0 <= j < (#[trigger] rows[i]).len() ==> val_wf(
                #[trigger] rows[i][j],
            ) && rebuilds(cols[j].data_type, rows[i][j]),
    ensures
        dec_run(
            st,
            rows.map_values(
                |row: Seq<ValModel>| data_line_spec(cols.map_values(|c: ColModel| c.name), row),
            ),
        ) == (DecState {
            mode: ParseMode::InData,
            cur: TableModel { name: st.cur.name, columns: cols, data: st.cur.data + rows },
            done: st.done,
            failed: false,
        }),
    decreases rows.len(),
{
    let names = cols.map_values(|c: ColModel| c.name);
    let lines = rows.map_values(|row: Seq<ValModel>| data_line_spec(names, row));
    let target = DecState {
        mode: ParseMode::InData,
        cur: TableModel { name: st.cur.name, columns: cols, data: st.cur.data + rows },
        done: st.done,
        failed: false,
    };
    if rows.len() == 0 {
        assert(lines =~= Seq::<Seq<char>>::empty());
        assert(dec_run(st, lines) == st);
        assert(st.cur.data + rows =~= st.cur.data);
        assert(st =~~= target);
    } else {
        assert(forall|j: int| 0 <= j < rows[0].len() ==> val_wf(#[trigger] rows[0][j])
            && rebuilds(cols[j].data_type, rows[0][j])) by {
            assert forall|j: int| 0 <= j < rows[0].len() implies val_wf(#[trigger] rows[0][j])
                && rebuilds(cols[j].data_type, rows[0][j]) by {
                assert(rows[0].len() <= cols.len());
                assert(val_wf(rows[0][j]) && rebuilds(cols[j].data_type, rows[0][j]));
            }
        }
        lemma_data_line_parse(cols, rows[0]);
        let line0 = data_line_spec(names, rows[0]);
        assert(lines[0] == line0);
        let st1 = dec_step(st, line0);
        assert(st1.mode == ParseMode::InData);
        assert(!st1.failed);
        assert(st1.cur =~~= TableModel {
            name: st.cur.name,
            columns: cols,
            data: st.cur.data.push(rows[0]),
        });
        assert(forall|i: int|
            0 <= i < rows.drop_first().len() ==> (#[trigger] rows.drop_first()[i]).len()
                <= cols.len());
        assert(forall|i: int, j: int|
            0 <= i < rows.drop_first().len() && 0 <= j < (#[trigger] rows.drop_first()[i]).len()
                ==> val_wf(#[trigger] rows.drop_first()[i][j]) && rebuilds(
                cols[j].data_type,
                rows.drop_first()[i][j],
            )) by {
            assert forall|i: int, j: int|
                0 <= i < rows.drop_first().len() && 0 <= j < (
                #[trigger] rows.drop_first()[i]).len() implies val_wf(
                #[trigger] rows.drop_first()[i][j],
            ) && rebuilds(cols[j].data_type, rows.drop_first()[i][j]) by {
                assert(rows.drop_first()[i] == rows[i + 1]);
                assert(val_wf(rows[i + 1][j]) && rebuilds(cols[j].data_type, rows[i + 1][j]));
            }
        }
        lemma_run_data_lines(st1, cols, rows.drop_first());
        assert(lines.drop_first() =~= rows.drop_first().map_values(
            |row: Seq<ValModel>| data_line_spec(names, row),
        ));
        assert(st.cur.data.push(rows[0]) + rows.drop_first() =~= st.cur.data + rows);
        assert(dec_run(st1, lines.drop_first()) =~~= target);
        assert(dec_run(st, lines) == dec_run(st1, lines.drop_first()));
    }
}

/// A table flushed when the next header arrives, or nothing if none is
/// open.
pub open spec fn flush_of(cur: TableModel) -> Seq<TableModel> {
    if cur.name.len() > 0 {
        seq![cur]
    } else {
        Seq::<TableModel>::empty()
    }
}

/// The header line flushes any open table and opens the named one.
proof fn lemma_step_header(st: DecState, name: Seq<char>)
    requires
        st.mode == ParseMode::Outside,
        !st.failed,
        name.len() > 0,
    ensures
        dec_step(st, header_line_spec(name)) == (DecState {
            mode: ParseMode::Outside,
            cur: TableModel {
                name: name,
                columns: Seq::<ColModel>::empty(),
                data: Seq::<Seq<ValModel>>::empty(),
            },
            done: st.done + flush_of(st.cur),
            failed: false,
        }),
{
    reveal_strlit("#table");
    reveal_strlit("#table=");
    let h = header_line_spec(name);
    assert("#table="@ =~= seq!['#', 't', 'a', 'b', 'l', 'e', '=']);
    assert("#table"@ =~= seq!['#', 't', 'a', 'b', 'l', 'e']);
    assert(is_prefix("#table"@, h)) by {
        assert(h.subrange(0, 6) =~= "#table"@);
    }
    assert(h.len() == 7 + name.len());
    assert(index_of_char(h, '=') == 6) by {
        assert(h[6] == '=');
        assert(forall|j: int| 0 <= j < 6 ==> h[j] != '=');
        lemma_index_of_char_unique(h, '=', 6);
    }
    assert(h.skip(7) =~= name);
    if st.cur.name.len() > 0 {
        assert(st.done.push(st.cur) =~= st.done + flush_of(st.cur));
    } else {
        assert(st.done =~= st.done + flush_of(st.cur));
    }
    assert(dec_step(st, h) =~~= DecState {
        mode: ParseMode::Outside,
        cur: TableModel {
            name: name,
            columns: Seq::<ColModel>::empty(),
            data: Seq::<Seq<ValModel>>::empty(),
        },
        done: st.done + flush_of(st.cur),
        failed: false,
    });
}

/// `+schema:` enters the schema section.
proof fn lemma_step_schema_open(st: DecState)
    requires
        st.mode == ParseMode::Outside,
        !st.failed,
    ensures
        dec_step(st, "+schema:"@) == (DecState {
            mode: ParseMode::InSchema,
            cur: st.cur,
            done: st.done,
            failed: false,
        }),
{
    reveal_strlit("#table");
    reveal_strlit("+schema");
    reveal_strlit("+schema:");
    let sopen = "+schema:"@;
    assert("+schema:"@ =~= seq!['+', 's', 'c', 'h', 'e', 'm', 'a', ':']);
    assert("+schema"@ =~= seq!['+', 's', 'c', 'h', 'e', 'm', 'a']);
    assert("#table"@.len() == 6);
    assert(!is_prefix("#table"@, sopen)) by {
        if is_prefix("#table"@, sopen) {
            assert(sopen.subrange(0, 6)[0] == "#table"@[0]);
        }
    }
    assert(is_prefix("+schema"@, sopen)) by {
        assert(sopen.subrange(0, 7) =~= "+schema"@);
    }
}

/// `+data:` enters the data section.
proof fn lemma_step_data_open(st: DecState)
    requires
        st.mode == ParseMode::Outside,
        !st.failed,
    ensures
        dec_step(st, "+data:"@) == (DecState {
            mode: ParseMode::InData,
            cur: st.cur,
            done: st.done,
            failed: false,
        }),
{
    reveal_strlit("#table");
    reveal_strlit("+schema");
    reveal_strlit("+data");
    reveal_strlit("+data:");
    let dopen = "+data:"@;
    assert("+data:"@ =~= seq!['+', 'd', 'a', 't', 'a', ':']);
    assert("+data"@ =~= seq!['+', 'd', 'a', 't', 'a']);
    assert("#table"@.len() == 6);
    assert("+schema"@.len() == 7);
    assert(!is_prefix("#table"@, dopen)) by {
        if is_prefix("#table"@, dopen) {
            assert(dopen.subrange(0, 6)[0] == "#table"@[0]);
        }
    }
    assert(!is_prefix("+schema"@, dopen)) by {
        assert(dopen.len() == 6);
    }
    assert(is_prefix("+data"@, dopen)) by {
        assert(dopen.subrange(0, 5) =~= "+data"@);
    }
}

/// `-schema` leaves the schema section.
proof fn lemma_step_schema_close(st: DecState)
    requires
        st.mode == ParseMode::InSchema,
        !st.failed,
    ensures
        dec_step(st, "-schema"@) == (DecState {
            mode: ParseMode::Outside,
            cur: st.cur,
            done: st.done,
            failed: false,
        }),
{
    let sclose = "-schema"@;
    assert(contains_pat(sclose, "-schema"@)) by {
        assert(sclose.subrange(0, sclose.len() as int) =~= sclose);
        assert(has_pat_at(sclose, "-schema"@, 0));
    }
}

/// `-data` leaves the data section.
proof fn lemma_step_data_close(st: DecState)
    requires
        st.mode == ParseMode::InData,
        !st.failed,
    ensures
        dec_step(st, "-data"@) == (DecState {
            mode: ParseMode::Outside,
            cur: st.cur,
            done: st.done,
            failed: false,
        }),
{
    let dclose = "-data"@;
    assert(contains_pat(dclose, "-data"@)) by {
        assert(dclose.subrange(0, dclose.len() as int) =~= dclose);
        assert(has_pat_at(dclose, "-data"@, 0));
    }
}

/// A blank line outside any section does nothing.
proof fn lemma_step_blank(st: DecState)
    requires
        st.mode == ParseMode::Outside,
        !st.failed,
    ensures
        dec_step(st, Seq::<char>::empty()) == st,
{
    reveal_strlit("#table");
    reveal_strlit("+schema");
    reveal_strlit("+data");
    let e = Seq::<char>::empty();
    assert("#table"@.len() == 6);
    assert("+schema"@.len() == 7);
    assert("+data"@.len() == 5);
    assert(!is_prefix("#table"@, e));
    assert(!is_prefix("+schema"@, e));
    assert(!is_prefix("+data"@, e));
}

/// The head of one block: header, schema section, `+data:`.
#[verifier::rlimit(100)]
proof fn lemma_decode_block_head(st: DecState, t: TableModel)
    requires
        st.mode == ParseMode::Outside,
        !st.failed,
        round_trippable(t),
    ensures
        ({
            let head: Seq<Seq<char>> = seq![header_line_spec(t.name), "+schema:"@]
                + t.columns.map_values(|c: ColModel| schema_line_spec(c)) + seq![
                "-schema"@,
                "+data:"@,
            ];
            dec_run(st, head) == (DecState {
                mode: ParseMode::InData,
                cur: TableModel {
                    name: t.name,
                    columns: t.columns,
                    data: Seq::<Seq<ValModel>>::empty(),
                },
                done: st.done + flush_of(st.cur),
                failed: false,
            })
        }),
{
    let schema_lines = t.columns.map_values(|c: ColModel| schema_line_spec(c));
    let h = header_line_spec(t.name);
    let c1: Seq<Seq<char>> = seq![h, "+schema:"@];
    let c2: Seq<Seq<char>> = seq!["-schema"@, "+data:"@];
    let head = c1 + schema_lines + c2;

    lemma_step_header(st, t.name);
    let st_h = dec_step(st, h);
    lemma_step_schema_open(st_h);
    let st_s = dec_step(st_h, "+schema:"@);
    lemma_dec_run_two(st, h, "+schema:"@);
    assert(dec_run(st, c1) == st_s);

    lemma_run_schema_lines(st_s, t.columns);
    let st_cols = dec_run(st_s, schema_lines);
    assert(st_cols.cur.columns =~= t.columns) by {
        assert(st_s.cur.columns + t.columns =~= t.columns);
    }

    lemma_step_schema_close(st_cols);
    let st_sc = dec_step(st_cols, "-schema"@);
    lemma_step_data_open(st_sc);
    let st_d = dec_step(st_sc, "+data:"@);
    lemma_dec_run_two(st_cols, "-schema"@, "+data:"@);
    assert(dec_run(st_cols, c2) == st_d);

    lemma_dec_run_concat(st, c1 + schema_lines, c2);
    lemma_dec_run_concat(st, c1, schema_lines);
    assert(head =~= (c1 + schema_lines) + c2);
    assert(st_d =~~= DecState {
        mode: ParseMode::InData,
        cur: TableModel {
            name: t.name,
            columns: t.columns,
            data: Seq::<Seq<ValModel>>::empty(),
        },
        done: st.done + flush_of(st.cur),
        failed: false,
    });
}

/// Running the machine over one well-formed encoded block, from outside
/// a block: the open table is flushed and the block's table is open at
/// the end.
#[verifier::rlimit(100)]
proof fn lemma_decode_block(st: DecState, t: TableModel)
    requires
        st.mode == ParseMode::Outside,
        !st.failed,
        round_trippable(t),
    ensures
        dec_run(st, snapshot_lines_spec(t)) == (DecState {
            mode: ParseMode::Outside,
            cur: t,
            done: st.done + flush_of(st.cur),
            failed: false,
        }),
{
    let names = t.columns.map_values(|c: ColModel| c.name);
    let schema_lines = t.columns.map_values(|c: ColModel| schema_line_spec(c));
    let data_lines = t.data.map_values(|row: Seq<ValModel>| data_line_spec(names, row));
    let e = Seq::<char>::empty();
    let lines = snapshot_lines_spec(t);
    let h = header_line_spec(t.name);
    let c1: Seq<Seq<char>> = seq![h, "+schema:"@];
    let c2: Seq<Seq<char>> = seq!["-schema"@, "+data:"@];
    let c3: Seq<Seq<char>> = seq!["-data"@, e, e];
    let head = c1 + schema_lines + c2;
    assert(lines =~= head + data_lines + c3);

    lemma_decode_block_head(st, t);
    let st_d = dec_run(st, head);
    assert(st_d.cur.columns == t.columns);

    lemma_run_data_lines(st_d, t.columns, t.data);
    let st_rows = dec_run(st_d, data_lines);
    assert(st_rows.cur =~~= t) by {
        assert(st_d.cur.data + t.data =~= t.data);
    }

    lemma_step_data_close(st_rows);
    let st_dc = dec_step(st_rows, "-data"@);
    lemma_step_blank(st_dc);
    let st_e1 = dec_step(st_dc, e);
    lemma_step_blank(st_e1);
    let st_e2 = dec_step(st_e1, e);
    lemma_dec_run_three(st_rows, "-data"@, e, e);
    assert(dec_run(st_rows, c3) == st_e2);

    lemma_dec_run_concat(st, head + data_lines, c3);
    lemma_dec_run_concat(st, head, data_lines);
    assert(lines =~= (head + data_lines) + c3);
    assert(st_e2 =~~= DecState {
        mode: ParseMode::Outside,
        cur: t,
        done: st.done + flush_of(st.cur),
        failed: false,
    });
}

// ---------------------------------------------------------------------------
// Every encoded line is newline-free
// ---------------------------------------------------------------------------

proof fn lemma_block_lines_plain(t: TableModel)
    requires
        round_trippable(t),
    ensures
        forall|i: int|
            0 <= i < snapshot_lines_spec(t).len() ==> !contains_char(
                #[trigger] snapshot_lines_spec(t)[i],
                '\n',
            ),
{
    lemma_literals();
    let names = t.columns.map_values(|c: ColModel| c.name);
    let schema_lines = t.columns.map_values(|c: ColModel| schema_line_spec(c));
    let data_lines = t.data.map_values(|row: Seq<ValModel>| data_line_spec(names, row));
    let e = Seq::<char>::empty();
    let lines = snapshot_lines_spec(t);
    let h = header_line_spec(t.name);
    assert(!contains_char(h, '\n')) by {
        lemma_contains_char_concat("#table="@, t.name, '\n');
        assert(!contains_char("#table="@, '\n')) by {
            if contains_char("#table="@, '\n') {
                let i = choose|i: int| 0 <= i < "#table="@.len() && "#table="@[i] == '\n';
            }
        }
    }
    assert(!contains_char("+schema:"@, '\n')) by {
        if contains_char("+schema:"@, '\n') {
            let i = choose|i: int| 0 <= i < "+schema:"@.len() && "+schema:"@[i] == '\n';
        }
    }
    assert(!contains_char("-schema"@, '\n')) by {
        if contains_char("-schema"@, '\n') {
            let i = choose|i: int| 0 <= i < "-schema"@.len() && "-schema"@[i] == '\n';
        }
    }
    assert(!contains_char("+data:"@, '\n')) by {
        if contains_char("+data:"@, '\n') {
            let i = choose|i: int| 0 <= i < "+data:"@.len() && "+data:"@[i] == '\n';
        }
    }
    assert(!contains_char("-data"@, '\n')) by {
        if contains_char("-data"@, '\n') {
            let i = choose|i: int| 0 <= i < "-data"@.len() && "-data"@[i] == '\n';
        }
    }
    assert(forall|k: int|
        0 <= k < schema_lines.len() ==> !contains_char(#[trigger] schema_lines[k], '\n')) by {
        assert forall|k: int| 0 <= k < schema_lines.len() implies !contains_char(
            #[trigger] schema_lines[k],
            '\n',
        ) by {
            lemma_schema_line_parse(t.columns[k]);
        }
    }
    assert(forall|k: int|
        0 <= k < data_lines.len() ==> !contains_char(#[trigger] data_lines[k], '\n')) by {
        assert forall|k: int| 0 <= k < data_lines.len() implies !contains_char(
            #[trigger] data_lines[k],
            '\n',
        ) by {
            assert(forall|j: int| 0 <= j < t.data[k].len() ==> val_wf(#[trigger] t.data[k][j])
                && rebuilds(t.columns[j].data_type, t.data[k][j]));
            lemma_data_line_parse(t.columns, t.data[k]);
        }
    }
    let c1: Seq<Seq<char>> = seq![h, "+schema:"@];
    let c2: Seq<Seq<char>> = seq!["-schema"@, "+data:"@];
    let c3: Seq<Seq<char>> = seq!["-data"@, e, e];
    assert(lines =~= c1 + schema_lines + c2 + data_lines + c3);
    assert forall|i: int| 0 <= i < lines.len() implies !contains_char(
        #[trigger] lines[i],
        '\n',
    ) by {
        let n1: int = 2;
        let n2 = n1 + schema_lines.len();
        let n3 = n2 + 2;
        let n4 = n3 + data_lines.len();
        if i < n1 {
            assert(lines[i] == c1[i]);
        } else if i < n2 {
            assert(lines[i] == schema_lines[i - n1]);
        } else if i < n3 {
            assert(lines[i] == c2[i - n2]);
        } else if i < n4 {
            assert(lines[i] == data_lines[i - n3]);
        } else {
            assert(lines[i] == c3[i - n4]);
        }
    }
}

proof fn lemma_all_lines_plain(ts: Seq<TableModel>)
    requires
        forall|i: int| 0 <= i < ts.len() ==> round_trippable(#[trigger] ts[i]),
    ensures
        forall|i: int|
            0 <= i < tables_lines_spec(ts).len() ==> !contains_char(
                #[trigger] tables_lines_spec(ts)[i],
                '\n',
            ),
    decreases ts.len(),
{
    if ts.len() > 0 {
        lemma_block_lines_plain(ts[0]);
        lemma_all_lines_plain(ts.drop_first());
        let first = snapshot_lines_spec(ts[0]);
        let rest = tables_lines_spec(ts.drop_first());
        assert forall|i: int| 0 <= i < tables_lines_spec(ts).len() implies !contains_char(
            #[trigger] tables_lines_spec(ts)[i],
            '\n',
        ) by {
            if i < first.len() {
                assert(tables_lines_spec(ts)[i] == first[i]);
            } else {
                assert(tables_lines_spec(ts)[i] == rest[i - first.len()]);
            }
        }
    }
}

// ---------------------------------------------------------------------------
// Whole-stream decoding of encoded blocks
// ---------------------------------------------------------------------------

proof fn lemma_decode_blocks(st: DecState, ts: Seq<TableModel>)
    requires
        st.mode == ParseMode::Outside,
        !st.failed,
        forall|i: int| 0 <= i < ts.len() ==> round_trippable(#[trigger] ts[i]),
    ensures
        ({
            let r = dec_run(st, tables_lines_spec(ts));
            &&& r.mode == ParseMode::Outside
            &&& !r.failed
            &&& (ts.len() == 0 ==> r == st)
            &&& (ts.len() > 0 ==> r.cur == ts.last() && r.done == st.done + flush_of(st.cur)
                + ts.drop_last())
        }),
    decreases ts.len(),
{
    if ts.len() > 0 {
        let snap = snapshot_lines_spec(ts[0]);
        let rest_lines = tables_lines_spec(ts.drop_first());
        assert(tables_lines_spec(ts) == snap + rest_lines);
        assert(round_trippable(ts[0]));
        lemma_decode_block(st, ts[0]);
        let st1 = dec_run(st, snap);
        lemma_dec_run_concat(st, snap, rest_lines);
        assert(forall|i: int|
            0 <= i < ts.drop_first().len() ==> round_trippable(#[trigger] ts.drop_first()[i]));
        lemma_decode_blocks(st1, ts.drop_first());
        let r = dec_run(st1, rest_lines);
        if ts.len() == 1 {
            assert(ts.drop_first().len() == 0);
            assert(r == st1);
            assert(ts.last() == ts[0]);
            assert(ts.drop_last() =~= Seq::<TableModel>::empty());
            assert(st1.done =~= st.done + flush_of(st.cur) + ts.drop_last());
        } else {
            assert(ts.drop_first().last() == ts.last());
            assert(r.done == st1.done + flush_of(st1.cur) + ts.drop_first().drop_last());
            assert(st1.cur == ts[0]);
            assert(ts[0].name.len() > 0);
            assert(flush_of(ts[0]) =~= seq![ts[0]]);
            assert(st1.done =~= st.done + flush_of(st.cur));
            assert(seq![ts[0]] + ts.drop_first().drop_last() =~= ts.drop_last());
            assert((st.done + flush_of(st.cur)) + seq![ts[0]] + ts.drop_first().drop_last()
                =~= st.done + flush_of(st.cur) + ts.drop_last());
        }
    }
}

// ---------------------------------------------------------------------------
// The laws
// ---------------------------------------------------------------------------

/// Round trip: decoding an encoded sequence of well-formed snapshots
/// succeeds and returns exactly those snapshots.
pub proof fn lemma_round_trip(ts: Seq<TableModel>)
    requires
        forall|i: int| 0 <= i < ts.len() ==> round_trippable(#[trigger] ts[i]),
    ensures
        decode_spec(encode_spec(ts)).1 == true,
        decode_spec(encode_spec(ts)).0 == ts,
{
    let e = Seq::<char>::empty();
    let lines = tables_lines_spec(ts);
    lemma_all_lines_plain(ts);
    lemma_split_unlines(lines);
    assert(split_char(encode_spec(ts), '\n') == lines + seq![e]);
    lemma_decode_blocks(init_state(), ts);
    let st1 = dec_run(init_state(), lines);
    lemma_dec_run_concat(init_state(), lines, seq![e]);
    lemma_step_blank(st1);
    let st2 = dec_step(st1, e);
    assert(dec_run(st1, seq![e]) == st2) by {
        assert(seq![e][0] == e);
        assert(seq![e].drop_first() =~= Seq::<Seq<char>>::empty());
        assert(dec_run(st2, Seq::<Seq<char>>::empty()) == st2);
    }
    assert(dec_run(init_state(), lines + seq![e]) == st2);
    if ts.len() == 0 {
        assert(st2 == init_state());
        assert(final_tables(st2) =~~= ts);
    } else {
        assert(st2.cur == ts.last());
        assert(ts.last().name.len() > 0) by {
            assert(round_trippable(ts[ts.len() - 1]));
        }
        assert(init_state().cur.name.len() == 0);
        assert(flush_of(init_state().cur) =~= Seq::<TableModel>::empty());
        assert(st2.done =~= ts.drop_last());
        assert(final_tables(st2) == st2.done.push(st2.cur));
        assert(ts.drop_last().push(ts.last()) =~~= ts);
    }
}

/// Header fatality: a `#table` line with no `=` anywhere in the stream
/// fails the whole decode, and exactly the tables flushed before it are
/// preserved beside the failure indicator.
pub proof fn lemma_header_fatality(ts: Seq<TableModel>, bad: Seq<char>, rest: Seq<Seq<char>>)
    requires
        forall|i: int| 0 <= i < ts.len() ==> round_trippable(#[trigger] ts[i]),
        is_prefix("#table"@, bad),
        !contains_char(bad, '='),
    ensures
        decode_lines_spec(tables_lines_spec(ts) + seq![bad] + rest).1 == false,
        decode_lines_spec(tables_lines_spec(ts) + seq![bad] + rest).0 == ts,
{
    let lines = tables_lines_spec(ts) + seq![bad] + rest;
    lemma_decode_blocks(init_state(), ts);
    let st1 = dec_run(init_state(), tables_lines_spec(ts));
    assert(index_of_char(bad, '=') == bad.len()) by {
        lemma_index_of_char(bad, '=');
        if index_of_char(bad, '=') < bad.len() {
            assert(bad[index_of_char(bad, '=')] == '=');
        }
    }
    let st_bad = dec_step(st1, bad);
    assert(st_bad.failed);
    assert(st_bad.done =~~= ts) by {
        if ts.len() == 0 {
            assert(st1 == init_state());
            assert(st1.cur.name.len() == 0);
        } else {
            assert(st1.cur == ts.last());
            assert(ts.last().name.len() > 0) by {
                assert(round_trippable(ts[ts.len() - 1]));
            }
            assert(flush_of(init_state().cur) =~= Seq::<TableModel>::empty());
            assert(st1.done =~= ts.drop_last());
            assert(ts.drop_last().push(ts.last()) =~~= ts);
        }
    }
    let tail = seq![bad] + rest;
    lemma_dec_run_concat(init_state(), tables_lines_spec(ts), tail);
    assert(dec_run(st1, tail) == st_bad) by {
        assert(tail[0] == bad);
        assert(tail.drop_first() =~= rest);
        lemma_dec_run_failed(st_bad, rest);
        assert(dec_run(st1, tail) == dec_run(dec_step(st1, tail[0]), tail.drop_first()));
    }
    assert(lines =~= tables_lines_spec(ts) + tail);
    assert(dec_run(init_state(), lines) == st_bad);
    assert(final_tables(st_bad) == st_bad.done);
}

} // verus!
