//! Character-sequence utilities: searching, splitting and joining text.
//!
//! The exchange format is line- and separator-oriented, so the whole
//! codec rests on a small set of splitting and joining operations.
//! Each executable helper is proved equal to a spec-level function on
//! `Seq<char>`, and the lemmas at the end relate splitting to joining.
use vstd::prelude::*;

verus! {

// ---------------------------------------------------------------------------
// Spec: characters and searching
// ---------------------------------------------------------------------------

pub open spec fn contains_char(s: Seq<char>, c: char) -> bool {
    exists|i: int| 0 <= i < s.len() && s[i] == c
}

/// Index of the first occurrence of `c` in `s`, or `s.len()` if absent.
pub open spec fn index_of_char(s: Seq<char>, c: char) -> int
    decreases s.len(),
{
    if s.len() == 0 {
        0
    } else if s[0] == c {
        0
    } else {
        1 + index_of_char(s.drop_first(), c)
    }
}

pub proof fn lemma_index_of_char(s: Seq<char>, c: char)
    ensures
        0 <= index_of_char(s, c) <= s.len(),
        index_of_char(s, c) < s.len() ==> s[index_of_char(s, c)] == c,
        forall|j: int| 0 <= j < index_of_char(s, c) ==> s[j] != c,
        index_of_char(s, c) == s.len() ==> !contains_char(s, c),
    decreases s.len(),
{
    if s.len() == 0 {
    } else if s[0] == c {
    } else {
        lemma_index_of_char(s.drop_first(), c);
        let i = index_of_char(s, c);
        assert forall|j: int| 0 <= j < i implies s[j] != c by {
            if j > 0 {
                assert(s.drop_first()[j - 1] == s[j]);
            }
        }
        if i == s.len() {
            assert forall|j: int| 0 <= j < s.len() implies s[j] != c by {}
            assert(!contains_char(s, c));
        }
    }
}

/// The first index holding `c` pins `index_of_char` down.
pub proof fn lemma_index_of_char_unique(s: Seq<char>, c: char, i: int)
    requires
        0 <= i < s.len(),
        s[i] == c,
        forall|j: int| 0 <= j < i ==> s[j] != c,
    ensures
        index_of_char(s, c) == i,
{
    lemma_index_of_char(s, c);
    let k = index_of_char(s, c);
    if k < i {
        assert(s[k] != c);
    }
    if k > i {
        assert(s[i] != c);
    }
}

/// The index of the first occurrence of `c`, or the length if absent.
pub fn find_char(s: &str, c: char) -> (r: usize)
    ensures
        r as int == index_of_char(s@, c),
{
    let slen = s.unicode_len();
    let mut i: usize = 0;
    while i < slen
        invariant
            slen == s@.len(),
            0 <= i <= slen,
            forall|j: int| 0 <= j < i ==> s@[j] != c,
        decreases slen - i,
    {
        if s.get_char(i) == c {
            proof {
                lemma_index_of_char_unique(s@, c, i as int);
            }
            return i;
        }
        i += 1;
    }
    proof {
        lemma_index_of_char(s@, c);
        let k = index_of_char(s@, c);
        if k < slen {
            assert(s@[k] != c);
        }
    }
    slen
}

pub open spec fn is_prefix(p: Seq<char>, s: Seq<char>) -> bool {
    p.len() <= s.len() && p == s.subrange(0, p.len() as int)
}

/// The pattern `p` occurs in `s` starting at index `i`.
pub open spec fn has_pat_at(s: Seq<char>, p: Seq<char>, i: int) -> bool {
    0 <= i && i + p.len() <= s.len() && p == s.subrange(i, i + p.len() as int)
}

pub open spec fn contains_pat(s: Seq<char>, p: Seq<char>) -> bool {
    exists|i: int| has_pat_at(s, p, i)
}

// ---------------------------------------------------------------------------
// Spec: splitting and joining
// ---------------------------------------------------------------------------

/// Split on a single separator character; always returns at least one field.
pub open spec fn split_char(s: Seq<char>, sep: char) -> Seq<Seq<char>>
    decreases s.len(),
{
    if s.len() == 0 {
        seq![Seq::<char>::empty()]
    } else if s[0] == sep {
        seq![Seq::<char>::empty()] + split_char(s.drop_first(), sep)
    } else {
        let rest = split_char(s.drop_first(), sep);
        seq![seq![s[0]] + rest[0]] + rest.drop_first()
    }
}

/// Split on a multi-character pattern, leftmost non-overlapping occurrences,
/// as `str::split` does for a string pattern.
pub open spec fn split_pat(s: Seq<char>, p: Seq<char>) -> Seq<Seq<char>>
    decreases s.len(),
{
    if p.len() == 0 || s.len() < p.len() {
        seq![s]
    } else if s.subrange(0, p.len() as int) == p {
        seq![Seq::<char>::empty()] + split_pat(s.subrange(p.len() as int, s.len() as int), p)
    } else {
        let rest = split_pat(s.drop_first(), p);
        seq![seq![s[0]] + rest[0]] + rest.drop_first()
    }
}

pub open spec fn join_char(fields: Seq<Seq<char>>, sep: char) -> Seq<char>
    decreases fields.len(),
{
    if fields.len() == 0 {
        Seq::<char>::empty()
    } else if fields.len() == 1 {
        fields[0]
    } else {
        fields[0] + seq![sep] + join_char(fields.drop_first(), sep)
    }
}

/// Text made of the given lines, each terminated by a newline.
pub open spec fn unlines(lines: Seq<Seq<char>>) -> Seq<char>
    decreases lines.len(),
{
    if lines.len() == 0 {
        Seq::<char>::empty()
    } else {
        lines[0] + seq!['\n'] + unlines(lines.drop_first())
    }
}

// ---------------------------------------------------------------------------
// Lemmas: splitting is left inverse to joining
// ---------------------------------------------------------------------------

pub proof fn lemma_split_char_len(s: Seq<char>, sep: char)
    ensures
        split_char(s, sep).len() >= 1,
    decreases s.len(),
{
    if s.len() == 0 {
    } else {
        lemma_split_char_len(s.drop_first(), sep);
    }
}

/// A separator-free string splits into the single field that it is.
pub proof fn lemma_split_char_whole(s: Seq<char>, sep: char)
    requires
        !contains_char(s, sep),
    ensures
        split_char(s, sep) == seq![s],
    decreases s.len(),
{
    if s.len() == 0 {
        assert(split_char(s, sep) =~~= seq![s]);
    } else {
        assert(s[0] != sep);
        assert(!contains_char(s.drop_first(), sep)) by {
            if contains_char(s.drop_first(), sep) {
                let i = choose|i: int|
                    0 <= i < s.drop_first().len() && s.drop_first()[i] == sep;
                assert(s[i + 1] == sep);
            }
        }
        lemma_split_char_whole(s.drop_first(), sep);
        lemma_split_char_len(s.drop_first(), sep);
        assert(split_char(s, sep) =~~= seq![s]);
    }
}

/// Splitting a string whose first separator stands right after the
/// separator-free prefix `a` yields `a` followed by the split of the rest.
pub proof fn lemma_split_char_append(a: Seq<char>, b: Seq<char>, sep: char)
    requires
        !contains_char(a, sep),
    ensures
        split_char(a + seq![sep] + b, sep) == seq![a] + split_char(b, sep),
    decreases a.len(),
{
    let s = a + seq![sep] + b;
    if a.len() == 0 {
        assert(s =~= seq![sep] + b);
        assert(s[0] == sep);
        assert(s.drop_first() =~= b);
        assert(split_char(s, sep) =~~= seq![a] + split_char(b, sep));
    } else {
        assert(s[0] == a[0]);
        assert(s[0] != sep);
        let a2 = a.drop_first();
        assert(!contains_char(a2, sep)) by {
            if contains_char(a2, sep) {
                let i = choose|i: int| 0 <= i < a2.len() && a2[i] == sep;
                assert(a[i + 1] == sep);
            }
        }
        lemma_split_char_append(a2, b, sep);
        assert(s.drop_first() =~= a2 + seq![sep] + b);
        let rest = split_char(s.drop_first(), sep);
        assert(rest == seq![a2] + split_char(b, sep));
        assert(rest[0] == a2);
        assert(rest.drop_first() =~= split_char(b, sep));
        assert(seq![s[0]] + rest[0] =~= a);
        assert(split_char(s, sep) =~~= seq![a] + split_char(b, sep));
    }
}

/// Splitting the separator-joined fields recovers the fields, provided no
/// field contains the separator.
pub proof fn lemma_split_join_char(fields: Seq<Seq<char>>, sep: char)
    requires
        fields.len() >= 1,
        forall|i: int| 0 <= i < fields.len() ==> !contains_char(#[trigger] fields[i], sep),
    ensures
        split_char(join_char(fields, sep), sep) == fields,
    decreases fields.len(),
{
    if fields.len() == 1 {
        lemma_split_char_whole(fields[0], sep);
        assert(split_char(join_char(fields, sep), sep) =~~= fields);
    } else {
        lemma_split_join_char(fields.drop_first(), sep);
        lemma_split_char_append(fields[0], join_char(fields.drop_first(), sep), sep);
        assert(split_char(join_char(fields, sep), sep) =~~= fields);
    }
}

/// Newline-terminated lines split back into the lines plus one final empty
/// field, provided no line contains a newline itself.
pub proof fn lemma_split_unlines(lines: Seq<Seq<char>>)
    requires
        forall|i: int| 0 <= i < lines.len() ==> !contains_char(#[trigger] lines[i], '\n'),
    ensures
        split_char(unlines(lines), '\n') == lines + seq![Seq::<char>::empty()],
    decreases lines.len(),
{
    if lines.len() == 0 {
        assert(split_char(unlines(lines), '\n') =~~= lines + seq![Seq::<char>::empty()]);
    } else {
        lemma_split_unlines(lines.drop_first());
        lemma_split_char_append(lines[0], unlines(lines.drop_first()), '\n');
        assert(unlines(lines) =~= lines[0] + seq!['\n'] + unlines(lines.drop_first()));
        assert(split_char(unlines(lines), '\n') =~~= lines + seq![Seq::<char>::empty()]);
    }
}

pub proof fn lemma_unlines_concat(a: Seq<Seq<char>>, b: Seq<Seq<char>>)
    ensures
        unlines(a + b) == unlines(a) + unlines(b),
    decreases a.len(),
{
    if a.len() == 0 {
        assert(a + b =~= b);
        assert(unlines(a + b) =~= unlines(a) + unlines(b));
    } else {
        lemma_unlines_concat(a.drop_first(), b);
        assert((a + b).drop_first() =~= a.drop_first() + b);
        assert(unlines(a + b) =~= unlines(a) + unlines(b));
    }
}

// ---------------------------------------------------------------------------
// Lemmas: multi-character patterns
// ---------------------------------------------------------------------------

/// Shifting: occurrences in a suffix are occurrences in the whole.
pub proof fn lemma_pat_at_skip(s: Seq<char>, p: Seq<char>, start: int, k: int)
    requires
        0 <= start <= s.len(),
        0 <= k,
    ensures
        has_pat_at(s.skip(start), p, k) == has_pat_at(s, p, start + k),
{
    if k + p.len() <= s.skip(start).len() {
        assert(s.skip(start).subrange(k, k + p.len() as int) =~= s.subrange(
            start + k,
            start + k + p.len() as int,
        ));
    }
}

/// A string with no occurrence of `p` splits into itself alone.
pub proof fn lemma_split_pat_none(s: Seq<char>, p: Seq<char>)
    requires
        p.len() >= 1,
        !contains_pat(s, p),
    ensures
        split_pat(s, p) == seq![s],
    decreases s.len(),
{
    if s.len() < p.len() {
    } else if s.subrange(0, p.len() as int) == p {
        assert(has_pat_at(s, p, 0));
        assert(false);
    } else {
        assert(!contains_pat(s.drop_first(), p)) by {
            if contains_pat(s.drop_first(), p) {
                let i = choose|i: int| has_pat_at(s.drop_first(), p, i);
                lemma_pat_at_skip(s, p, 1, i);
                assert(s.drop_first() =~= s.skip(1));
                assert(has_pat_at(s, p, 1 + i));
            }
        }
        lemma_split_pat_none(s.drop_first(), p);
        assert(split_pat(s, p) =~~= seq![s]);
    }
}

/// If the first occurrence of `p` in `s` starts at `m`, then the split
/// starts with `s.take(m)` followed by the split of what comes after the
/// occurrence.
pub proof fn lemma_split_pat_first(s: Seq<char>, p: Seq<char>, m: int)
    requires
        p.len() >= 1,
        has_pat_at(s, p, m),
        forall|k: int| 0 <= k < m ==> !has_pat_at(s, p, k),
    ensures
        split_pat(s, p) == seq![s.take(m)] + split_pat(s.skip(m + p.len() as int), p),
    decreases s.len(),
{
    if m == 0 {
        assert(s.subrange(0, p.len() as int) == p);
        assert(s.take(0) =~= Seq::<char>::empty());
        assert(s.subrange(p.len() as int, s.len() as int) =~= s.skip(m + p.len() as int));
        assert(split_pat(s, p) =~~= seq![s.take(m)] + split_pat(s.skip(m + p.len() as int), p));
    } else {
        assert(s.len() >= p.len());
        assert(s.subrange(0, p.len() as int) != p) by {
            if s.subrange(0, p.len() as int) == p {
                assert(has_pat_at(s, p, 0));
            }
        }
        let s2 = s.drop_first();
        assert(s2 =~= s.skip(1));
        assert(has_pat_at(s2, p, m - 1)) by {
            lemma_pat_at_skip(s, p, 1, m - 1);
        }
        assert(forall|k: int| 0 <= k < m - 1 ==> !has_pat_at(s2, p, k)) by {
            assert forall|k: int| 0 <= k < m - 1 implies !has_pat_at(s2, p, k) by {
                lemma_pat_at_skip(s, p, 1, k);
            }
        }
        lemma_split_pat_first(s2, p, m - 1);
        let rest = split_pat(s2, p);
        assert(rest[0] == s2.take(m - 1));
        assert(seq![s[0]] + s2.take(m - 1) =~= s.take(m));
        assert(s2.skip(m - 1 + p.len() as int) =~= s.skip(m + p.len() as int));
        assert(split_pat(s, p) =~~= seq![s.take(m)] + split_pat(s.skip(m + p.len() as int), p));
    }
}

// ---------------------------------------------------------------------------
// Exec: comparisons and searching
// ---------------------------------------------------------------------------

/// Character-wise string equality; `&str` comparison is not specified by
/// vstd, so it is carried out a character at a time.
pub fn str_eq(a: &str, b: &str) -> (r: bool)
    ensures
        r == (a@ == b@),
{
    let alen = a.unicode_len();
    let blen = b.unicode_len();
    if alen != blen {
        return false;
    }
    let mut i: usize = 0;
    while i < alen
        invariant
            0 <= i <= alen,
            alen == a@.len(),
            alen == b@.len(),
            forall|j: int| 0 <= j < i ==> a@[j] == b@[j],
        decreases alen - i,
    {
        if a.get_char(i) != b.get_char(i) {
            return false;
        }
        i += 1;
    }
    proof {
        assert(a@ =~= b@);
    }
    true
}

pub fn starts_with_str(s: &str, p: &str) -> (r: bool)
    ensures
        r == is_prefix(p@, s@),
{
    let slen = s.unicode_len();
    let plen = p.unicode_len();
    if plen > slen {
        return false;
    }
    let mut i: usize = 0;
    while i < plen
        invariant
            0 <= i <= plen,
            plen == p@.len(),
            slen == s@.len(),
            plen <= slen,
            forall|j: int| 0 <= j < i ==> s@[j] == p@[j],
        decreases plen - i,
    {
        if s.get_char(i) != p.get_char(i) {
            proof {
                assert(s@.subrange(0, plen as int)[i as int] != p@[i as int]);
            }
            return false;
        }
        i += 1;
    }
    proof {
        assert(p@ =~= s@.subrange(0, plen as int));
    }
    true
}

/// Whether the pattern `p` occurs in `s` at index `i`.
fn match_at(s: &str, p: &str, i: usize) -> (r: bool)
    requires
        i + p@.len() <= s@.len(),
    ensures
        r == has_pat_at(s@, p@, i as int),
{
    let slen = s.unicode_len();
    let plen = p.unicode_len();
    let mut j: usize = 0;
    while j < plen
        invariant
            0 <= j <= plen,
            plen == p@.len(),
            slen == s@.len(),
            i + plen <= slen,
            forall|k: int| 0 <= k < j ==> s@[i + k] == p@[k],
        decreases plen - j,
    {
        if s.get_char(i + j) != p.get_char(j) {
            proof {
                assert(s@.subrange(i as int, i + plen as int)[j as int] != p@[j as int]);
            }
            return false;
        }
        j += 1;
    }
    proof {
        assert(p@ =~= s@.subrange(i as int, i + plen as int));
    }
    true
}

pub fn contains_str(s: &str, p: &str) -> (r: bool)
    requires
        p@.len() >= 1,
    ensures
        r == contains_pat(s@, p@),
{
    let slen = s.unicode_len();
    let plen = p.unicode_len();
    if plen > slen {
        proof {
            assert(!contains_pat(s@, p@));
        }
        return false;
    }
    let mut i: usize = 0;
    while i <= slen - plen
        invariant
            1 <= plen <= slen,
            slen == s@.len(),
            plen == p@.len(),
            0 <= i <= slen - plen + 1,
            forall|k: int| 0 <= k < i ==> !has_pat_at(s@, p@, k),
        decreases slen - i,
    {
        if match_at(s, p, i) {
            return true;
        }
        i += 1;
    }
    proof {
        assert forall|k: int| !has_pat_at(s@, p@, k) by {
            if has_pat_at(s@, p@, k) {
                assert(0 <= k < i);
            }
        }
    }
    false
}

// ---------------------------------------------------------------------------
// Exec: splitting
// ---------------------------------------------------------------------------

pub fn split_on_char(s: &str, sep: char) -> (r: Vec<String>)
    ensures
        r.deep_view() == split_char(s@, sep),
{
    let slen = s.unicode_len();
    let mut res: Vec<String> = Vec::new();
    let mut start: usize = 0;
    let mut i: usize = 0;
    proof {
        assert(s@.skip(0) =~= s@);
        assert(res.deep_view() =~= Seq::<Seq<char>>::empty());
        assert(res.deep_view() + split_char(s@, sep) =~= split_char(s@, sep));
    }
    while i < slen
        invariant
            slen == s@.len(),
            0 <= start <= i <= slen,
            split_char(s@, sep) == res.deep_view() + split_char(s@.skip(start as int), sep),
            forall|k: int| start <= k < i ==> s@[k] != sep,
        decreases slen - i,
    {
        if s.get_char(i) == sep {
            let field = s.substring_char(start, i).to_owned();
            proof {
                let a = s@.subrange(start as int, i as int);
                let b = s@.skip(i as int + 1);
                assert(!contains_char(a, sep));
                assert(s@.skip(start as int) =~= a + seq![sep] + b);
                lemma_split_char_append(a, b, sep);
                assert((res.deep_view() + seq![a]) + split_char(b, sep) =~= res.deep_view()
                    + (seq![a] + split_char(b, sep)));
            }
            res.push(field);
            proof {
                assert(res.deep_view() =~= res.deep_view().subrange(
                    0,
                    res.deep_view().len() - 1,
                ) + seq![s@.subrange(start as int, i as int)]);
            }
            start = i + 1;
        }
        i += 1;
    }
    let field = s.substring_char(start, slen).to_owned();
    proof {
        let a = s@.subrange(start as int, slen as int);
        assert(a =~= s@.skip(start as int));
        assert(!contains_char(a, sep));
        lemma_split_char_whole(a, sep);
    }
    res.push(field);
    proof {
        assert(res.deep_view() =~= res.deep_view().subrange(0, res.deep_view().len() - 1)
            + seq![s@.skip(start as int)]);
        assert(res.deep_view() =~= split_char(s@, sep));
    }
    res
}

pub fn split_on_str(s: &str, p: &str) -> (r: Vec<String>)
    requires
        p@.len() >= 1,
    ensures
        r.deep_view() == split_pat(s@, p@),
{
    let slen = s.unicode_len();
    let plen = p.unicode_len();
    let mut res: Vec<String> = Vec::new();
    let mut start: usize = 0;
    let mut i: usize = 0;
    proof {
        assert(s@.skip(0) =~= s@);
        assert(res.deep_view() =~= Seq::<Seq<char>>::empty());
        assert(res.deep_view() + split_pat(s@, p@) =~= split_pat(s@, p@));
    }
    while plen <= slen && i <= slen - plen
        invariant
            slen == s@.len(),
            plen == p@.len(),
            plen >= 1,
            0 <= start <= i <= slen,
            split_pat(s@, p@) == res.deep_view() + split_pat(s@.skip(start as int), p@),
            forall|k: int| start <= k < i ==> !has_pat_at(s@, p@, k),
        decreases slen - i,
    {
        if match_at(s, p, i) {
            let field = s.substring_char(start, i).to_owned();
            proof {
                let suf = s@.skip(start as int);
                let m = i - start;
                assert(has_pat_at(suf, p@, m)) by {
                    lemma_pat_at_skip(s@, p@, start as int, m);
                }
                assert(forall|k: int| 0 <= k < m ==> !has_pat_at(suf, p@, k)) by {
                    assert forall|k: int| 0 <= k < m implies !has_pat_at(suf, p@, k) by {
                        lemma_pat_at_skip(s@, p@, start as int, k);
                    }
                }
                lemma_split_pat_first(suf, p@, m);
                assert(suf.take(m) =~= s@.subrange(start as int, i as int));
                assert(suf.skip(m + plen as int) =~= s@.skip(i + plen as int));
                assert((res.deep_view() + seq![suf.take(m)]) + split_pat(
                    s@.skip(i + plen as int),
                    p@,
                ) =~= res.deep_view() + (seq![suf.take(m)] + split_pat(
                    s@.skip(i + plen as int),
                    p@,
                )));
            }
            res.push(field);
            proof {
                assert(res.deep_view() =~= res.deep_view().subrange(
                    0,
                    res.deep_view().len() - 1,
                ) + seq![s@.subrange(start as int, i as int)]);
            }
            start = i + plen;
            i = start;
        } else {
            i += 1;
        }
    }
    let field = s.substring_char(start, slen).to_owned();
    proof {
        let suf = s@.skip(start as int);
        assert(suf =~= s@.subrange(start as int, slen as int));
        assert(!contains_pat(suf, p@)) by {
            if contains_pat(suf, p@) {
                let k = choose|k: int| has_pat_at(suf, p@, k);
                lemma_pat_at_skip(s@, p@, start as int, k);
                assert(has_pat_at(s@, p@, start + k));
                assert(start + k < i || start + k + plen > slen);
            }
        }
        lemma_split_pat_none(suf, p@);
    }
    res.push(field);
    proof {
        assert(res.deep_view() =~= res.deep_view().subrange(0, res.deep_view().len() - 1)
            + seq![s@.skip(start as int)]);
        assert(res.deep_view() =~= split_pat(s@, p@));
    }
    res
}

// ---------------------------------------------------------------------------
// Spec and exec: trimming
// ---------------------------------------------------------------------------

/// The whitespace characters stripped from interactive input.
pub open spec fn is_space_char(c: char) -> bool {
    c == ' ' || c == '\t' || c == '\r' || c == '\n'
}

pub open spec fn trim_spec(s: Seq<char>) -> Seq<char>
    decreases s.len(),
{
    if s.len() == 0 {
        s
    } else if is_space_char(s[0]) {
        trim_spec(s.drop_first())
    } else if is_space_char(s.last()) {
        trim_spec(s.drop_last())
    } else {
        s
    }
}

proof fn lemma_trim_range(s: Seq<char>, lo: int, hi: int)
    requires
        0 <= lo <= hi <= s.len(),
        forall|j: int| 0 <= j < lo ==> is_space_char(s[j]),
        forall|j: int| hi <= j < s.len() ==> is_space_char(s[j]),
        lo < hi ==> !is_space_char(s[lo]) && !is_space_char(s[hi - 1]),
        lo >= hi ==> lo == hi,
    ensures
        trim_spec(s) == s.subrange(lo, hi),
    decreases s.len(),
{
    if s.len() == 0 {
        assert(trim_spec(s) =~= s.subrange(lo, hi));
    } else if is_space_char(s[0]) {
        if lo == 0 {
            // The front is space, so the trimmed range is empty here.
            assert(hi == 0) by {
                if hi > 0 {
                    assert(!is_space_char(s[lo]));
                }
            }
            let s2 = s.drop_first();
            assert(forall|j: int| 0 <= j < s2.len() ==> is_space_char(s2[j]));
            lemma_trim_range(s2, 0, 0);
            assert(trim_spec(s) == trim_spec(s2));
            assert(trim_spec(s) =~= s.subrange(lo, hi));
        } else {
            let s2 = s.drop_first();
            assert(forall|j: int| 0 <= j < lo - 1 ==> is_space_char(s2[j]));
            assert(forall|j: int| hi - 1 <= j < s2.len() ==> is_space_char(s2[j]));
            lemma_trim_range(s2, lo - 1, hi - 1);
            assert(s2.subrange(lo - 1, hi - 1) =~= s.subrange(lo, hi));
        }
    } else if is_space_char(s.last()) {
        assert(hi < s.len()) by {
            if hi == s.len() {
                if lo < hi {
                    assert(!is_space_char(s[hi - 1]));
                    assert(s[hi - 1] == s.last());
                } else {
                    assert(lo == hi);
                    assert(!is_space_char(s[0]));
                    assert(lo == 0 || is_space_char(s[0]));
                }
            }
        }
        let s2 = s.drop_last();
        lemma_trim_range(s2, lo, hi);
        assert(s2.subrange(lo, hi) =~= s.subrange(lo, hi));
    } else {
        assert(lo == 0) by {
            if lo > 0 {
                assert(is_space_char(s[0]));
            }
        }
        assert(hi == s.len()) by {
            if hi < s.len() {
                assert(is_space_char(s[s.len() - 1]));
            }
        }
        assert(trim_spec(s) =~= s.subrange(lo, hi));
    }
}

fn is_space(c: char) -> (r: bool)
    ensures
        r == is_space_char(c),
{
    c == ' ' || c == '\t' || c == '\r' || c == '\n'
}

/// Strip leading and trailing whitespace, as interactive input is trimmed.
pub fn trim_str(s: &str) -> (r: String)
    ensures
        r@ == trim_spec(s@),
{
    let slen = s.unicode_len();
    let mut lo: usize = 0;
    while lo < slen && is_space(s.get_char(lo))
        invariant
            slen == s@.len(),
            0 <= lo <= slen,
            forall|j: int| 0 <= j < lo ==> is_space_char(s@[j]),
        decreases slen - lo,
    {
        lo += 1;
    }
    let mut hi: usize = slen;
    while hi > lo && is_space(s.get_char(hi - 1))
        invariant
            slen == s@.len(),
            0 <= lo <= hi <= slen,
            forall|j: int| hi <= j < slen ==> is_space_char(s@[j]),
            lo < slen ==> !is_space_char(s@[lo as int]),
        decreases hi,
    {
        hi -= 1;
    }
    proof {
        lemma_trim_range(s@, lo as int, hi as int);
    }
    s.substring_char(lo, hi).to_owned()
}

} // verus!
