//! The history of executed `(match, rename)` pairs. It is kept most recent
//! first, without repeats, and at most `HISTORY_CAPACITY` long. On disk each
//! pair is one line: the two fields escaped, separated by a tab.
use vstd::prelude::*;

use crate::text::{chars_of, string_from_chars};

verus! {

/// How many pairs the history keeps.
pub const HISTORY_CAPACITY: usize = 100;

/// The escaped form of one character: backslash, tab, newline and carriage
/// return become a backslash and a letter, every other character stays.
pub open spec fn escape_char(c: char) -> Seq<char> {
    if c == '\\' {
        seq!['\\', '\\']
    } else if c == '\t' {
        seq!['\\', 't']
    } else if c == '\n' {
        seq!['\\', 'n']
    } else if c == '\r' {
        seq!['\\', 'r']
    } else {
        seq![c]
    }
}

/// The escaped form of a field.
pub open spec fn escape_field(s: Seq<char>) -> Seq<char>
    decreases s.len(),
{
    if s.len() == 0 {
        seq![]
    } else {
        escape_char(s[0]) + escape_field(s.skip(1))
    }
}

/// What a backslash followed by `c` stands for; an unknown letter keeps the
/// backslash.
pub open spec fn unescape_code(c: char) -> Seq<char> {
    if c == 't' {
        seq!['\t']
    } else if c == 'n' {
        seq!['\n']
    } else if c == 'r' {
        seq!['\r']
    } else if c == '\\' {
        seq!['\\']
    } else {
        seq!['\\', c]
    }
}

/// A field read back from its escaped form; a backslash at the very end stays.
pub open spec fn unescape_field(s: Seq<char>) -> Seq<char>
    decreases s.len(),
{
    if s.len() == 0 {
        seq![]
    } else if s[0] == '\\' && s.len() >= 2 {
        unescape_code(s[1]) + unescape_field(s.skip(2))
    } else {
        seq![s[0]] + unescape_field(s.skip(1))
    }
}

fn escape_chars(s: &[char]) -> (out: Vec<char>)
    ensures
        out@ == escape_field(s@),
{
    let mut out: Vec<char> = Vec::new();
    let mut i: usize = 0;
    assert(out@ + s@.skip(0) =~= s@);
    assert(out@ + escape_field(s@) =~= escape_field(s@));
    while i < s.len()
        invariant
            i <= s@.len(),
            out@ + escape_field(s@.skip(i as int)) == escape_field(s@),
        decreases s.len() - i,
    {
        let c = s[i];
        let ghost before = out@;
        proof {
            assert(s@.skip(i as int).skip(1) =~= s@.skip(i + 1));
            assert(s@.skip(i as int)[0] == c);
        }
        if c == '\\' {
            out.push('\\');
            out.push('\\');
        } else if c == '\t' {
            out.push('\\');
            out.push('t');
        } else if c == '\n' {
            out.push('\\');
            out.push('n');
        } else if c == '\r' {
            out.push('\\');
            out.push('r');
        } else {
            out.push(c);
        }
        proof {
            assert(out@ =~= before + escape_char(c));
            assert(before + escape_field(s@.skip(i as int)) =~= before + escape_char(c)
                + escape_field(s@.skip(i + 1)));
        }
        i += 1;
    }
    proof {
        assert(s@.skip(s@.len() as int) =~= Seq::<char>::empty());
        assert(out@ + Seq::<char>::empty() =~= out@);
    }
    out
}

fn unescape_chars(s: &[char]) -> (out: Vec<char>)
    ensures
        out@ == unescape_field(s@),
{
    let mut out: Vec<char> = Vec::new();
    let mut i: usize = 0;
    assert(s@.skip(0) =~= s@);
    assert(out@ + unescape_field(s@) =~= unescape_field(s@));
    while i < s.len()
        invariant
            i <= s@.len(),
            out@ + unescape_field(s@.skip(i as int)) == unescape_field(s@),
        decreases s.len() - i,
    {
        let c = s[i];
        let ghost before = out@;
        let ghost rest = s@.skip(i as int);
        assert(rest[0] == c);
        if c == '\\' && i + 1 < s.len() {
            let d = s[i + 1];
            assert(rest[1] == d);
            assert(rest.skip(2) =~= s@.skip(i + 2));
            if d == 't' {
                out.push('\t');
            } else if d == 'n' {
                out.push('\n');
            } else if d == 'r' {
                out.push('\r');
            } else if d == '\\' {
                out.push('\\');
            } else {
                out.push('\\');
                out.push(d);
            }
            proof {
                assert(out@ =~= before + unescape_code(d));
                assert(before + unescape_field(rest) =~= before + unescape_code(d) + unescape_field(
                    s@.skip(i + 2),
                ));
            }
            i += 2;
        } else {
            out.push(c);
            proof {
                assert(rest.skip(1) =~= s@.skip(i + 1));
                assert(out@ =~= before + seq![c]);
                assert(before + unescape_field(rest) =~= before + seq![c] + unescape_field(
                    s@.skip(i + 1),
                ));
            }
            i += 1;
        }
    }
    proof {
        assert(s@.skip(s@.len() as int) =~= Seq::<char>::empty());
        assert(out@ + Seq::<char>::empty() =~= out@);
    }
    out
}

/// Escapes a history field so that it holds no tab, newline or carriage
/// return; `unescape_history_field` gives it back.
pub fn escape_history_field(s: &str) -> (r: String)
    ensures
        r@ == escape_field(s@),
        !r@.contains('\t'),
        !r@.contains('\n'),
        !r@.contains('\r'),
{
    let cs = chars_of(s);
    let out = escape_chars(cs.as_slice());
    proof {
        lemma_escape_has_no_separators(s@);
    }
    string_from_chars(out.as_slice())
}

/// Reads a history field back from its escaped form.
pub fn unescape_history_field(s: &str) -> (r: String)
    ensures
        r@ == unescape_field(s@),
{
    let cs = chars_of(s);
    let out = unescape_chars(cs.as_slice());
    string_from_chars(out.as_slice())
}

/// The escaped form of a field holds no tab, newline or carriage return.
pub proof fn lemma_escape_has_no_separators(s: Seq<char>)
    ensures
        !escape_field(s).contains('\t'),
        !escape_field(s).contains('\n'),
        !escape_field(s).contains('\r'),
    decreases s.len(),
{
    if s.len() > 0 {
        lemma_escape_has_no_separators(s.skip(1));
        let e = escape_field(s);
        let head = escape_char(s[0]);
        let tail = escape_field(s.skip(1));
        assert(e == head + tail);
        assert forall|k: int| 0 <= k < e.len() implies e[k] != '\t' && e[k] != '\n' && e[k]
            != '\r' by {
            if k >= head.len() {
                assert(e[k] == tail[k - head.len()]);
            }
        }
    }
}

/// Reading back an escaped field gives the field.
pub proof fn lemma_unescape_escape(s: Seq<char>)
    ensures
        unescape_field(escape_field(s)) == s,
    decreases s.len(),
{
    if s.len() > 0 {
        lemma_unescape_escape(s.skip(1));
        let c = s[0];
        let head = escape_char(c);
        let tail = escape_field(s.skip(1));
        let e = head + tail;
        assert(escape_field(s) == e);
        if head.len() == 2 {
            assert(e.skip(2) =~= tail);
        } else {
            assert(e.skip(1) =~= tail);
        }
        assert(s =~= seq![c] + s.skip(1));
    }
}

/// A history pair as plain values.
pub type EntryView = (Seq<char>, Seq<char>);

/// The views of history pairs.
pub open spec fn entry_views(l: Seq<(String, String)>) -> Seq<EntryView> {
    l.map_values(|e: (String, String)| (e.0@, e.1@))
}

/// The line that stores one pair.
pub open spec fn history_line(e: EntryView) -> Seq<char> {
    escape_field(e.0) + seq!['\t'] + escape_field(e.1) + seq!['\n']
}

/// The stored text of a history, one line per pair, in order.
pub open spec fn history_text(l: Seq<EntryView>) -> Seq<char>
    decreases l.len(),
{
    if l.len() == 0 {
        seq![]
    } else {
        history_line(l[0]) + history_text(l.skip(1))
    }
}

/// The index of the first `c` in `s`, or the length of `s` when there is none.
pub open spec fn find_char(s: Seq<char>, c: char) -> nat
    decreases s.len(),
{
    if s.len() == 0 {
        0
    } else if s[0] == c {
        0
    } else {
        1 + find_char(s.skip(1), c)
    }
}

/// The pair a stored line holds: the text before its first tab and the text
/// after it, both read back. A line without a tab holds none.
pub open spec fn parse_line(line: Seq<char>) -> Seq<EntryView> {
    let k = find_char(line, '\t');
    if k < line.len() {
        seq![(unescape_field(line.take(k as int)), unescape_field(line.skip(k as int + 1)))]
    } else {
        seq![]
    }
}

/// The pairs a stored text holds, line by line.
pub open spec fn parse_history_text(t: Seq<char>) -> Seq<EntryView>
    decreases t.len(),
{
    if t.len() == 0 {
        seq![]
    } else {
        let k = find_char(t, '\n');
        if k < t.len() {
            parse_line(t.take(k as int)) + parse_history_text(t.skip(k as int + 1))
        } else {
            parse_line(t)
        }
    }
}

/// `x` is not the pair `e`.
pub open spec fn differs_from(e: EntryView) -> spec_fn(EntryView) -> bool {
    |x: EntryView| x != e
}

/// The history after the pair `e` was executed: `e` first, then the earlier
/// pairs without `e`, cut to the capacity.
pub open spec fn record_entry(l: Seq<EntryView>, e: EntryView) -> Seq<EntryView> {
    let all = seq![e] + l.filter(differs_from(e));
    if all.len() <= HISTORY_CAPACITY {
        all
    } else {
        all.take(HISTORY_CAPACITY as int)
    }
}

proof fn lemma_find_char(s: Seq<char>, c: char, m: int)
    requires
        0 <= m <= s.len(),
        forall|x: int| 0 <= x < m ==> s[x] != c,
        m == s.len() || s[m] == c,
    ensures
        find_char(s, c) == m,
    decreases m,
{
    if m > 0 {
        lemma_find_char(s.skip(1), c, m - 1);
    }
}

proof fn lemma_find_char_append(a: Seq<char>, b: Seq<char>, c: char)
    requires
        !a.contains(c),
    ensures
        find_char(a + b, c) == a.len() + find_char(b, c),
    decreases a.len(),
{
    if a.len() > 0 {
        assert((a + b).skip(1) =~= a.skip(1) + b);
        assert(!a.skip(1).contains(c)) by {
            if a.skip(1).contains(c) {
                let x = choose|x: int| 0 <= x < a.skip(1).len() && a.skip(1)[x] == c;
                assert(a[x + 1] == c);
            }
        }
        assert(a[0] != c);
        lemma_find_char_append(a.skip(1), b, c);
    } else {
        assert(a + b =~= b);
    }
}

/// Reading back the stored text of a history gives the same history.
pub proof fn lemma_parse_history_text_roundtrip(l: Seq<EntryView>)
    ensures
        parse_history_text(history_text(l)) == l,
    decreases l.len(),
{
    if l.len() > 0 {
        let e = l[0];
        let em = escape_field(e.0);
        let er = escape_field(e.1);
        let rest = history_text(l.skip(1));
        let line = history_line(e);
        let t = history_text(l);
        lemma_escape_has_no_separators(e.0);
        lemma_escape_has_no_separators(e.1);
        lemma_unescape_escape(e.0);
        lemma_unescape_escape(e.1);
        lemma_parse_history_text_roundtrip(l.skip(1));
        let body = em + seq!['\t'] + er;
        assert(!body.contains('\n')) by {
            if body.contains('\n') {
                let x = choose|x: int| 0 <= x < body.len() && body[x] == '\n';
                if x < em.len() {
                    assert(em[x] == '\n');
                } else if x > em.len() {
                    assert(er[x - em.len() - 1] == '\n');
                }
            }
        }
        assert(t =~= body + (seq!['\n'] + rest));
        lemma_find_char_append(body, seq!['\n'] + rest, '\n');
        assert(find_char(t, '\n') == body.len());
        assert(t.take(body.len() as int) =~= body);
        assert(t.skip(body.len() as int + 1) =~= rest);
        assert(body =~= em + (seq!['\t'] + er));
        lemma_find_char_append(em, seq!['\t'] + er, '\t');
        assert(body.take(em.len() as int) =~= em);
        assert(body.skip(em.len() as int + 1) =~= er);
        assert(parse_line(body) =~= seq![e]);
        assert(l =~= seq![e] + l.skip(1));
    } else {
        assert(l =~= Seq::<EntryView>::empty());
    }
}

/// Filtering keeps a sequence free of repeats, and keeps only its elements.
proof fn lemma_filter_keeps(l: Seq<EntryView>, pred: spec_fn(EntryView) -> bool)
    ensures
        l.no_duplicates() ==> l.filter(pred).no_duplicates(),
        forall|x: EntryView| l.filter(pred).contains(x) ==> l.contains(x) && pred(x),
    decreases l.len(),
{
    reveal(Seq::filter);
    if l.len() > 0 {
        let init = l.drop_last();
        lemma_filter_keeps(init, pred);
        assert(l =~= init.push(l.last()));
        if l.no_duplicates() {
            assert(init.no_duplicates());
            assert(!init.contains(l.last()));
        }
        assert forall|x: EntryView| l.filter(pred).contains(x) implies l.contains(x) && pred(x) by {
            if init.filter(pred).contains(x) {
                assert(init.contains(x));
                let j = choose|j: int| 0 <= j < init.len() && init[j] == x;
                assert(l[j] == x);
            } else {
                assert(x == l.last());
            }
        }
    }
}

/// What recording a pair does to the history: the pair comes first and
/// nowhere else, the history stays within its capacity, it holds only the
/// pair and earlier pairs, and a history without repeats stays so.
pub proof fn lemma_record_entry(l: Seq<EntryView>, e: EntryView)
    ensures
        ({
            let r = record_entry(l, e);
            &&& 1 <= r.len() <= HISTORY_CAPACITY
            &&& r[0] == e
            &&& forall|k: int| 1 <= k < r.len() ==> r[k] != e
            &&& forall|x: EntryView| r.contains(x) ==> x == e || l.contains(x)
            &&& l.no_duplicates() ==> r.no_duplicates()
        }),
{
    let f = l.filter(differs_from(e));
    let all = seq![e] + f;
    lemma_filter_keeps(l, differs_from(e));
    let r = record_entry(l, e);
    assert forall|k: int| 1 <= k < r.len() implies r[k] != e by {
        assert(r[k] == f[k - 1]);
        assert(f.contains(f[k - 1]));
    }
    assert forall|x: EntryView| r.contains(x) implies x == e || l.contains(x) by {
        let k = choose|k: int| 0 <= k < r.len() && r[k] == x;
        if k > 0 {
            assert(f.contains(f[k - 1]));
        }
    }
    if l.no_duplicates() {
        assert forall|i: int, j: int| 0 <= i < r.len() && 0 <= j < r.len() && i != j implies r[i]
            != r[j] by {
            if i > 0 && j > 0 {
                assert(r[i] == f[i - 1] && r[j] == f[j - 1]);
            } else if i == 0 {
                assert(r[j] == f[j - 1]);
                assert(f.contains(f[j - 1]));
            } else {
                assert(r[i] == f[i - 1]);
                assert(f.contains(f[i - 1]));
            }
        }
    }
}

/// Recording keeps the earlier pairs in their order: after the new pair come
/// the earlier pairs other than it, most recent first as they were, as many
/// as the capacity leaves room for.
pub proof fn lemma_record_keeps_order(l: Seq<EntryView>, e: EntryView)
    ensures
        ({
            let r = record_entry(l, e);
            let rest = l.filter(|x: EntryView| x != e);
            &&& r.len() == (if 1 + rest.len() <= HISTORY_CAPACITY {
                1 + rest.len() as int
            } else {
                HISTORY_CAPACITY as int
            })
            &&& r[0] == e
            &&& r.skip(1) == rest.take(r.len() - 1)
        }),
{
    let pred = |x: EntryView| x != e;
    assert(differs_from(e) =~= pred);
    let rest = l.filter(pred);
    let all = seq![e] + rest;
    let r = record_entry(l, e);
    assert(r.skip(1) =~= rest.take(r.len() - 1));
}

/// Saving a pair and reading the history back gives the recorded history.
pub proof fn lemma_saved_history_reads_back(stored: Seq<char>, e: EntryView)
    ensures
        parse_history_text(history_text(record_entry(parse_history_text(stored), e))) == record_entry(
            parse_history_text(stored),
            e,
        ),
{
    lemma_parse_history_text_roundtrip(record_entry(parse_history_text(stored), e));
}

/// Copies `t[a..b]`.
fn copy_range(t: &Vec<char>, a: usize, b: usize) -> (v: Vec<char>)
    requires
        a <= b <= t@.len(),
    ensures
        v@ == t@.subrange(a as int, b as int),
{
    let mut v: Vec<char> = Vec::new();
    let mut i = a;
    while i < b
        invariant
            a <= i <= b <= t@.len(),
            v@ == t@.subrange(a as int, i as int),
        decreases b - i,
    {
        v.push(t[i]);
        assert(t@.subrange(a as int, i + 1) =~= t@.subrange(a as int, i as int).push(t@[i as int]));
        i += 1;
    }
    v
}

/// The pair stored in the line `t[a..b]`, if it holds one.
fn parse_line_at(t: &Vec<char>, a: usize, b: usize) -> (r: Option<(String, String)>)
    requires
        a <= b <= t@.len(),
    ensures
        ({
            let p = parse_line(t@.subrange(a as int, b as int));
            match r {
                Some(e) => p == seq![(e.0@, e.1@)],
                None => p == Seq::<EntryView>::empty(),
            }
        }),
{
    let ghost line = t@.subrange(a as int, b as int);
    let mut p = a;
    while p < b && t[p] != '\t'
        invariant
            a <= p <= b <= t@.len(),
            forall|x: int| a <= x < p ==> t@[x] != '\t',
        decreases b - p,
    {
        p += 1;
    }
    proof {
        lemma_find_char(line, '\t', p - a);
    }
    if p == b {
        None
    } else {
        let first = copy_range(t, a, p);
        let second = copy_range(t, p + 1, b);
        assert(first@ =~= line.take(p - a));
        assert(second@ =~= line.skip(p - a + 1));
        let m = unescape_chars(first.as_slice());
        let r = unescape_chars(second.as_slice());
        Some((string_from_chars(m.as_slice()), string_from_chars(r.as_slice())))
    }
}

/// How the stored text from `i` on splits at the line ending at `j`.
proof fn lemma_parse_split(t: Seq<char>, i: int, j: int)
    requires
        0 <= i <= j <= t.len(),
        i < t.len(),
        forall|x: int| i <= x < j ==> t[x] != '\n',
        j == t.len() || t[j] == '\n',
    ensures
        parse_history_text(t.skip(i)) == parse_line(t.subrange(i, j)) + (if j < t.len() {
            parse_history_text(t.skip(j + 1))
        } else {
            Seq::<EntryView>::empty()
        }),
{
    let rest = t.skip(i);
    lemma_find_char(rest, '\n', j - i);
    assert(rest.take(j - i) =~= t.subrange(i, j));
    if j < t.len() {
        assert(rest.skip(j - i + 1) =~= t.skip(j + 1));
    } else {
        assert(rest =~= t.subrange(i, j));
        assert(parse_line(t.subrange(i, j)) + Seq::<EntryView>::empty() =~= parse_line(
            t.subrange(i, j),
        ));
    }
}

/// The index of the first newline in `t` from `i` on, or the length of `t`.
fn line_end(t: &Vec<char>, i: usize) -> (j: usize)
    requires
        i <= t@.len(),
    ensures
        i <= j <= t@.len(),
        forall|x: int| i <= x < j ==> t@[x] != '\n',
        j == t@.len() || t@[j as int] == '\n',
{
    let mut j = i;
    while j < t.len() && t[j] != '\n'
        invariant
            i <= j <= t@.len(),
            forall|x: int| i <= x < j ==> t@[x] != '\n',
        decreases t.len() - j,
    {
        j += 1;
    }
    j
}

/// Reads the pairs stored in a history text, line by line; lines without a
/// tab are passed over.
pub fn parse_history(text: &str) -> (l: Vec<(String, String)>)
    ensures
        entry_views(l@) == parse_history_text(text@),
{
    let t = chars_of(text);
    let mut out: Vec<(String, String)> = Vec::new();
    let mut i: usize = 0;
    assert(t@.skip(0) =~= t@);
    assert(entry_views(out@) + parse_history_text(text@) =~= parse_history_text(text@));
    while i < t.len()
        invariant
            i <= t@.len(),
            t@ == text@,
            entry_views(out@) + parse_history_text(t@.skip(i as int)) == parse_history_text(text@),
        decreases t.len() - i,
    {
        let j = line_end(&t, i);
        proof {
            lemma_parse_split(t@, i as int, j as int);
        }
        let ghost before = entry_views(out@);
        let ghost parsed = parse_line(t@.subrange(i as int, j as int));
        let ghost total = parse_history_text(text@);
        assert(before + (parsed + (if j < t.len() {
            parse_history_text(t@.skip(j + 1))
        } else {
            Seq::<EntryView>::empty()
        })) == total);
        let ghost after = if j < t.len() {
            parse_history_text(t@.skip(j + 1))
        } else {
            Seq::<EntryView>::empty()
        };
        let entry = parse_line_at(&t, i, j);
        match entry {
            Some(e) => {
                out.push(e);
                assert(entry_views(out@) =~= before + parsed);
            },
            None => {
                assert(before + parsed =~= before);
            },
        }
        assert(before + (parsed + after) =~= entry_views(out@) + after);
        if j < t.len() {
            i = j + 1;
        } else {
            assert(t@.skip(j as int) =~= Seq::<char>::empty());
            assert(entry_views(out@) + after =~= entry_views(out@) + parse_history_text(
                t@.skip(j as int),
            ));
            i = j;
        }
    }
    proof {
        assert(t@.skip(i as int) =~= Seq::<char>::empty());
        assert(entry_views(out@) + Seq::<EntryView>::empty() =~= entry_views(out@));
    }
    out
}

/// The stored text of a history: per pair, the escaped match, a tab, the
/// escaped rename and a newline.
pub fn format_history(l: &[(String, String)]) -> (t: String)
    ensures
        t@ == history_text(entry_views(l@)),
{
    let ghost lv = entry_views(l@);
    let mut out: Vec<char> = Vec::new();
    let mut i: usize = 0;
    assert(lv.skip(0) =~= lv);
    assert(out@ + history_text(lv) =~= history_text(lv));
    while i < l.len()
        invariant
            i <= l@.len(),
            lv == entry_views(l@),
            out@ + history_text(lv.skip(i as int)) == history_text(lv),
        decreases l.len() - i,
    {
        let m = chars_of(l[i].0.as_str());
        let r = chars_of(l[i].1.as_str());
        let em = escape_chars(m.as_slice());
        let er = escape_chars(r.as_slice());
        let ghost before = out@;
        let mut k: usize = 0;
        while k < em.len()
            invariant
                k <= em@.len(),
                out@ == before + em@.take(k as int),
            decreases em.len() - k,
        {
            out.push(em[k]);
            assert(em@.take(k + 1) =~= em@.take(k as int).push(em@[k as int]));
            k += 1;
        }
        out.push('\t');
        let ghost mid = out@;
        let mut k: usize = 0;
        while k < er.len()
            invariant
                k <= er@.len(),
                out@ == mid + er@.take(k as int),
            decreases er.len() - k,
        {
            out.push(er[k]);
            assert(er@.take(k + 1) =~= er@.take(k as int).push(er@[k as int]));
            k += 1;
        }
        out.push('\n');
        proof {
            assert(em@.take(em@.len() as int) =~= em@);
            assert(er@.take(er@.len() as int) =~= er@);
            assert(lv.skip(i as int)[0] == lv[i as int]);
            assert(lv.skip(i as int).skip(1) =~= lv.skip(i + 1));
            assert(out@ =~= before + history_line(lv[i as int]));
            assert(before + history_text(lv.skip(i as int)) =~= before + history_line(lv[i as int])
                + history_text(lv.skip(i + 1)));
        }
        i += 1;
    }
    proof {
        assert(lv.skip(i as int) =~= Seq::<EntryView>::empty());
        assert(out@ + Seq::<char>::empty() =~= out@);
    }
    string_from_chars(out.as_slice())
}

/// The history after executing `(match_text, rename_text)`: that pair first,
/// the earlier pairs after it without repeating it, at most
/// `HISTORY_CAPACITY` pairs.
pub fn record_history(l: &[(String, String)], match_text: &str, rename_text: &str) -> (r: Vec<
    (String, String),
>)
    ensures
        entry_views(r@) == record_entry(entry_views(l@), (match_text@, rename_text@)),
{
    let ghost lv = entry_views(l@);
    let ghost e: EntryView = (match_text@, rename_text@);
    let m = match_text.to_string();
    let rn = rename_text.to_string();
    let mut out: Vec<(String, String)> = Vec::new();
    out.push((m.clone(), rn.clone()));
    let mut i: usize = 0;
    proof {
        reveal(Seq::filter);
        assert(lv.take(0) =~= Seq::<EntryView>::empty());
        assert(entry_views(out@) =~= seq![e] + lv.take(0).filter(differs_from(e)));
    }
    while i < l.len()
        invariant
            i <= l@.len(),
            lv == entry_views(l@),
            m@ == e.0,
            rn@ == e.1,
            entry_views(out@) == seq![e] + lv.take(i as int).filter(differs_from(e)),
        decreases l.len() - i,
    {
        let ghost before = entry_views(out@);
        proof {
            assert(lv.take(i + 1) =~= lv.take(i as int).push(lv[i as int]));
            lv.take(i as int).lemma_filter_push(lv[i as int], differs_from(e));
        }
        if !(l[i].0 == m && l[i].1 == rn) {
            out.push((l[i].0.clone(), l[i].1.clone()));
            assert(entry_views(out@) =~= before.push(lv[i as int]));
        }
        i += 1;
    }
    proof {
        assert(lv.take(l@.len() as int) =~= lv);
    }
    if out.len() > HISTORY_CAPACITY {
        let ghost full = entry_views(out@);
        out.truncate(HISTORY_CAPACITY);
        assert(entry_views(out@) =~= full.take(HISTORY_CAPACITY as int));
    }
    out
}

} // verus!
