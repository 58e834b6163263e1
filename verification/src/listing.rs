//! How directory entries are listed: their labels and the preview of their
//! new names.
use vstd::prelude::*;

use vstd::utf8::char_u32_cast;

use crate::pattern::{regex_is_match, regex_replace_all, Matcher};
use crate::safety::{new_name, will_rename};
use crate::text::chars_of;

verus! {

/// The label of an entry: a file icon and the name, or a folder icon and
/// the name with a trailing slash.
pub open spec fn label_of(is_file: bool, name: Seq<char>) -> Seq<char> {
    if is_file {
        "📄 "@ + name
    } else {
        "📁 "@ + name + "/"@
    }
}

/// The label shown for an entry.
pub fn entry_label(is_file: bool, name: &str) -> (label: String)
    ensures
        label@ == label_of(is_file, name@),
{
    if is_file {
        String::from_str("📄 ").concat(name)
    } else {
        String::from_str("📁 ").concat(name).concat("/")
    }
}

/// The new name shown in the preview for an entry that takes part in the
/// rename; `None` for one that does not.
pub fn preview_new_name(match_re: &Matcher, name: &str, pattern: &str) -> (r: Option<String>)
    ensures
        will_rename(match_re@, name@, pattern@) <==> r is Some,
        r matches Some(n) ==> n@ == new_name(match_re@, name@, pattern@),
        r is Some <==> pattern@.len() > 0 && regex_is_match(match_re@, name@),
        r matches Some(n) ==> n@ == regex_replace_all(match_re@, name@, pattern@),
{
    if match_re.is_match(name) && !pattern.is_empty() {
        Some(match_re.replace_all(name, pattern))
    } else {
        None
    }
}

/// The lower-case form that `str::to_lowercase` gives of a text.
pub uninterp spec fn lowercase(s: Seq<char>) -> Seq<char>;

/// Trusted: calls `str::to_lowercase`. Claims the result is `lowercase` of
/// the text.
#[verifier::external_body]
fn to_lowercase(s: &str) -> (r: String)
    ensures
        r@ == lowercase(s@),
{
    s.to_lowercase()
}

/// Lexicographic order of texts by code point, the order of `str`'s
/// comparison.
pub open spec fn text_lt(a: Seq<char>, b: Seq<char>) -> bool
    decreases a.len(),
{
    if b.len() == 0 {
        false
    } else if a.len() == 0 {
        true
    } else if (a[0] as u32) < (b[0] as u32) {
        true
    } else if (a[0] as u32) > (b[0] as u32) {
        false
    } else {
        text_lt(a.skip(1), b.skip(1))
    }
}

/// `a` comes before `b` in the lexicographic order of `str`: `a` is a proper
/// prefix of `b`, or at the first position where they differ `a` has the
/// smaller code point, whatever their lengths.
pub open spec fn lex_precedes(a: Seq<char>, b: Seq<char>) -> bool {
    ||| (a.len() < b.len() && a == b.take(a.len() as int))
    ||| exists|i: int|
        0 <= i < a.len() && i < b.len() && a.take(i) == b.take(i) && (#[trigger] a[i] as u32) < (
        b[i] as u32)
}

/// The order the listing uses is the lexicographic order of `str`.
pub proof fn lemma_text_lt_lexicographic(a: Seq<char>, b: Seq<char>)
    ensures
        text_lt(a, b) <==> lex_precedes(a, b),
    decreases a.len(),
{
    if a.len() == 0 || b.len() == 0 {
        if a.len() == 0 {
            assert(a =~= b.take(0));
        }
    } else {
        let a1 = a.skip(1);
        let b1 = b.skip(1);
        lemma_text_lt_lexicographic(a1, b1);
        if (a[0] as u32) < (b[0] as u32) {
            assert(a.take(0) =~= b.take(0));
            assert(lex_precedes(a, b));
        } else if (a[0] as u32) > (b[0] as u32) {
            if lex_precedes(a, b) {
                if a.len() < b.len() && a == b.take(a.len() as int) {
                    assert(a[0] == b.take(a.len() as int)[0]);
                } else {
                    let i = choose|i: int|
                        0 <= i < a.len() && i < b.len() && a.take(i) == b.take(i) && (
                        #[trigger] a[i] as u32) < (b[i] as u32);
                    if i > 0 {
                        assert(a.take(i)[0] == b.take(i)[0]);
                    }
                }
            }
        } else {
            char_u32_cast(a[0], a[0] as u32);
            char_u32_cast(b[0], b[0] as u32);
            assert(a[0] == b[0]);
            // text_lt(a, b) == text_lt(a1, b1); relate the two orders
            if lex_precedes(a1, b1) {
                if a1.len() < b1.len() && a1 == b1.take(a1.len() as int) {
                    assert forall|k: int| 0 <= k < a.len() implies #[trigger] a[k] == b.take(
                        a.len() as int,
                    )[k] by {
                        if k > 0 {
                            assert(a[k] == a1[k - 1]);
                            assert(b1.take(a1.len() as int)[k - 1] == b[k]);
                        }
                    }
                    assert(a =~= b.take(a.len() as int));
                } else {
                    let i = choose|i: int|
                        0 <= i < a1.len() && i < b1.len() && a1.take(i) == b1.take(i) && (
                        #[trigger] a1[i] as u32) < (b1[i] as u32);
                    assert(a.take(i + 1) =~= b.take(i + 1)) by {
                        assert forall|k: int| 0 <= k < i + 1 implies #[trigger] a.take(i + 1)[k] == b.take(i + 1)[k] by {
                            if k > 0 {
                                assert(a1.take(i)[k - 1] == b1.take(i)[k - 1]);
                            }
                        }
                    }
                    assert(a[i + 1] == a1[i]);
                    assert(lex_precedes(a, b));
                }
            }
            if lex_precedes(a, b) {
                if a.len() < b.len() && a == b.take(a.len() as int) {
                    assert(a1 =~= b1.take(a1.len() as int));
                } else {
                    let i = choose|i: int|
                        0 <= i < a.len() && i < b.len() && a.take(i) == b.take(i) && (
                        #[trigger] a[i] as u32) < (b[i] as u32);
                    assert(i > 0);
                    assert(a1.take(i - 1) =~= b1.take(i - 1)) by {
                        assert forall|k: int| 0 <= k < i - 1 implies #[trigger] a1.take(i - 1)[k] == b1.take(i - 1)[k] by {
                            assert(a.take(i)[k + 1] == b.take(i)[k + 1]);
                        }
                    }
                    assert(a1[i - 1] == a[i]);
                    assert(lex_precedes(a1, b1));
                }
            }
        }
    }
}

/// `text_lt` is a strict total order.
pub proof fn lemma_text_lt_order(a: Seq<char>, b: Seq<char>, c: Seq<char>)
    ensures
        !text_lt(a, a),
        text_lt(a, b) && text_lt(b, c) ==> text_lt(a, c),
        a != b ==> text_lt(a, b) || text_lt(b, a),
        text_lt(a, b) ==> !text_lt(b, a),
    decreases a.len(),
{
    if a.len() > 0 && b.len() > 0 && c.len() > 0 {
        lemma_text_lt_order(a.skip(1), b.skip(1), c.skip(1));
    }
    if a.len() > 0 {
        lemma_text_lt_order(a.skip(1), a.skip(1), a.skip(1));
    }
    if a.len() > 0 && b.len() > 0 {
        lemma_text_lt_order(a.skip(1), b.skip(1), b.skip(1));
        if a != b && (a[0] as u32) == (b[0] as u32) {
            char_u32_cast(a[0], a[0] as u32);
            char_u32_cast(b[0], b[0] as u32);
            assert(a[0] == b[0]);
            if a.skip(1) == b.skip(1) {
                assert(a =~= seq![a[0]] + a.skip(1));
                assert(b =~= seq![b[0]] + b.skip(1));
            }
        }
    }
    if a.len() == 0 && b.len() == 0 {
        assert(a =~= b);
    }
}

fn text_lt_exec(a: &Vec<char>, b: &Vec<char>) -> (r: bool)
    ensures
        r == text_lt(a@, b@),
{
    let n = if a.len() < b.len() { a.len() } else { b.len() };
    let mut i: usize = 0;
    assert(a@.skip(0) =~= a@);
    assert(b@.skip(0) =~= b@);
    while i < n
        invariant
            n <= a@.len(),
            n <= b@.len(),
            n == a@.len() || n == b@.len(),
            i <= n,
            text_lt(a@, b@) == text_lt(a@.skip(i as int), b@.skip(i as int)),
        decreases n - i,
    {
        let x = a[i] as u32;
        let y = b[i] as u32;
        assert(a@.skip(i as int)[0] == a@[i as int]);
        assert(b@.skip(i as int)[0] == b@[i as int]);
        if x != y {
            return x < y;
        }
        proof {
            assert(a@.skip(i as int).skip(1) =~= a@.skip(i + 1));
            assert(b@.skip(i as int).skip(1) =~= b@.skip(i + 1));
        }
        i += 1;
    }
    i < b.len()
}

/// The order of the listing: by lower-cased name, and entries whose
/// lower-cased names are equal in their original order.
pub open spec fn listed_before(keys: Seq<Seq<char>>, x: int, y: int) -> bool {
    text_lt(keys[x], keys[y]) || (keys[x] == keys[y] && x < y)
}

/// The lower-cased names of the entries.
pub open spec fn listing_keys(items: Seq<(bool, String)>) -> Seq<Seq<char>> {
    items.map_values(|it: (bool, String)| lowercase(it.1@))
}

/// `p` lists the indices `0..n` once each.
pub open spec fn is_permutation(p: Seq<int>, n: nat) -> bool {
    &&& p.len() == n
    &&& forall|k: int| 0 <= k < p.len() ==> 0 <= #[trigger] p[k] < n
    &&& p.no_duplicates()
}

/// Sorts directory entries by lower-cased name; entries whose lower-cased
/// names are equal keep their order.
pub fn sort_listing(items: &[(bool, String)]) -> (sorted: Vec<(bool, String)>)
    ensures
        exists|p: Seq<int>|
            {
                &&& is_permutation(p, items@.len())
                &&& forall|k: int|
                    0 <= k < sorted@.len() ==> (#[trigger] sorted@[k]).0 == items@[p[k]].0
                        && sorted@[k].1@ == items@[p[k]].1@
                &&& forall|a: int, b: int|
                    0 <= a < b < p.len() ==> listed_before(
                        listing_keys(items@),
                        #[trigger] p[a],
                        #[trigger] p[b],
                    )
                &&& forall|a: int, b: int|
                    0 <= a < b < p.len() ==> lex_precedes(
                        listing_keys(items@)[#[trigger] p[a]],
                        listing_keys(items@)[#[trigger] p[b]],
                    ) || (listing_keys(items@)[p[a]] == listing_keys(items@)[p[b]] && p[a] < p[b])
            },
{
    let ghost keys = listing_keys(items@);
    let mut out: Vec<(bool, String)> = Vec::new();
    let mut out_keys: Vec<Vec<char>> = Vec::new();
    let ghost mut p: Seq<int> = Seq::empty();
    let mut i: usize = 0;
    while i < items.len()
        invariant
            i <= items@.len(),
            keys == listing_keys(items@),
            is_permutation(p, i as nat),
            out@.len() == i,
            out_keys@.len() == i,
            forall|k: int|
                0 <= k < i ==> (#[trigger] out@[k]).0 == items@[p[k]].0 && out@[k].1@
                    == items@[p[k]].1@,
            forall|k: int| 0 <= k < i ==> (#[trigger] out_keys@[k])@ == keys[p[k]],
            forall|a: int, b: int| 0 <= a < b < i ==> listed_before(keys, #[trigger] p[a], #[trigger] p[b]),
        decreases items.len() - i,
    {
        let key_string = to_lowercase(items[i].1.as_str());
        let key = chars_of(key_string.as_str());
        assert(key@ == keys[i as int]);
        let mut pos: usize = 0;
        while pos < out_keys.len() && !text_lt_exec(&key, &out_keys[pos])
            invariant
                pos <= out_keys@.len(),
                out_keys@.len() == i,
                forall|k: int| 0 <= k < pos ==> !text_lt(key@, #[trigger] out_keys@[k]@),
            decreases out_keys.len() - pos,
        {
            pos += 1;
        }
        let ghost old_p = p;
        let ghost old_out_keys = out_keys@;
        proof {
            assert forall|k: int| pos <= k < i implies text_lt(key@, #[trigger] keys[old_p[k]]) by {
                assert(out_keys@[pos as int]@ == keys[old_p[pos as int]]);
                assert(text_lt(key@, keys[old_p[pos as int]]));
                if k > pos {
                    assert(listed_before(keys, old_p[pos as int], old_p[k]));
                    lemma_text_lt_order(key@, keys[old_p[pos as int]], keys[old_p[k]]);
                }
            }
            assert forall|k: int| 0 <= k < pos implies listed_before(keys, #[trigger] old_p[k], i as int) by {
                assert(out_keys@[k]@ == keys[old_p[k]]);
                assert(!text_lt(key@, out_keys@[k]@));
                lemma_text_lt_order(keys[old_p[k]], key@, key@);
                assert(old_p[k] < i);
            }
            p = old_p.insert(pos as int, i as int);
            assert forall|a: int, b: int| 0 <= a < b < i + 1 implies listed_before(keys, #[trigger] p[a], #[trigger] p[b]) by {
                if b < pos {
                    assert(p[a] == old_p[a] && p[b] == old_p[b]);
                } else if b == pos {
                    assert(p[a] == old_p[a]);
                } else if a < pos {
                    assert(p[a] == old_p[a] && p[b] == old_p[b - 1]);
                } else if a == pos {
                    assert(p[b] == old_p[b - 1]);
                } else {
                    assert(p[a] == old_p[a - 1] && p[b] == old_p[b - 1]);
                }
            }
            assert forall|a: int, b: int| 0 <= a < p.len() && 0 <= b < p.len() && a != b implies p[a] != p[b] by {
                if a < pos && b < pos {
                } else if a == pos || b == pos {
                } else {
                }
            }
        }
        out.insert(pos, (items[i].0, items[i].1.clone()));
        out_keys.insert(pos, key);
        i += 1;
    }
    proof {
        assert forall|a: int, b: int| 0 <= a < b < p.len() implies lex_precedes(
            keys[#[trigger] p[a]],
            keys[#[trigger] p[b]],
        ) || (keys[p[a]] == keys[p[b]] && p[a] < p[b]) by {
            assert(listed_before(keys, p[a], p[b]));
            lemma_text_lt_lexicographic(keys[p[a]], keys[p[b]]);
        }
    }
    out
}

} // verus!
