//! Cursor positions in an edited field. As in `str`, a cursor is a byte
//! offset into the UTF-8 encoding of the field; it sits on a character
//! boundary, the byte offset at which some character starts or the end.
use vstd::prelude::*;
use vstd::utf8::{char_is_scalar, encode_scalar, encode_utf8};

use crate::text::{chars_of, string_from_chars};

verus! {

broadcast use vstd::seq_lib::group_seq_properties;

/// The number of bytes of the UTF-8 encoding of `c`.
pub open spec fn char_width(c: char) -> nat {
    encode_scalar(c as u32).len()
}

/// The byte offset at which character `k` of `s` starts (the byte length of
/// `s` for `k == s.len()`).
pub open spec fn byte_offset(s: Seq<char>, k: int) -> nat {
    encode_utf8(s.take(k)).len()
}

/// The byte length of `s`.
pub open spec fn byte_len(s: Seq<char>) -> nat {
    encode_utf8(s).len()
}

/// Whether the byte offset `c` is a character boundary of `s`.
pub open spec fn is_boundary(s: Seq<char>, c: int) -> bool {
    exists|k: int| 0 <= k <= s.len() && #[trigger] byte_offset(s, k) == c
}

/// The index of the character that starts at the boundary `c`.
pub open spec fn index_at(s: Seq<char>, c: int) -> int {
    choose|k: int| 0 <= k <= s.len() && #[trigger] byte_offset(s, k) == c
}

pub proof fn lemma_char_width(c: char)
    ensures
        1 <= char_width(c) <= 4,
        char_width(c) == (if (c as u32) <= 0x7f {
            1int
        } else if (c as u32) <= 0x7ff {
            2int
        } else if (c as u32) <= 0xffff {
            3int
        } else {
            4int
        }),
{
    char_is_scalar(c);
}

pub proof fn lemma_encode_append(a: Seq<char>, b: Seq<char>)
    ensures
        encode_utf8(a + b) == encode_utf8(a) + encode_utf8(b),
    decreases a.len(),
{
    if a.len() == 0 {
        assert(a + b =~= b);
        assert(encode_utf8(a) + encode_utf8(b) =~= encode_utf8(b));
    } else {
        assert((a + b).drop_first() =~= a.drop_first() + b);
        assert((a + b)[0] == a[0]);
        lemma_encode_append(a.drop_first(), b);
        assert(encode_utf8(a + b) =~= encode_utf8(a) + encode_utf8(b));
    }
}

/// The byte length of one character.
pub proof fn lemma_encode_single(c: char)
    ensures
        encode_utf8(seq![c]).len() == char_width(c),
{
    reveal_with_fuel(encode_utf8, 2);
    assert(seq![c].drop_first() =~= Seq::<char>::empty());
}

/// Consecutive offsets differ by the width of the character between them.
pub proof fn lemma_offset_step(s: Seq<char>, k: int)
    requires
        0 <= k < s.len(),
    ensures
        byte_offset(s, k + 1) == byte_offset(s, k) + char_width(s[k]),
{
    assert(s.take(k + 1) =~= s.take(k) + seq![s[k]]);
    lemma_encode_append(s.take(k), seq![s[k]]);
    lemma_encode_single(s[k]);
}

proof fn lemma_offsets_grow(s: Seq<char>, i: int, j: int)
    requires
        0 <= i <= j <= s.len(),
    ensures
        byte_offset(s, i) + (j - i) <= byte_offset(s, j),
    decreases j - i,
{
    if i < j {
        lemma_offsets_grow(s, i, j - 1);
        lemma_offset_step(s, j - 1);
        lemma_char_width(s[j - 1]);
    }
}

/// Offsets grow with the index: from 0 at the start to the byte length at
/// the end.
pub proof fn lemma_offsets_increase(s: Seq<char>, i: int, j: int)
    requires
        0 <= i <= j <= s.len(),
    ensures
        byte_offset(s, i) + (j - i) <= byte_offset(s, j),
        byte_offset(s, j) <= byte_len(s),
        byte_offset(s, 0) == 0,
        byte_offset(s, s.len() as int) == byte_len(s),
{
    assert(s.take(0) =~= Seq::<char>::empty());
    assert(s.take(s.len() as int) =~= s);
    lemma_offsets_grow(s, i, j);
    lemma_offsets_grow(s, j, s.len() as int);
}

/// The byte length of `s`, which fits in a `usize`.
pub fn str_byte_len(s: &str) -> (n: usize)
    ensures
        n == byte_len(s@),
{
    s.as_bytes().len()
}

/// A boundary belongs to exactly one character index.
pub proof fn lemma_index_at(s: Seq<char>, k: int)
    requires
        0 <= k <= s.len(),
    ensures
        is_boundary(s, byte_offset(s, k) as int),
        index_at(s, byte_offset(s, k) as int) == k,
{
    let c = byte_offset(s, k) as int;
    assert(is_boundary(s, c));
    let j = index_at(s, c);
    if j < k {
        lemma_offsets_increase(s, j, k);
    } else if k < j {
        lemma_offsets_increase(s, k, j);
    }
}

/// The width of `c` in bytes, as `char::len_utf8` gives it.
pub fn char_len_utf8(c: char) -> (w: usize)
    ensures
        w == char_width(c),
{
    proof {
        lemma_char_width(c);
    }
    let v = c as u32;
    if v <= 0x7f {
        1
    } else if v <= 0x7ff {
        2
    } else if v <= 0xffff {
        3
    } else {
        4
    }
}

/// The byte offset of the character boundary before `idx`: 0 for `idx == 0`,
/// otherwise the start of the last character that starts before `idx`
/// (0 when `s` is empty).
pub fn prev_char_boundary(s: &str, idx: usize) -> (r: usize)
    ensures
        idx == 0 || s@.len() == 0 ==> r == 0,
        idx > 0 && s@.len() > 0 ==> exists|k: int|
            0 <= k < s@.len() && r == #[trigger] byte_offset(s@, k) && r < idx && (k + 1 == s@.len()
                || byte_offset(s@, k + 1) >= idx),
{
    if idx == 0 {
        return 0;
    }
    let cs = chars_of(s);
    if cs.len() == 0 {
        return 0;
    }
    let total = str_byte_len(s);
    proof {
        lemma_offsets_increase(s@, 0, s@.len() as int);
    }
    let mut prev: usize = 0;
    let mut k: usize = 1;
    let mut off: usize = char_len_utf8(cs[0]);
    proof {
        lemma_offset_step(s@, 0);
    }
    while k < cs.len() && off < idx
        invariant
            cs@ == s@,
            1 <= k <= cs@.len(),
            off == byte_offset(s@, k as int),
            prev == byte_offset(s@, k - 1),
            prev < idx,
            0 < idx,
            total == byte_len(s@),
        decreases cs.len() - k,
    {
        proof {
            lemma_offset_step(s@, k as int);
            lemma_offsets_increase(s@, k + 1, s@.len() as int);
        }
        prev = off;
        off = off + char_len_utf8(cs[k]);
        k += 1;
    }
    assert(byte_offset(s@, (k - 1) as int) == prev);
    prev
}

/// The byte offset of the character boundary after `idx`: the end of the
/// character that starts at `idx`, or the byte length when `idx` is at or
/// past the end.
pub fn next_char_boundary(s: &str, idx: usize) -> (r: usize)
    requires
        idx >= byte_len(s@) || is_boundary(s@, idx as int),
    ensures
        idx >= byte_len(s@) ==> r == byte_len(s@),
        idx < byte_len(s@) ==> exists|k: int|
            0 <= k < s@.len() && idx == #[trigger] byte_offset(s@, k) && r == byte_offset(
                s@,
                k + 1,
            ),
{
    let cs = chars_of(s);
    let total = str_byte_len(s);
    let ghost n = s@.len() as int;
    proof {
        lemma_offsets_increase(s@, 0, n);
    }
    let mut k: usize = 0;
    let mut off: usize = 0;
    let ghost target = if idx < byte_len(s@) { index_at(s@, idx as int) } else { n };
    proof {
        if idx < byte_len(s@) {
            assert(0 <= target <= n && byte_offset(s@, target) == idx);
            if target == n {
                assert(false);
            }
        }
    }
    while k < cs.len() && off < idx
        invariant
            cs@ == s@,
            n == s@.len(),
            k <= cs@.len(),
            off == byte_offset(s@, k as int),
            off <= byte_len(s@),
            total == byte_len(s@),
            idx < byte_len(s@) ==> k <= target < n && byte_offset(s@, target) == idx,
        decreases cs.len() - k,
    {
        proof {
            lemma_offset_step(s@, k as int);
            lemma_offsets_increase(s@, k + 1, n);
            if idx < byte_len(s@) && k == target {
                assert(false);
            }
            if idx < byte_len(s@) && k + 1 > target {
                lemma_offsets_increase(s@, target, k + 1);
            }
        }
        off = off + char_len_utf8(cs[k]);
        k += 1;
    }
    if k == cs.len() {
        proof {
            if idx < byte_len(s@) {
                lemma_offsets_increase(s@, target, n);
            }
        }
        return off;
    }
    proof {
        if idx < byte_len(s@) {
            if k < target {
                lemma_offsets_increase(s@, k as int, target);
            }
        } else {
            lemma_offsets_increase(s@, k as int, n);
        }
        lemma_offset_step(s@, k as int);
        lemma_offsets_increase(s@, k + 1, n);
    }
    off + char_len_utf8(cs[k])
}

/// The least of `cursor` and the byte length of `s`.
pub open spec fn clamp_cursor(s: Seq<char>, cursor: int) -> int {
    if cursor < byte_len(s) {
        cursor
    } else {
        byte_len(s) as int
    }
}

/// The index of the character starting at the boundary `c`, found by walking
/// the characters of `s`.
pub(crate) fn find_index_in(cs: &Vec<char>, c: usize, total: usize) -> (k: usize)
    requires
        total == byte_len(cs@),
        is_boundary(cs@, c as int),
    ensures
        k == index_at(cs@, c as int),
        k <= cs@.len(),
        byte_offset(cs@, k as int) == c,
{
    let ghost target = index_at(cs@, c as int);
    let ghost n = cs@.len() as int;
    proof {
        lemma_offsets_increase(cs@, 0, n);
        lemma_index_at(cs@, target);
    }
    let len = cs.len();
    let mut k: usize = 0;
    let mut off: usize = 0;
    while off < c
        invariant
            total == byte_len(cs@),
            n == cs@.len(),
            n == len,
            0 <= target <= n,
            byte_offset(cs@, target) == c,
            k <= target,
            off == byte_offset(cs@, k as int),
        decreases target - k,
    {
        proof {
            if k == target {
                assert(false);
            }
            lemma_offset_step(cs@, k as int);
            lemma_offsets_increase(cs@, k + 1, n);
            if k + 1 > target {
                lemma_offsets_increase(cs@, target, k + 1);
            }
        }
        off = off + char_len_utf8(cs[k]);
        k += 1;
    }
    proof {
        if k < target {
            lemma_offsets_increase(cs@, k as int, target);
        }
    }
    k
}

/// The column of the cursor: the number of characters before it.
pub fn cursor_column(value: &str, cursor: usize) -> (col: i32)
    requires
        cursor >= byte_len(value@) || is_boundary(value@, cursor as int),
    ensures
        col == index_at(value@, clamp_cursor(value@, cursor as int)) as i32,
{
    let cs = chars_of(value);
    let total = str_byte_len(value);
    let c = if cursor < total { cursor } else { total };
    proof {
        lemma_offsets_increase(value@, 0, value@.len() as int);
        assert(byte_offset(value@, value@.len() as int) == total);
    }
    let k = find_index_in(&cs, c, total);
    k as i32
}

/// What the cursor covers: the character starting at the cursor, or a space
/// when the cursor is at the end.
pub fn cursor_cell(value: &str, cursor: usize) -> (cell: String)
    requires
        cursor >= byte_len(value@) || is_boundary(value@, cursor as int),
    ensures
        cursor < byte_len(value@) ==> cell@ == seq![value@[index_at(value@, cursor as int)]],
        cursor >= byte_len(value@) ==> cell@ == seq![' '],
{
    let cs = chars_of(value);
    let total = str_byte_len(value);
    if cursor < total {
        let k = find_index_in(&cs, cursor, total);
        proof {
            lemma_offsets_increase(value@, 0, value@.len() as int);
            if k == cs.len() {
                assert(false);
            }
        }
        let one = [cs[k]];
        string_from_chars(&one)
    } else {
        let one = [' '];
        string_from_chars(&one)
    }
}

} // verus!
