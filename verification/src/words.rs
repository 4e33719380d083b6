//! Splitting caption text into whitespace-separated words.

use vstd::prelude::*;
use vstd::string::StrSliceExecFns;

verus! {

/// The Unicode white-space characters, the separators of
/// `str::split_whitespace`.
pub open spec fn is_space(c: char) -> bool {
    ||| c == ' '
    ||| c == '\u{0009}'
    ||| c == '\u{000A}'
    ||| c == '\u{000B}'
    ||| c == '\u{000C}'
    ||| c == '\u{000D}'
    ||| c == '\u{0085}'
    ||| c == '\u{00A0}'
    ||| c == '\u{1680}'
    ||| (0x2000 <= c as u32 && c as u32 <= 0x200A)
    ||| c == '\u{2028}'
    ||| c == '\u{2029}'
    ||| c == '\u{202F}'
    ||| c == '\u{205F}'
    ||| c == '\u{3000}'
}

/// Executable test for `is_space`.
pub fn is_space_char(c: char) -> (r: bool)
    ensures
        r == is_space(c),
{
    let v = c as u32;
    v == 0x20 || v == 0x09 || v == 0x0A || v == 0x0B || v == 0x0C || v == 0x0D || v == 0x85 || v
        == 0xA0 || v == 0x1680 || (0x2000 <= v && v <= 0x200A) || v == 0x2028 || v == 0x2029 || v
        == 0x202F || v == 0x205F || v == 0x3000
}

/// The first position at or after `i` holding a non-space character, or the
/// end of the sequence.
pub open spec fn next_non_space(s: Seq<char>, i: int) -> int
    decreases s.len() - i,
{
    if i < 0 || i >= s.len() {
        s.len() as int
    } else if !is_space(s[i]) {
        i
    } else {
        next_non_space(s, i + 1)
    }
}

/// The first position at or after `i` holding a space, or the end of the
/// sequence.
pub open spec fn next_space(s: Seq<char>, i: int) -> int
    decreases s.len() - i,
{
    if i < 0 || i >= s.len() {
        s.len() as int
    } else if is_space(s[i]) {
        i
    } else {
        next_space(s, i + 1)
    }
}

/// Bounds of `next_non_space`.
pub proof fn lemma_next_non_space(s: Seq<char>, i: int)
    requires
        0 <= i <= s.len(),
    ensures
        i <= next_non_space(s, i) <= s.len(),
        next_non_space(s, i) < s.len() ==> !is_space(s[next_non_space(s, i)]),
    decreases s.len() - i,
{
    if i < s.len() && is_space(s[i]) {
        lemma_next_non_space(s, i + 1);
    }
}

/// Bounds of `next_space`.
pub proof fn lemma_next_space(s: Seq<char>, i: int)
    requires
        0 <= i <= s.len(),
    ensures
        i <= next_space(s, i) <= s.len(),
        i < s.len() && !is_space(s[i]) ==> next_space(s, i) > i,
    decreases s.len() - i,
{
    if i < s.len() && !is_space(s[i]) {
        lemma_next_space(s, i + 1);
    }
}

/// The (start, end) character ranges of the whitespace-separated words of
/// `s`, scanning from position `i`.
pub open spec fn word_ranges_from(s: Seq<char>, i: int) -> Seq<(int, int)>
    decreases s.len() - i,
    via word_ranges_dec
{
    let ws = next_non_space(s, i);
    if i < 0 || ws >= s.len() {
        Seq::empty()
    } else {
        seq![(ws, next_space(s, ws))] + word_ranges_from(s, next_space(s, ws))
    }
}

#[via_fn]
proof fn word_ranges_dec(s: Seq<char>, i: int) {
    if 0 <= i {
        if i <= s.len() {
            lemma_next_non_space(s, i);
            let ws = next_non_space(s, i);
            if ws < s.len() {
                lemma_next_space(s, ws);
            }
        }
    }
}

/// Every word range is nonempty, ordered, in bounds, and there are at most
/// as many words as characters left.
pub proof fn lemma_word_ranges(s: Seq<char>, i: int)
    requires
        0 <= i <= s.len(),
    ensures
        word_ranges_from(s, i).len() <= s.len() - i,
        forall|j: int|
            0 <= j < word_ranges_from(s, i).len() ==> i <= (#[trigger] word_ranges_from(s, i)[j]).0
                < word_ranges_from(s, i)[j].1 <= s.len(),
    decreases s.len() - i,
{
    lemma_next_non_space(s, i);
    let ws = next_non_space(s, i);
    if ws < s.len() {
        lemma_next_space(s, ws);
        let we = next_space(s, ws);
        lemma_word_ranges(s, we);
    }
}

/// Scan forward from `from` to the first non-space character.
fn scan_non_space(text: &str, from: usize) -> (r: usize)
    requires
        from <= text@.len(),
    ensures
        r == next_non_space(text@, from as int),
        from <= r <= text@.len(),
{
    let n = text.unicode_len();
    let mut i = from;
    while i < n
        invariant
            from <= i <= n,
            n == text@.len(),
            next_non_space(text@, from as int) == next_non_space(text@, i as int),
        decreases n - i,
    {
        if !is_space_char(text.get_char(i)) {
            proof {
                lemma_next_non_space(text@, from as int);
            }
            return i;
        }
        i = i + 1;
    }
    i
}

/// Scan forward from `from` to the first space character.
fn scan_space(text: &str, from: usize) -> (r: usize)
    requires
        from <= text@.len(),
    ensures
        r == next_space(text@, from as int),
        from <= r <= text@.len(),
{
    let n = text.unicode_len();
    let mut i = from;
    while i < n
        invariant
            from <= i <= n,
            n == text@.len(),
            next_space(text@, from as int) == next_space(text@, i as int),
        decreases n - i,
    {
        if is_space_char(text.get_char(i)) {
            proof {
                lemma_next_space(text@, from as int);
            }
            return i;
        }
        i = i + 1;
    }
    i
}

/// The word ranges of `text` as index pairs, in order.
pub fn split_words(text: &str) -> (ranges: Vec<(usize, usize)>)
    ensures
        ranges@.len() == word_ranges_from(text@, 0).len(),
        forall|j: int|
            0 <= j < ranges@.len() ==> (#[trigger] ranges@[j]).0 == word_ranges_from(text@, 0)[j].0
                && ranges@[j].1 == word_ranges_from(text@, 0)[j].1,
{
    let n = text.unicode_len();
    let mut ranges: Vec<(usize, usize)> = Vec::new();
    let mut pos: usize = 0;
    let ghost s = text@;
    let ghost full = word_ranges_from(text@, 0);
    while pos < n
        invariant
            pos <= n,
            n == s.len(),
            s == text@,
            full == word_ranges_from(s, 0),
            full =~= ranges@.map_values(|p: (usize, usize)| (p.0 as int, p.1 as int))
                + word_ranges_from(s, pos as int),
        decreases n - pos,
    {
        let ws = scan_non_space(text, pos);
        if ws >= n {
            proof {
                assert(word_ranges_from(s, pos as int) =~= Seq::<(int, int)>::empty());
                assert(word_ranges_from(s, n as int) =~= Seq::<(int, int)>::empty());
            }
            pos = n;
            continue ;
        }
        let we = scan_space(text, ws);
        proof {
            lemma_next_space(s, ws as int);
            lemma_next_non_space(s, pos as int);
            assert(word_ranges_from(s, pos as int) == seq![(ws as int, we as int)]
                + word_ranges_from(s, we as int));
        }
        ranges.push((ws, we));
        proof {
            assert(full =~= ranges@.map_values(|p: (usize, usize)| (p.0 as int, p.1 as int))
                + word_ranges_from(s, we as int));
        }
        pos = we;
    }
    proof {
        assert(word_ranges_from(s, pos as int) =~= Seq::<(int, int)>::empty());
        assert(full =~= ranges@.map_values(|p: (usize, usize)| (p.0 as int, p.1 as int)));
        assert forall|j: int| 0 <= j < ranges@.len() implies (#[trigger] ranges@[j]).0 == full[j].0
            && ranges@[j].1 == full[j].1 by {
            assert(full[j] == ranges@.map_values(|p: (usize, usize)| (p.0 as int, p.1 as int))[j]);
        }
    }
    ranges
}

} // verus!
