//! Text primitives for the request grammar, stated over sequences of characters.

use vstd::prelude::*;
use vstd::std_specs::iter::IteratorSpec;

verus! {

broadcast use vstd::string::group_string_axioms;

/// The characters that trimming removes: the Unicode `White_Space` code points.
pub open spec fn is_space(c: char) -> bool {
    let n = c as u32;
    ||| 0x09 <= n <= 0x0d
    ||| n == 0x20
    ||| n == 0x85
    ||| n == 0xa0
    ||| n == 0x1680
    ||| 0x2000 <= n <= 0x200a
    ||| n == 0x2028
    ||| n == 0x2029
    ||| n == 0x202f
    ||| n == 0x205f
    ||| n == 0x3000
}

/// Whether `c` is a whitespace character.
pub fn is_whitespace(c: char) -> (r: bool)
    ensures
        r == is_space(c),
{
    let n: u32 = c as u32;
    (0x09 <= n && n <= 0x0d) || n == 0x20 || n == 0x85 || n == 0xa0 || n == 0x1680 || (0x2000 <= n
        && n <= 0x200a) || n == 0x2028 || n == 0x2029 || n == 0x202f || n == 0x205f || n == 0x3000
}

/// Whether two string slices hold the same characters.
pub fn same_text(a: &str, b: &str) -> (r: bool)
    ensures
        r == (a@ == b@),
{
    let mut xs = a.chars();
    let mut ys = b.chars();
    let ghost mut i: int = 0;
    loop
        invariant
            0 <= i <= a@.len(),
            i <= b@.len(),
            xs.remaining() == a@.skip(i),
            ys.remaining() == b@.skip(i),
            a@.take(i) == b@.take(i),
        decreases a@.len() - i,
    {
        let x = xs.next();
        let y = ys.next();
        match (x, y) {
            (Some(p), Some(q)) => {
                if p != q {
                    assert(a@[i] != b@[i]);
                    return false;
                }
                proof {
                    assert(a@.take(i + 1) == a@.take(i).push(a@[i]));
                    assert(b@.take(i + 1) == b@.take(i).push(b@[i]));
                    assert(a@.skip(i).drop_first() == a@.skip(i + 1));
                    assert(b@.skip(i).drop_first() == b@.skip(i + 1));
                    i = i + 1;
                }
            },
            (None, None) => {
                assert(a@.take(i) == a@);
                assert(b@.take(i) == b@);
                return true;
            },
            _ => {
                assert(a@.len() != b@.len());
                return false;
            },
        }
    }
}

/// Where `sep` first occurs in `s`, as the text before it and the text after it.
pub open spec fn cut(s: Seq<char>, sep: char) -> Option<(Seq<char>, Seq<char>)> {
    match s.index_of_first(sep) {
        Some(i) => Some((s.take(i), s.skip(i + 1))),
        None => None,
    }
}

/// `s` without the whitespace at its two ends.
pub open spec fn trimmed(s: Seq<char>) -> Seq<char>
    decreases s.len(),
{
    if s.len() > 0 && is_space(s.first()) {
        trimmed(s.drop_first())
    } else if s.len() > 0 && is_space(s.last()) {
        trimmed(s.drop_last())
    } else {
        s
    }
}

/// Whether `s` has nothing in it but whitespace.
pub open spec fn is_blank(s: Seq<char>) -> bool {
    forall|i: int| 0 <= i < s.len() ==> is_space(#[trigger] s[i])
}

/// A character takes at least one byte, so a text has no more characters than bytes.
proof fn lemma_chars_within_bytes(chars: Seq<char>)
    ensures
        chars.len() <= vstd::utf8::encode_utf8(chars).len(),
    decreases chars.len(),
{
    if chars.len() > 0 {
        lemma_chars_within_bytes(chars.drop_first());
    }
}

/// The range `[a, b)` is what trimming keeps, when everything outside it is
/// whitespace and its two ends, if it has any, are not.
pub proof fn lemma_trimmed_is_range(s: Seq<char>, a: int, b: int)
    requires
        0 <= a <= b <= s.len(),
        forall|j: int| 0 <= j < a ==> is_space(#[trigger] s[j]),
        forall|j: int| b <= j < s.len() ==> is_space(#[trigger] s[j]),
        a < b ==> !is_space(s[a]) && !is_space(s[b - 1]),
    ensures
        trimmed(s) == s.subrange(a, b),
    decreases s.len(),
{
    if s.len() == 0 {
        assert(s.subrange(a, b) == s);
    } else if is_space(s.first()) {
        let rest = s.drop_first();
        if a == 0 {
            assert(a == b);
            assert forall|j: int| 0 <= j < rest.len() implies is_space(#[trigger] rest[j]) by {
                assert(rest[j] == s[j + 1]);
            }
            lemma_trimmed_is_range(rest, 0, 0);
            assert(rest.subrange(0, 0) == s.subrange(a, b));
        } else {
            assert forall|j: int| 0 <= j < a - 1 implies is_space(#[trigger] rest[j]) by {
                assert(rest[j] == s[j + 1]);
            }
            assert forall|j: int| b - 1 <= j < rest.len() implies is_space(#[trigger] rest[j]) by {
                assert(rest[j] == s[j + 1]);
            }
            if a < b {
                assert(rest[a - 1] == s[a]);
                assert(rest[b - 2] == s[b - 1]);
            }
            lemma_trimmed_is_range(rest, a - 1, b - 1);
            assert(rest.subrange(a - 1, b - 1) == s.subrange(a, b));
        }
    } else if is_space(s.last()) {
        let rest = s.drop_last();
        assert(a == 0) by {
            if a > 0 {
                assert(is_space(s[0]));
            }
        }
        assert(b < s.len());
        assert forall|j: int| b <= j < rest.len() implies is_space(#[trigger] rest[j]) by {
            assert(rest[j] == s[j]);
        }
        if a < b {
            assert(rest[a] == s[a]);
            assert(rest[b - 1] == s[b - 1]);
        }
        lemma_trimmed_is_range(rest, a, b);
        assert(rest.subrange(a, b) == s.subrange(a, b));
    } else {
        assert(a == 0) by {
            if a > 0 {
                assert(is_space(s[0]));
            }
        }
        assert(b == s.len()) by {
            if b < s.len() {
                assert(is_space(s[s.len() - 1]));
            }
        }
        assert(s.subrange(a, b) == s);
    }
}

/// What trimming keeps is a part of the text, with nothing but whitespace
/// before and after it, that neither starts nor ends with whitespace. The
/// two ends of that part are returned.
pub proof fn lemma_trimmed_is_the_core(s: Seq<char>) -> (ends: (int, int))
    ensures
        0 <= ends.0 <= ends.1 <= s.len(),
        s.subrange(ends.0, ends.1) == trimmed(s),
        is_blank(s.take(ends.0)),
        is_blank(s.skip(ends.1)),
        trimmed(s).len() > 0 ==> !is_space(trimmed(s).first()) && !is_space(trimmed(s).last()),
    decreases s.len(),
{
    if s.len() > 0 && is_space(s.first()) {
        let rest = s.drop_first();
        let (a, b) = lemma_trimmed_is_the_core(rest);
        assert(s.subrange(a + 1, b + 1) == rest.subrange(a, b));
        assert forall|i: int| 0 <= i < a + 1 implies is_space(#[trigger] s.take(a + 1)[i]) by {
            if i > 0 {
                assert(s.take(a + 1)[i] == rest.take(a)[i - 1]);
            }
        }
        assert(s.skip(b + 1) == rest.skip(b));
        (a + 1, b + 1)
    } else if s.len() > 0 && is_space(s.last()) {
        let rest = s.drop_last();
        let (a, b) = lemma_trimmed_is_the_core(rest);
        assert(s.subrange(a, b) == rest.subrange(a, b));
        assert(s.take(a) == rest.take(a));
        assert forall|i: int| 0 <= i < s.len() - b implies is_space(#[trigger] s.skip(b)[i]) by {
            if i < rest.len() - b {
                assert(s.skip(b)[i] == rest.skip(b)[i]);
            }
        }
        (a, b)
    } else {
        assert(s.subrange(0, s.len() as int) == s);
        (0, s.len() as int)
    }
}

/// Trimming a trimmed text changes nothing.
pub proof fn lemma_trimmed_twice(s: Seq<char>)
    ensures
        trimmed(trimmed(s)) == trimmed(s),
{
    let _ = lemma_trimmed_is_the_core(s);
}

/// The position of the first `c` in `s`, counted in characters.
pub fn find(s: &str, c: char) -> (r: Option<usize>)
    ensures
        match r {
            Some(i) => s@.index_of_first(c) == Some(i as int),
            None => s@.index_of_first(c) is None,
        },
{
    let bytes = s.as_bytes().len();
    proof {
        lemma_chars_within_bytes(s@);
    }
    let mut chars = s.chars();
    let mut i: usize = 0;
    loop
        invariant
            i <= s@.len() <= bytes,
            chars.remaining() == s@.skip(i as int),
            forall|j: int| 0 <= j < i ==> s@[j] != c,
        decreases s@.len() - i,
    {
        match chars.next() {
            Some(x) => {
                assert(x == s@[i as int]);
                if x == c {
                    proof {
                        s@.index_of_first_ensures(c);
                    }
                    return Some(i);
                }
                assert(s@.skip(i as int).drop_first() == s@.skip(i + 1));
                i = i + 1;
            },
            None => {
                proof {
                    assert(s@.skip(i as int).len() == 0);
                    s@.index_of_first_ensures(c);
                }
                return None;
            },
        }
    }
}

/// Splits `s` at the first `sep`, which goes to neither part.
pub fn split_once(s: &str, sep: char) -> (r: Option<(&str, &str)>)
    ensures
        match r {
            Some((head, tail)) => cut(s@, sep) == Some((head@, tail@)),
            None => cut(s@, sep) is None,
        },
{
    match find(s, sep) {
        Some(i) => {
            proof {
                s@.index_of_first_ensures(sep);
            }
            let n = s.unicode_len();
            let head = s.substring_char(0, i);
            let tail = s.substring_char(i + 1, n);
            Some((head, tail))
        },
        None => None,
    }
}

/// `s` without the whitespace at its two ends.
pub fn trim(s: &str) -> (r: &str)
    ensures
        r@ == trimmed(s@),
{
    let bytes = s.as_bytes().len();
    proof {
        lemma_chars_within_bytes(s@);
    }
    let mut chars = s.chars();
    let mut i: usize = 0;
    let mut start: usize = 0;
    let mut end: usize = 0;
    loop
        invariant_except_break
            chars.remaining() == s@.skip(i as int),
        invariant
            i <= s@.len() <= bytes,
            start <= end <= i,
            forall|j: int| 0 <= j < start ==> is_space(#[trigger] s@[j]),
            forall|j: int| end <= j < i ==> is_space(#[trigger] s@[j]),
            start < end ==> !is_space(s@[start as int]) && !is_space(s@[end - 1]),
            start == end ==> start == i,
        ensures
            i == s@.len(),
        decreases s@.len() - i,
    {
        match chars.next() {
            Some(x) => {
                assert(x == s@[i as int]);
                assert(s@.skip(i as int).drop_first() == s@.skip(i + 1));
                if is_whitespace(x) {
                    if start == end {
                        start = i + 1;
                        end = i + 1;
                    }
                } else {
                    if start == end {
                        start = i;
                    }
                    end = i + 1;
                }
                i = i + 1;
            },
            None => {
                break ;
            },
        }
    }
    proof {
        lemma_trimmed_is_range(s@, start as int, end as int);
    }
    s.substring_char(start, end)
}

} // verus!
