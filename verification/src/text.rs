//! Text as a sequence of characters: substring containment and the
//! division of a text into lines.

use vstd::prelude::*;
use vstd::std_specs::iter::IteratorSpec;
use vstd::string::StringSliceAdditionalSpecFns;
use vstd::utf8::{
    encode_scalar, encode_utf8, encode_utf8_decode_utf8, encode_utf8_first_scalar,
    encode_utf8_valid_utf8, is_char_boundary, pop_first_scalar,
};

verus! {

/// `needle` stands in `hay` at offset `at`, character for character.
pub open spec fn occurs_at(needle: Seq<char>, hay: Seq<char>, at: int) -> bool {
    &&& 0 <= at
    &&& at + needle.len() <= hay.len()
    &&& hay.subrange(at, at + needle.len()) == needle
}

/// `needle` is a contiguous run of characters of `hay`. The empty sequence
/// is a substring of every sequence.
pub open spec fn is_substring(needle: Seq<char>, hay: Seq<char>) -> bool {
    exists|at: int| occurs_at(needle, hay, at)
}

/// The number of characters of `s` before its first line feed; the whole
/// length where `s` holds no line feed.
pub open spec fn first_line_len(s: Seq<char>) -> nat
    decreases s.len(),
{
    if s.len() == 0 || s[0] == '\n' {
        0
    } else {
        1 + first_line_len(s.drop_first())
    }
}

/// The lines of `s`, in order.
///
/// A line ends at a line feed, which does not belong to it, and at
/// nothing else: every other character, a carriage return too, stays in
/// its line. What follows the last line feed is a line of its own unless
/// it is empty, so a text that ends in a line feed has no empty last
/// line, and the empty text has no lines.
pub open spec fn lines_of(s: Seq<char>) -> Seq<Seq<char>>
    decreases s.len(),
{
    if s.len() == 0 {
        Seq::empty()
    } else {
        let n = first_line_len(s);
        if n >= s.len() {
            seq![s]
        } else {
            seq![s.subrange(0, n as int)] + lines_of(
                s.subrange(n as int + 1, s.len() as int),
            )
        }
    }
}

/// The character contents of a sequence of string slices.
pub open spec fn line_views(lines: Seq<&str>) -> Seq<Seq<char>> {
    lines.map_values(|line: &str| line@)
}

/// The first line of `s` ends at `k` when no line feed stands before `k`
/// and `k` is a line feed or the end of `s`.
pub proof fn lemma_first_line_len(s: Seq<char>, k: int)
    requires
        0 <= k <= s.len(),
        forall|j: int| 0 <= j < k ==> s[j] != '\n',
        k == s.len() || s[k] == '\n',
    ensures
        first_line_len(s) == k,
    decreases k,
{
    if k > 0 {
        let t = s.drop_first();
        assert forall|j: int| 0 <= j < k - 1 implies t[j] != '\n' by {
            assert(t[j] == s[j + 1]);
        }
        lemma_first_line_len(t, k - 1);
    }
}

/// The empty sequence occurs in every sequence, at offset 0.
pub proof fn lemma_empty_is_substring(hay: Seq<char>)
    ensures
        is_substring(Seq::<char>::empty(), hay),
{
    assert(hay.subrange(0, 0) =~= Seq::<char>::empty());
    assert(occurs_at(Seq::<char>::empty(), hay, 0));
}

/// The encoding of a text is the encoding of a front part followed by
/// that of the rest, and the rest starts at a character boundary.
proof fn lemma_encode_concat(a: Seq<char>, b: Seq<char>)
    ensures
        encode_utf8(a + b) == encode_utf8(a) + encode_utf8(b),
        is_char_boundary(encode_utf8(a + b), encode_utf8(a).len() as int),
    decreases a.len(),
{
    let ab = a + b;
    encode_utf8_valid_utf8(ab);
    if a.len() == 0 {
        assert(ab =~= b);
        assert(encode_utf8(a) + encode_utf8(b) =~= encode_utf8(b));
    } else {
        assert(ab[0] == a[0]);
        assert(ab.drop_first() =~= a.drop_first() + b);
        lemma_encode_concat(a.drop_first(), b);
        assert(encode_utf8(ab) =~= encode_utf8(a) + encode_utf8(b));
        encode_utf8_first_scalar(ab);
        assert(pop_first_scalar(encode_utf8(ab)) =~= encode_utf8(ab.drop_first()));
        assert(encode_scalar(a[0] as u32).len() >= 1);
    }
}

/// Divides `s` after its first `count` characters.
fn split_at_char<'a>(s: &'a str, count: usize) -> (parts: (&'a str, &'a str))
    requires
        count <= s@.len(),
    ensures
        parts.0@ == s@.take(count as int),
        parts.1@ == s@.skip(count as int),
{
    let head = s.substring_char(0, count);
    let mid: usize = head.as_bytes().len();
    proof {
        assert(head@ =~= s@.take(count as int));
        assert(s@ =~= s@.take(count as int) + s@.skip(count as int));
        lemma_encode_concat(s@.take(count as int), s@.skip(count as int));
    }
    let parts = s.split_at(mid);
    proof {
        assert(parts.0.spec_bytes() =~= encode_utf8(s@.take(count as int)));
        assert(parts.1.spec_bytes() =~= encode_utf8(s@.skip(count as int)));
        encode_utf8_decode_utf8(parts.0@);
        encode_utf8_decode_utf8(parts.1@);
        encode_utf8_decode_utf8(s@.take(count as int));
        encode_utf8_decode_utf8(s@.skip(count as int));
    }
    parts
}

/// Collects the characters of `s` into a vector.
pub fn chars_of(s: &str) -> (chars: Vec<char>)
    ensures
        chars@ == s@,
{
    let mut chars: Vec<char> = Vec::new();
    for c in it: s.chars()
        invariant
            it.seq() == s@,
            chars@ == s@.take(it.index()),
    {
        chars.push(c);
    }
    chars
}

/// Tests whether `needle` stands in `hay` at offset `at`.
fn matches_at(needle: &Vec<char>, hay: &Vec<char>, at: usize) -> (found: bool)
    requires
        at + needle@.len() <= hay@.len(),
    ensures
        found == occurs_at(needle@, hay@, at as int),
{
    let len: usize = needle.len();
    let mut j: usize = 0;
    while j < len
        invariant
            j <= len,
            len == needle@.len(),
            at + len <= hay.len(),
            forall|k: int| 0 <= k < j ==> hay@[at + k] == needle@[k],
        decreases len - j,
    {
        if hay[at + j] != needle[j] {
            proof {
                assert(hay@.subrange(at as int, at + len)[j as int] == hay@[at + j]);
            }
            return false;
        }
        j += 1;
    }
    proof {
        assert(hay@.subrange(at as int, at + len) =~= needle@);
    }
    true
}

/// Tests whether `needle` is a contiguous run of characters of `hay`.
pub fn contains_chars(hay: &Vec<char>, needle: &Vec<char>) -> (found: bool)
    ensures
        found == is_substring(needle@, hay@),
{
    if needle.len() > hay.len() {
        return false;
    }
    let last: usize = hay.len() - needle.len();
    let mut at: usize = 0;
    loop
        invariant
            at <= last,
            last + needle@.len() == hay@.len(),
            forall|k: int| 0 <= k < at ==> !occurs_at(needle@, hay@, k),
        decreases last - at,
    {
        if matches_at(needle, hay, at) {
            return true;
        }
        if at == last {
            return false;
        }
        at += 1;
    }
}

/// Tests whether `needle` is a contiguous run of characters of `haystack`.
pub fn contains(haystack: &str, needle: &str) -> (found: bool)
    ensures
        found == is_substring(needle@, haystack@),
{
    let hay = chars_of(haystack);
    let pattern = chars_of(needle);
    contains_chars(&hay, &pattern)
}

/// Divides `contents` into its lines, each a slice of `contents`.
pub fn lines<'a>(contents: &'a str) -> (out: Vec<&'a str>)
    ensures
        line_views(out@) == lines_of(contents@),
{
    let chars = chars_of(contents);
    let n: usize = chars.len();
    let mut out: Vec<&'a str> = Vec::new();
    let mut rest: &'a str = contents;
    let mut start: usize = 0;
    proof {
        assert(contents@.subrange(0, n as int) =~= contents@);
        assert(line_views(out@) =~= Seq::<Seq<char>>::empty());
    }
    while start < n
        invariant
            start <= n,
            n == chars@.len(),
            chars@ == contents@,
            rest@ == contents@.subrange(start as int, n as int),
            lines_of(contents@) =~= line_views(out@) + lines_of(rest@),
        decreases n - start,
    {
        let ghost before = line_views(out@);
        let ghost tail = rest@;
        let mut end: usize = start;
        while end < n && chars[end] != '\n'
            invariant
                start <= end <= n,
                n == chars@.len(),
                forall|j: int| start <= j < end ==> chars@[j] != '\n',
            decreases n - end,
        {
            end += 1;
        }
        proof {
            lemma_first_line_len(tail, end - start);
        }
        if end == n {
            out.push(rest);
            proof {
                assert(lines_of(tail) =~= seq![tail]);
                assert(line_views(out@) =~= before.push(tail));
            }
            return out;
        }
        let parts = split_at_char(rest, end - start + 1);
        let line = parts.0.substring_char(0, end - start);
        out.push(line);
        proof {
            assert(line@ =~= tail.subrange(0, end - start));
            assert(parts.1@ =~= tail.subrange(end - start + 1, tail.len() as int));
            assert(parts.1@ =~= contents@.subrange(end + 1, n as int));
            assert(line_views(out@) =~= before.push(line@));
        }
        rest = parts.1;
        start = end + 1;
    }
    out
}

} // verus!
