//! Characters and character sequences: white space, trimming, and the
//! scanning loops that the line classifier and the line splitter share.

use vstd::prelude::*;

verus! {

/// Whether `c` carries the Unicode `White_Space` property.
pub open spec fn is_whitespace(c: char) -> bool {
    let n = c as u32;
    ||| 0x09 <= n <= 0x0d
    ||| n == 0x20
    ||| n == 0x85
    ||| n == 0xa0
    ||| n == 0x1680
    ||| 0x2000 <= n <= 0x200a
    ||| n == 0x2028
    ||| n == 0x2029
    ||| n == 0x202f
    ||| n == 0x205f
    ||| n == 0x3000
}

/// `s` without its longest prefix of white space.
pub open spec fn trim_start(s: Seq<char>) -> Seq<char>
    decreases s.len(),
{
    if s.len() > 0 && is_whitespace(s.first()) {
        trim_start(s.drop_first())
    } else {
        s
    }
}

/// `s` without its longest suffix of white space.
pub open spec fn trim_end(s: Seq<char>) -> Seq<char>
    decreases s.len(),
{
    if s.len() > 0 && is_whitespace(s.last()) {
        trim_end(s.drop_last())
    } else {
        s
    }
}

/// `s` without leading and trailing white space.
pub open spec fn trim(s: Seq<char>) -> Seq<char> {
    trim_end(trim_start(s))
}

/// Skipping `k` white-space characters that are followed by the end of `s` or
/// by a character that is no white space is trimming the start.
pub proof fn lemma_trim_start_is_skip(s: Seq<char>, k: int)
    requires
        0 <= k <= s.len(),
        forall|i: int| 0 <= i < k ==> is_whitespace(#[trigger] s[i]),
        k < s.len() ==> !is_whitespace(s[k]),
    ensures
        trim_start(s) == s.skip(k),
    decreases k,
{
    if k == 0 {
        assert(s.skip(0) =~= s);
    } else {
        let rest = s.drop_first();
        assert forall|i: int| 0 <= i < k - 1 implies is_whitespace(#[trigger] rest[i]) by {
            assert(rest[i] == s[i + 1]);
        }
        lemma_trim_start_is_skip(rest, k - 1);
        assert(rest.skip(k - 1) =~= s.skip(k));
    }
}

/// Keeping the first `k` characters, where only white space follows them and
/// the last of them, if any, is no white space, is trimming the end.
pub proof fn lemma_trim_end_is_take(s: Seq<char>, k: int)
    requires
        0 <= k <= s.len(),
        forall|i: int| k <= i < s.len() ==> is_whitespace(#[trigger] s[i]),
        0 < k ==> !is_whitespace(s[k - 1]),
    ensures
        trim_end(s) == s.take(k),
    decreases s.len() - k,
{
    if k == s.len() {
        assert(s.take(k) =~= s);
    } else {
        let rest = s.drop_last();
        lemma_trim_end_is_take(rest, k);
        assert(rest.take(k) =~= s.take(k));
    }
}

/// Whether `c` is white space.
pub fn is_whitespace_char(c: char) -> (b: bool)
    ensures
        b == is_whitespace(c),
{
    let n: u32 = c as u32;
    (0x09 <= n && n <= 0x0d) || n == 0x20 || n == 0x85 || n == 0xa0 || n == 0x1680 || (0x2000 <= n
        && n <= 0x200a) || n == 0x2028 || n == 0x2029 || n == 0x202f || n == 0x205f || n == 0x3000
}

/// The characters of `s`, in order.
pub fn collect_chars(s: &str) -> (chars: Vec<char>)
    ensures
        chars@ == s@,
{
    let mut chars: Vec<char> = Vec::new();
    for c in it: s.chars()
        invariant
            chars@ == it.seq().take(it.index() as int),
    {
        chars.push(c);
    }
    chars
}

/// The first index in `from..to` whose character is no white space, or `to`.
pub(crate) fn skip_whitespace(chars: &Vec<char>, from: usize, to: usize) -> (k: usize)
    requires
        from <= to <= chars.len(),
    ensures
        from <= k <= to,
        forall|i: int| from <= i < k ==> is_whitespace(#[trigger] chars[i]),
        k < to ==> !is_whitespace(chars[k as int]),
        trim_start(chars@.subrange(from as int, to as int)) == chars@.subrange(k as int, to as int),
{
    let mut k: usize = from;
    while k < to && is_whitespace_char(chars[k])
        invariant
            from <= k <= to <= chars.len(),
            forall|i: int| from <= i < k ==> is_whitespace(#[trigger] chars[i]),
        decreases to - k,
    {
        k += 1;
    }
    proof {
        let part = chars@.subrange(from as int, to as int);
        lemma_trim_start_is_skip(part, k - from);
        assert(part.skip(k - from) =~= chars@.subrange(k as int, to as int));
    }
    k
}

/// The end of the part of `from..to` that is left when the white space at
/// its end is dropped.
pub(crate) fn skip_whitespace_back(chars: &Vec<char>, from: usize, to: usize) -> (k: usize)
    requires
        from <= to <= chars.len(),
    ensures
        from <= k <= to,
        forall|i: int| k <= i < to ==> is_whitespace(#[trigger] chars[i]),
        from < k ==> !is_whitespace(chars[k - 1]),
        trim_end(chars@.subrange(from as int, to as int)) == chars@.subrange(from as int, k as int),
{
    let mut k: usize = to;
    while from < k && is_whitespace_char(chars[k - 1])
        invariant
            from <= k <= to <= chars.len(),
            forall|i: int| k <= i < to ==> is_whitespace(#[trigger] chars[i]),
        decreases k,
    {
        k -= 1;
    }
    proof {
        let part = chars@.subrange(from as int, to as int);
        lemma_trim_end_is_take(part, k - from);
        assert(part.take(k - from) =~= chars@.subrange(from as int, k as int));
    }
    k
}

/// The first index in `from..to` that holds `needle`, if there is one.
pub(crate) fn find_char(chars: &Vec<char>, from: usize, to: usize, needle: char) -> (found: Option<usize>)
    requires
        from <= to <= chars.len(),
    ensures
        match found {
            Some(k) => {
                &&& from <= k < to
                &&& chars[k as int] == needle
                &&& chars@.subrange(from as int, to as int).index_of_first(needle) == Some(
                    k - from,
                )
            },
            None => chars@.subrange(from as int, to as int).index_of_first(needle) is None,
        },
{
    let mut k: usize = from;
    while k < to && chars[k] != needle
        invariant
            from <= k <= to <= chars.len(),
            forall|i: int| from <= i < k ==> #[trigger] chars[i] != needle,
        decreases to - k,
    {
        k += 1;
    }
    proof {
        let part = chars@.subrange(from as int, to as int);
        part.index_of_first_ensures(needle);
        if k < to {
            assert(part[k - from] == needle);
        }
    }
    if k < to {
        Some(k)
    } else {
        None
    }
}

} // verus!
