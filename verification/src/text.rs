//! Text helpers over the characters and bytes of strings.

use vstd::prelude::*;
use vstd::string::*;

verus! {

/// The characters of a string, in order.
pub fn chars_of(s: &str) -> (v: Vec<char>)
    ensures
        v@ == s@,
{
    let mut v: Vec<char> = Vec::new();
    for c in iter: s.chars()
        invariant
            iter.seq() == s@,
            v.len() == iter.index(),
            v@ == s@.take(iter.index() as int),
    {
        v.push(c);
        proof {
            assert(v@ =~= s@.take(iter.index() as int + 1));
        }
    }
    assert(v@ =~= s@);
    v
}

/// Whether two character sequences are equal.
pub fn chars_eq(a: &[char], b: &[char]) -> (r: bool)
    ensures
        r == (a@ == b@),
{
    if a.len() != b.len() {
        return false;
    }
    let mut i: usize = 0;
    while i < a.len()
        invariant
            a@.len() == b@.len(),
            i <= a@.len(),
            forall|j: int| 0 <= j < i ==> a@[j] == b@[j],
        decreases a@.len() - i,
    {
        if a[i] != b[i] {
            return false;
        }
        i = i + 1;
    }
    proof {
        assert(a@ =~= b@);
    }
    true
}

/// Whether two strings are equal.
pub fn str_eq(a: &str, b: &str) -> (r: bool)
    ensures
        r == (a@ == b@),
{
    let ca = chars_of(a);
    let cb = chars_of(b);
    chars_eq(ca.as_slice(), cb.as_slice())
}

/// `needle` occurs in `hay` starting at position `i`.
pub open spec fn occurs_at(hay: Seq<char>, needle: Seq<char>, i: int) -> bool {
    0 <= i && i + needle.len() <= hay.len() && hay.subrange(i, i + needle.len()) == needle
}

/// `needle` occurs somewhere in `hay`.
pub open spec fn contains_seq(hay: Seq<char>, needle: Seq<char>) -> bool {
    exists|i: int| #[trigger] occurs_at(hay, needle, i)
}

/// Whether `needle` occurs in `hay`.
pub fn contains_chars(hay: &[char], needle: &[char]) -> (r: bool)
    ensures
        r == contains_seq(hay@, needle@),
{
    if needle.len() > hay.len() {
        proof {
            assert forall|i: int| !#[trigger] occurs_at(hay@, needle@, i) by {}
        }
        return false;
    }
    let hay_len = hay.len();
    let last = hay_len - needle.len();
    let mut i: usize = 0;
    while i <= last
        invariant
            last == hay@.len() - needle@.len(),
            needle@.len() <= hay@.len(),
            hay_len == hay@.len(),
            i <= last + 1,
            forall|j: int| 0 <= j < i ==> !#[trigger] occurs_at(hay@, needle@, j),
        decreases last + 1 - i,
    {
        let mut k: usize = 0;
        let mut same = true;
        while k < needle.len()
            invariant
                i <= last,
                last == hay@.len() - needle@.len(),
                needle@.len() <= hay@.len(),
                hay_len == hay@.len(),
                k <= needle@.len(),
                same == (forall|m: int| 0 <= m < k ==> hay@[i + m] == needle@[m]),
            decreases needle@.len() - k,
        {
            if hay[i + k] != needle[k] {
                same = false;
            }
            k = k + 1;
        }
        if same {
            proof {
                assert(hay@.subrange(i as int, i + needle@.len()) =~= needle@);
                assert(occurs_at(hay@, needle@, i as int));
            }
            return true;
        }
        proof {
            if occurs_at(hay@, needle@, i as int) {
                assert forall|m: int| 0 <= m < k implies hay@[i + m] == needle@[m] by {
                    assert(hay@.subrange(i as int, i + needle@.len())[m] == hay@[i + m]);
                }
            }
            assert(needle@.len() > 0);
        }
        i = i + 1;
    }
    proof {
        assert forall|j: int| !#[trigger] occurs_at(hay@, needle@, j) by {
            if 0 <= j < i {
            }
        }
    }
    false
}

/// Number of lines of a text, as `str::lines` counts them: each newline
/// ends a line, and a last line without a newline counts too.
pub open spec fn line_count(bytes: Seq<u8>) -> int {
    newline_count(bytes, bytes.len() as int) + if bytes.len() > 0 && bytes.last() != 10 {
        1int
    } else {
        0int
    }
}

/// Number of newline bytes among the first `n` bytes.
pub open spec fn newline_count(bytes: Seq<u8>, n: int) -> int
    decreases n,
{
    if n <= 0 {
        0
    } else {
        newline_count(bytes, n - 1) + if bytes[n - 1] == 10 {
            1int
        } else {
            0int
        }
    }
}

proof fn lemma_newline_count_bound(bytes: Seq<u8>, n: int)
    requires
        0 <= n <= bytes.len(),
    ensures
        0 <= newline_count(bytes, n) <= n,
    decreases n,
{
    if n > 0 {
        lemma_newline_count_bound(bytes, n - 1);
    }
}

/// There are never more lines than bytes.
pub proof fn lemma_line_count_bound(bytes: Seq<u8>)
    ensures
        0 <= line_count(bytes) <= bytes.len(),
{
    lemma_newline_count_bound(bytes, bytes.len() as int);
    if bytes.len() > 0 && bytes.last() != 10 {
        lemma_newline_count_bound(bytes, bytes.len() - 1);
        assert(newline_count(bytes, bytes.len() as int) == newline_count(bytes, bytes.len() - 1));
    }
}

/// Counts the lines of a text, as `str::lines().count()` does.
pub fn count_lines(s: &str) -> (r: usize)
    requires
        s.spec_bytes().len() <= usize::MAX,
    ensures
        r == line_count(s.spec_bytes()),
{
    let bytes = s.as_bytes();
    let mut count: usize = 0;
    let mut i: usize = 0;
    while i < bytes.len()
        invariant
            bytes@ == s.spec_bytes(),
            i <= bytes@.len(),
            count == newline_count(bytes@, i as int),
        decreases bytes@.len() - i,
    {
        proof {
            lemma_newline_count_bound(bytes@, i as int);
        }
        if bytes[i] == 10 {
            count = count + 1;
        }
        i = i + 1;
    }
    proof {
        lemma_line_count_bound(bytes@);
    }
    if bytes.len() > 0 && bytes[bytes.len() - 1] != 10 {
        count + 1
    } else {
        count
    }
}

/// The lower-case form of a string, as `str::to_lowercase` gives it.
pub uninterp spec fn lowercase(s: Seq<char>) -> Seq<char>;

/// Calls `str::to_lowercase`. The contract claims only that the result is
/// the named function of the string's characters.
#[verifier::external_body]
pub(crate) fn to_lowercase(s: &str) -> (r: String)
    ensures
        r@ == lowercase(s@),
{
    s.to_lowercase()
}

} // verus!
