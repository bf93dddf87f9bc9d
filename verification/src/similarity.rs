//! Edit-distance and set-overlap measures between code fragments.

use vstd::prelude::*;

use vstd::string::*;
use vstd::utf8::*;

use crate::text::chars_of;
use crate::token::{join_with_spaces, nonempty_normalized, normalized_text, Token, TokenSequence};

verus! {

pub open spec fn min3(x: int, y: int, z: int) -> int {
    if x <= y && x <= z {
        x
    } else if y <= z {
        y
    } else {
        z
    }
}

/// The Levenshtein distance between two character sequences: the least
/// number of single-character insertions, deletions and substitutions that
/// turn `a` into `b`.
pub open spec fn levenshtein(a: Seq<char>, b: Seq<char>) -> nat
    decreases a.len() + b.len(),
{
    if a.len() == 0 {
        b.len()
    } else if b.len() == 0 {
        a.len()
    } else {
        let cost: int = if a.last() == b.last() {
            0
        } else {
            1
        };
        min3(
            levenshtein(a.drop_last(), b) + 1int,
            levenshtein(a, b.drop_last()) + 1int,
            levenshtein(a.drop_last(), b.drop_last()) + cost,
        ) as nat
    }
}

/// The distance never exceeds the longer of the two lengths.
pub proof fn lemma_levenshtein_bound(a: Seq<char>, b: Seq<char>)
    ensures
        levenshtein(a, b) <= if a.len() >= b.len() {
            a.len()
        } else {
            b.len()
        },
    decreases a.len() + b.len(),
{
    if a.len() > 0 && b.len() > 0 {
        lemma_levenshtein_bound(a.drop_last(), b.drop_last());
    }
}

/// The distance between two strings is zero exactly when they are equal.
pub proof fn lemma_levenshtein_zero(a: Seq<char>, b: Seq<char>)
    ensures
        (levenshtein(a, b) == 0) <==> (a == b),
    decreases a.len() + b.len(),
{
    if a.len() > 0 && b.len() > 0 {
        lemma_levenshtein_zero(a.drop_last(), b.drop_last());
        if a == b {
            assert(a.drop_last() == b.drop_last());
        } else if levenshtein(a, b) == 0 {
            assert(levenshtein(a.drop_last(), b.drop_last()) == 0);
            assert(a.last() == b.last());
            assert(a.drop_last() == b.drop_last());
            assert(a =~= a.drop_last().push(a.last()));
            assert(b =~= b.drop_last().push(b.last()));
        }
    } else if a.len() == 0 && b.len() == 0 {
        assert(a =~= b);
    }
}

/// The distance is symmetric.
pub proof fn lemma_levenshtein_symmetric(a: Seq<char>, b: Seq<char>)
    ensures
        levenshtein(a, b) == levenshtein(b, a),
    decreases a.len() + b.len(),
{
    if a.len() > 0 && b.len() > 0 {
        lemma_levenshtein_symmetric(a.drop_last(), b);
        lemma_levenshtein_symmetric(a, b.drop_last());
        lemma_levenshtein_symmetric(a.drop_last(), b.drop_last());
    }
}

/// Calculate the Levenshtein distance between two strings, counted in
/// characters.
pub fn levenshtein_distance(s1: &str, s2: &str) -> (d: usize)
    requires
        s1@.len() < usize::MAX,
        s2@.len() < usize::MAX,
    ensures
        d == levenshtein(s1@, s2@),
{
    let s1_chars = chars_of(s1);
    let s2_chars = chars_of(s2);
    let len1 = s1_chars.len();
    let len2 = s2_chars.len();
    let ghost a = s1@;
    let ghost b = s2@;

    // First row: distances from the empty prefix of s1.
    let mut first_row: Vec<usize> = Vec::with_capacity(len2 + 1);
    let mut j: usize = 0;
    while j <= len2
        invariant
            j <= len2 + 1,
            len2 == b.len(),
            len2 < usize::MAX,
            first_row.len() == j,
            forall|k: int| 0 <= k < j ==> first_row@[k] == levenshtein(a.take(0), b.take(k)),
        decreases len2 + 1 - j,
    {
        proof {
            assert(a.take(0).len() == 0);
        }
        first_row.push(j);
        j = j + 1;
    }
    let mut matrix: Vec<Vec<usize>> = Vec::new();
    matrix.push(first_row);

    let mut i: usize = 1;
    while i <= len1
        invariant
            1 <= i <= len1 + 1,
            len1 == a.len(),
            len2 == b.len(),
            s1_chars@ == a,
            s2_chars@ == b,
            len1 < usize::MAX,
            len2 < usize::MAX,
            matrix.len() == i,
            forall|r: int| #![trigger matrix@[r]] 0 <= r < i ==> matrix@[r].len() == len2 + 1,
            forall|r: int, k: int|
                #![trigger matrix@[r]@[k]]
                0 <= r < i && 0 <= k <= len2 ==> matrix@[r]@[k] == levenshtein(
                    a.take(r),
                    b.take(k),
                ),
        decreases len1 + 1 - i,
    {
        let ghost ai = a.take(i as int);
        let mut row: Vec<usize> = Vec::with_capacity(len2 + 1);
        proof {
            assert(ai.len() > 0 && b.take(0).len() == 0);
        }
        row.push(i);
        let mut j: usize = 1;
        while j <= len2
            invariant
                1 <= i <= len1,
                1 <= j <= len2 + 1,
                len1 == a.len(),
                len2 == b.len(),
                s1_chars@ == a,
                s2_chars@ == b,
                len1 < usize::MAX,
                len2 < usize::MAX,
                ai == a.take(i as int),
                matrix.len() == i,
                matrix@[i - 1].len() == len2 + 1,
                forall|k: int|
                    #![trigger matrix@[i - 1]@[k]]
                    0 <= k <= len2 ==> matrix@[i - 1]@[k] == levenshtein(
                        a.take(i - 1),
                        b.take(k),
                    ),
                row.len() == j,
                forall|k: int| 0 <= k < j ==> row@[k] == levenshtein(ai, b.take(k)),
            decreases len2 + 1 - j,
        {
            let cost: usize = if s1_chars[i - 1] == s2_chars[j - 1] {
                0
            } else {
                1
            };
            let up = matrix[i - 1][j];
            let left = row[j - 1];
            let diag = matrix[i - 1][j - 1];
            proof {
                let bj = b.take(j as int);
                assert(ai.drop_last() =~= a.take(i - 1));
                assert(bj.drop_last() =~= b.take(j - 1));
                assert(ai.last() == a[i - 1]);
                assert(bj.last() == b[j - 1]);
                lemma_levenshtein_bound(a.take(i - 1), bj);
                lemma_levenshtein_bound(ai, b.take(j - 1));
                lemma_levenshtein_bound(a.take(i - 1), b.take(j - 1));
            }
            let mut best = up + 1;
            if left + 1 < best {
                best = left + 1;
            }
            if diag + cost < best {
                best = diag + cost;
            }
            proof {
                assert(best == levenshtein(ai, b.take(j as int)));
            }
            row.push(best);
            j = j + 1;
        }
        matrix.push(row);
        proof {
            assert forall|r: int, k: int|
                #![trigger matrix@[r]@[k]]
                0 <= r < i + 1 && 0 <= k <= len2 implies matrix@[r]@[k] == levenshtein(
                a.take(r),
                b.take(k),
            ) by {
                if r == i {
                    assert(matrix@[r] == row);
                }
            }
        }
        i = i + 1;
    }
    proof {
        assert(a.take(len1 as int) =~= a);
        assert(b.take(len2 as int) =~= b);
    }
    matrix[len1][len2]
}

/// The texts of a list of strings.
pub open spec fn texts(v: Seq<String>) -> Seq<Seq<char>> {
    Seq::new(v.len(), |i: int| v[i]@)
}

/// The normalized texts (identifiers as placeholders) of the tokens.
pub open spec fn normalized_texts(tokens: Seq<Token>) -> Seq<Seq<char>> {
    Seq::new(tokens.len(), |i: int| normalized_text(tokens[i], true))
}

/// The set of normalized texts (identifiers as placeholders) of a sequence.
pub open spec fn normalized_set(s: TokenSequence) -> Set<Seq<char>> {
    normalized_texts(s.tokens@).to_set()
}

/// The set of a sequence with one more element.
proof fn lemma_push_to_set<A>(s: Seq<A>, x: A)
    ensures
        s.push(x).to_set() =~= s.to_set().insert(x),
{
    assert forall|y: A| s.push(x).contains(y) implies s.to_set().insert(x).contains(y) by {
        let k = choose|k: int| 0 <= k < s.push(x).len() && s.push(x)[k] == y;
        if k < s.len() {
            assert(s[k] == y);
        }
    }
    assert forall|y: A| s.to_set().insert(x).contains(y) implies s.push(x).contains(y) by {
        if y == x {
            assert(s.push(x)[s.len() as int] == x);
        } else {
            let k = choose|k: int| 0 <= k < s.len() && s[k] == y;
            assert(s.push(x)[k] == y);
        }
    }
}

/// Whether one of the strings has the given text.
fn holds_text(v: &Vec<String>, x: &String) -> (r: bool)
    ensures
        r == texts(v@).contains(x@),
{
    let mut i: usize = 0;
    while i < v.len()
        invariant
            i <= v@.len(),
            forall|j: int| 0 <= j < i ==> v@[j]@ != x@,
        decreases v@.len() - i,
    {
        if v[i].eq(x) {
            proof {
                assert(texts(v@)[i as int] == x@);
            }
            return true;
        }
        i = i + 1;
    }
    proof {
        if texts(v@).contains(x@) {
            let j = choose|j: int| 0 <= j < texts(v@).len() && texts(v@)[j] == x@;
            assert(v@[j]@ == x@);
        }
    }
    false
}

/// The distinct normalized texts of the tokens, each once.
fn distinct_texts(tokens: &Vec<Token>) -> (r: Vec<String>)
    ensures
        texts(r@).no_duplicates(),
        texts(r@).to_set() == normalized_texts(tokens@).to_set(),
        r@.len() <= tokens@.len(),
{
    let mut out: Vec<String> = Vec::new();
    let mut i: usize = 0;
    while i < tokens.len()
        invariant
            i <= tokens@.len(),
            texts(out@).no_duplicates(),
            texts(out@).to_set() == normalized_texts(tokens@).take(i as int).to_set(),
            out@.len() <= i,
        decreases tokens@.len() - i,
    {
        let t = tokens[i].normalize(true);
        let ghost prev = texts(out@);
        let ghost all = normalized_texts(tokens@);
        proof {
            assert(all.take(i as int + 1) =~= all.take(i as int).push(t@));
            lemma_push_to_set(all.take(i as int), t@);
        }
        if !holds_text(&out, &t) {
            out.push(t);
            proof {
                assert(texts(out@) =~= prev.push(out@[out@.len() - 1]@));
                lemma_push_to_set(prev, t@);
            }
        } else {
            proof {
                assert(prev.to_set().insert(t@) =~= prev.to_set());
            }
        }
        i = i + 1;
    }
    proof {
        assert(normalized_texts(tokens@).take(i as int) =~= normalized_texts(tokens@));
    }
    out
}

/// Jaccard similarity coefficient: the size of the intersection of the two
/// sets of normalized texts over the size of their union.
pub struct JaccardSimilarity;

impl JaccardSimilarity {
    /// The sizes of the intersection and of the union of the two sets of
    /// normalized texts (identifiers as placeholders). The coefficient is
    /// the first over the second, and 0 when the union is empty.
    pub fn overlap(&self, a: &TokenSequence, b: &TokenSequence) -> (r: (usize, usize))
        requires
            a.tokens@.len() + b.tokens@.len() <= usize::MAX,
        ensures
            r.0 == normalized_set(*a).intersect(normalized_set(*b)).len(),
            r.1 == normalized_set(*a).union(normalized_set(*b)).len(),
    {
        let da = distinct_texts(&a.tokens);
        let db = distinct_texts(&b.tokens);
        let ghost sa = normalized_set(*a);
        let ghost sb = normalized_set(*b);
        let ghost ta = texts(da@);
        let mut both: usize = 0;
        let ghost mut kept: Seq<Seq<char>> = Seq::empty();
        let mut i: usize = 0;
        proof {
            assert(ta.take(0).to_set() =~= Set::<Seq<char>>::empty());
            assert(kept.to_set() =~= Set::<Seq<char>>::empty());
        }
        while i < da.len()
            invariant
                i <= da@.len(),
                ta == texts(da@),
                ta.no_duplicates(),
                ta.to_set() == sa,
                texts(db@).to_set() == sb,
                both == kept.len(),
                both <= i,
                da@.len() + db@.len() <= usize::MAX,
                kept.no_duplicates(),
                kept.to_set() == ta.take(i as int).to_set().intersect(sb),
            decreases da@.len() - i,
        {
            let x = &da[i];
            proof {
                assert(ta.take(i as int + 1) =~= ta.take(i as int).push(x@));
                lemma_push_to_set(ta.take(i as int), x@);
                assert(!ta.take(i as int).contains(x@)) by {
                    if ta.take(i as int).contains(x@) {
                        let j = choose|j: int| 0 <= j < i && ta.take(i as int)[j] == x@;
                        assert(ta[j] == ta[i as int]);
                    }
                }
            }
            if holds_text(&db, x) {
                both = both + 1;
                proof {
                    let old_kept = kept;
                    kept = kept.push(x@);
                    lemma_push_to_set(old_kept, x@);
                    assert(kept.to_set() =~= ta.take(i as int + 1).to_set().intersect(sb));
                    assert forall|a: int, b: int| 0 <= a < b < kept.len() implies kept[a] != kept[b] by {
                        if b == kept.len() - 1 {
                            assert(old_kept[a] == kept[a]);
                            assert(old_kept.to_set().contains(kept[a]));
                        }
                    }
                }
            } else {
                proof {
                    assert(kept.to_set() =~= ta.take(i as int + 1).to_set().intersect(sb));
                }
            }
            i = i + 1;
        }
        proof {
            assert(ta.take(i as int) =~= ta);
            kept.unique_seq_to_set();
            ta.unique_seq_to_set();
            texts(db@).unique_seq_to_set();
            assert(ta.len() == da@.len());
            assert(texts(db@).len() == db@.len());
            vstd::set_lib::lemma_set_intersect_union_lens(sa, sb);
        }
        let union = da.len() - both + db.len();
        (both, union)
    }
}

/// The overlap of two sequences does not depend on their order, and a
/// sequence overlaps itself completely: its intersection and union with
/// itself are its own set of normalized texts.
pub proof fn lemma_overlap_symmetric_and_reflexive(a: TokenSequence, b: TokenSequence)
    ensures
        normalized_set(a).intersect(normalized_set(b)) == normalized_set(b).intersect(
            normalized_set(a),
        ),
        normalized_set(a).union(normalized_set(b)) == normalized_set(b).union(normalized_set(a)),
        normalized_set(a).intersect(normalized_set(a)) == normalized_set(a),
        normalized_set(a).union(normalized_set(a)) == normalized_set(a),
        normalized_set(a).intersect(normalized_set(b)).len() <= normalized_set(a).union(
            normalized_set(b),
        ).len(),
{
    assert(normalized_set(a).intersect(normalized_set(b)) =~= normalized_set(b).intersect(
        normalized_set(a),
    ));
    assert(normalized_set(a).union(normalized_set(b)) =~= normalized_set(b).union(
        normalized_set(a),
    ));
    assert(normalized_set(a).intersect(normalized_set(a)) =~= normalized_set(a));
    assert(normalized_set(a).union(normalized_set(a)) =~= normalized_set(a));
    let sa = normalized_set(a);
    let sb = normalized_set(b);
    assert(sa.finite()) by {
        vstd::seq_lib::seq_to_set_is_finite(normalized_texts(a.tokens@));
    }
    assert(sb.finite()) by {
        vstd::seq_lib::seq_to_set_is_finite(normalized_texts(b.tokens@));
    }
    vstd::set_lib::lemma_set_intersect_union_lens(sa, sb);
    vstd::set_lib::lemma_len_intersect(sa, sb);
    vstd::set_lib::lemma_set_union_finite_iff(sa, sb);
    vstd::set_lib::lemma_len_subset(sa.intersect(sb), sa.union(sb));
}

/// Levenshtein distance-based similarity: one less the distance between the
/// two normalized strings over the longer one's length.
pub struct LevenshteinSimilarity;

/// The normalized string of a sequence (identifiers as placeholders).
pub open spec fn normalized_string(s: TokenSequence) -> Seq<char> {
    join_with_spaces(nonempty_normalized(s.tokens@, true, s.tokens@.len() as int))
}

impl LevenshteinSimilarity {
    /// The edit distance (in characters) between the two normalized strings
    /// and the length (in bytes) of the longer one. The similarity is one
    /// less the first over the second, and 1 when the second is 0.
    pub fn distance_and_length(&self, a: &TokenSequence, b: &TokenSequence) -> (r: (usize, usize))
        requires
            normalized_string(*a).len() < usize::MAX,
            normalized_string(*b).len() < usize::MAX,
            encode_utf8(normalized_string(*a)).len() <= usize::MAX,
            encode_utf8(normalized_string(*b)).len() <= usize::MAX,
        ensures
            r.0 == levenshtein(normalized_string(*a), normalized_string(*b)),
            r.1 == if encode_utf8(normalized_string(*a)).len() >= encode_utf8(
                normalized_string(*b),
            ).len() {
                encode_utf8(normalized_string(*a)).len()
            } else {
                encode_utf8(normalized_string(*b)).len()
            },
    {
        let s1 = a.to_normalized_string(true);
        let s2 = b.to_normalized_string(true);
        let distance = levenshtein_distance(s1.as_str(), s2.as_str());
        let l1 = s1.as_str().len();
        let l2 = s2.as_str().len();
        let max_len = if l1 >= l2 {
            l1
        } else {
            l2
        };
        (distance, max_len)
    }
}

} // verus!
