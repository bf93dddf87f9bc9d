//! Token-based clone detector.
//!
//! Every file is tokenized and its tokens normalized (identifiers and
//! literals replaced by placeholders, comments and whitespace dropped). A
//! rolling hash over every window of `min_tokens` normalized tokens finds
//! windows that occur more than once; those become clone groups.

use vstd::prelude::*;
use vstd::string::*;
use vstd::utf8::*;

use crate::hash::{token_hash, tokens_window_hash, window_hash, RollingHash};
use crate::clone::{lines_spanned, CloneGroup, CloneType};
use crate::format::{digits, to_hex};
use crate::paths::{path_lt, path_precedes, same_file, same_path};
use crate::source::SourceFile;
use crate::detector::DetectionConfig;
use crate::grouping::{group_keys, group_positions, grouped_by_hash, lists_hashes, positions_of};
use crate::token::{is_insignificant, normalized_text, Token, TokenType, TokenizationError};

verus! {

broadcast use vstd::utf8::group_utf8_lib;

/// A token after normalization, with the index of the token it came from.
#[derive(Debug, Clone)]
pub struct NormalizedToken {
    /// The normalized token string
    pub value: String,
    /// The index of the token it came from
    pub original_index: usize,
}

/// The flags of a configuration that skip tokens: whether comments are
/// ignored, and whether whitespace is.
pub open spec fn skips(config: DetectionConfig) -> (bool, bool) {
    (config.ignore_comments, config.ignore_whitespace)
}

/// A token of this type is skipped: a comment where comments are ignored,
/// whitespace where whitespace is.
pub open spec fn skipped(t: TokenType, skip: (bool, bool)) -> bool {
    (t == TokenType::Comment && skip.0) || (t == TokenType::Whitespace && skip.1)
}

/// The normalized form of a token for detection: skipped comments and
/// whitespace have none; identifiers become `$ID`, literals `$LIT`, and
/// every other token (a kept comment or whitespace too) keeps its text.
pub open spec fn detection_form(t: Token, skip: (bool, bool)) -> Option<Seq<char>> {
    if skipped(t.token_type, skip) {
        None
    } else if is_insignificant(t.token_type) {
        Some(t.value@)
    } else {
        Some(normalized_text(t, true))
    }
}

/// The normalized forms of the first `n` tokens that have one, each with the
/// index of its token.
pub open spec fn normalized_entries(tokens: Seq<Token>, n: int, skip: (bool, bool)) -> Seq<(Seq<char>, int)>
    decreases n,
{
    if n <= 0 {
        Seq::<(Seq<char>, int)>::empty()
    } else {
        let rest = normalized_entries(tokens, n - 1, skip);
        match detection_form(tokens[n - 1], skip) {
            Some(v) => rest.push((v, n - 1)),
            None => rest,
        }
    }
}

/// The entries point at tokens in increasing order, all below `n`.
pub proof fn lemma_normalized_entries_indices(tokens: Seq<Token>, n: int, skip: (bool, bool))
    ensures
        normalized_entries(tokens, n, skip).len() <= if n < 0 {
            0
        } else {
            n
        },
        forall|i: int|
            #![trigger normalized_entries(tokens, n, skip)[i]]
            0 <= i < normalized_entries(tokens, n, skip).len() ==> 0 <= normalized_entries(tokens, n, skip)[i].1
                < n,
        forall|i: int, j: int|
            #![trigger normalized_entries(tokens, n, skip)[i], normalized_entries(tokens, n, skip)[j]]
            0 <= i < j < normalized_entries(tokens, n, skip).len() ==> normalized_entries(tokens, n, skip)[i].1
                < normalized_entries(tokens, n, skip)[j].1,
    decreases n,
{
    if n > 0 {
        lemma_normalized_entries_indices(tokens, n - 1, skip);
    }
}

/// What normalization does to one token: a skipped comment or whitespace
/// has no form; an identifier becomes `$ID`, a literal `$LIT`; every other
/// token, an operator or a keyword among them, is kept with its own text.
pub proof fn lemma_detection_form_text(t: Token, skip: (bool, bool))
    ensures
        skipped(t.token_type, skip) <==> detection_form(t, skip) is None,
        t.token_type == TokenType::Identifier ==> detection_form(t, skip) == Some("$ID"@),
        t.token_type == TokenType::Literal ==> detection_form(t, skip) == Some("$LIT"@),
        t.token_type != TokenType::Identifier && t.token_type != TokenType::Literal && !skipped(
            t.token_type,
            skip,
        ) ==> detection_form(t, skip) == Some(t.value@),
{
}

/// Each normalized entry stands for an unskipped token, and its value is
/// `$ID` for an identifier, `$LIT` for a literal and the token's own text
/// for every other token; so two token runs with equal normalized values
/// agree in the text of every token that is neither an identifier nor a
/// literal.
pub proof fn lemma_normalized_entry_values(tokens: Seq<Token>, n: int, skip: (bool, bool))
    requires
        n <= tokens.len(),
    ensures
        forall|i: int|
            #![trigger normalized_entries(tokens, n, skip)[i]]
            0 <= i < normalized_entries(tokens, n, skip).len() ==> {
                let e = normalized_entries(tokens, n, skip)[i];
                let t = tokens[e.1];
                &&& 0 <= e.1 < n
                &&& !skipped(t.token_type, skip)
                &&& e.0 == (if t.token_type == TokenType::Identifier {
                    "$ID"@
                } else if t.token_type == TokenType::Literal {
                    "$LIT"@
                } else {
                    t.value@
                })
            },
        forall|k: int|
            0 <= k < n && !skipped((#[trigger] tokens[k]).token_type, skip) ==> exists|i: int|
                0 <= i < normalized_entries(tokens, n, skip).len() && (#[trigger] normalized_entries(
                    tokens,
                    n,
                    skip,
                )[i]).1 == k,
    decreases n,
{
    if n > 0 {
        lemma_normalized_entry_values(tokens, n - 1, skip);
        lemma_detection_form_text(tokens[n - 1], skip);
        let rest = normalized_entries(tokens, n - 1, skip);
        assert forall|i: int|
            #![trigger normalized_entries(tokens, n, skip)[i]]
            0 <= i < normalized_entries(tokens, n, skip).len() implies {
                let e = normalized_entries(tokens, n, skip)[i];
                let t = tokens[e.1];
                &&& 0 <= e.1 < n
                &&& !skipped(t.token_type, skip)
                &&& e.0 == (if t.token_type == TokenType::Identifier {
                    "$ID"@
                } else if t.token_type == TokenType::Literal {
                    "$LIT"@
                } else {
                    t.value@
                })
            } by {
            if i < rest.len() {
                assert(normalized_entries(tokens, n, skip)[i] == rest[i]);
            }
        }
        let cur = normalized_entries(tokens, n, skip);
        assert forall|k: int|
            0 <= k < n && !skipped((#[trigger] tokens[k]).token_type, skip) implies exists|i: int|
                0 <= i < cur.len() && (#[trigger] cur[i]).1 == k by {
            if k < n - 1 {
                let i = choose|i: int| 0 <= i < rest.len() && (#[trigger] rest[i]).1 == k;
                assert(cur[i] == rest[i]);
            } else {
                assert(cur[cur.len() - 1].1 == k);
            }
        }
    }
}

/// Normalize tokens for clone detection, keeping the index of each kept
/// token: comments and whitespace are skipped where the configuration says
/// to ignore them, and kept with their text otherwise.
pub fn normalize_tokens(tokens: &[Token], config: &DetectionConfig) -> (r: Vec<NormalizedToken>)
    ensures
        r@.len() == normalized_entries(tokens@, tokens@.len() as int, skips(*config)).len(),
        forall|i: int|
            #![trigger r@[i]]
            0 <= i < r@.len() ==> r@[i].value@ == normalized_entries(
                tokens@,
                tokens@.len() as int, skips(*config),
            )[i].0 && r@[i].original_index == normalized_entries(
                tokens@,
                tokens@.len() as int, skips(*config),
            )[i].1,
{
    let mut result: Vec<NormalizedToken> = Vec::new();
    let mut index: usize = 0;
    while index < tokens.len()
        invariant
            index <= tokens@.len(),
            result@.len() == normalized_entries(tokens@, index as int, skips(*config)).len(),
            forall|i: int|
                #![trigger result@[i]]
                0 <= i < result@.len() ==> result@[i].value@ == normalized_entries(
                    tokens@,
                    index as int, skips(*config),
                )[i].0 && result@[i].original_index == normalized_entries(
                    tokens@,
                    index as int, skips(*config),
                )[i].1,
        decreases tokens@.len() - index,
    {
        let token = &tokens[index];
        let normalized = match token.token_type {
            TokenType::Comment => if config.ignore_comments {
                None
            } else {
                Some(token.value.clone())
            },
            TokenType::Whitespace => if config.ignore_whitespace {
                None
            } else {
                Some(token.value.clone())
            },
            TokenType::Identifier => Some("$ID".to_owned()),
            TokenType::Literal => Some("$LIT".to_owned()),
            _ => Some(token.value.clone()),
        };
        if let Some(value) = normalized {
            result.push(NormalizedToken { value, original_index: index });
        }
        index = index + 1;
    }
    result
}

/// The bytes of `source` from `start` to `end`, or none when that range is
/// out of bounds, reversed, or does not fall on character boundaries.
pub open spec fn content_bytes(source: Seq<u8>, start: int, end: int) -> Seq<u8> {
    if start <= end && end <= source.len() && is_char_boundary(source, start) && is_char_boundary(
        source,
        end,
    ) {
        source.subrange(start, end)
    } else {
        Seq::<u8>::empty()
    }
}

/// A boundary of a string remains one in a prefix that reaches it.
proof fn lemma_prefix_boundary(bytes: Seq<u8>, cut: int, index: int)
    requires
        valid_utf8(bytes),
        0 <= index <= cut <= bytes.len(),
        is_char_boundary(bytes, cut),
        is_char_boundary(bytes, index),
    ensures
        valid_utf8(bytes.subrange(0, cut)),
        is_char_boundary(bytes.subrange(0, cut), index),
{
    valid_utf8_split(bytes, cut);
    let p = bytes.subrange(0, cut);
    is_char_boundary_start_end_of_seq(p);
    if index < cut {
        is_char_boundary_iff_not_is_continuation_byte(bytes, index);
        is_char_boundary_iff_not_is_continuation_byte(p, index);
    }
}

/// Extract content from source between byte offsets; empty where the range
/// is not a valid slice of the source.
pub fn extract_content(source: &str, start: usize, end: usize) -> (r: String)
    requires
        source.spec_bytes().len() <= usize::MAX,
    ensures
        encode_utf8(r@) == content_bytes(source.spec_bytes(), start as int, end as int),
{
    let ghost bytes = source.spec_bytes();
    proof {
        encode_utf8_valid_utf8(source@);
    }
    if start <= end && end <= source.len() && source.is_char_boundary(start)
        && source.is_char_boundary(end) {
        proof {
            lemma_prefix_boundary(bytes, end as int, start as int);
        }
        let (head, _) = source.split_at(end);
        proof {
            decode_utf8_encode_utf8(head.spec_bytes());
        }
        let (_, middle) = head.split_at(start);
        let r = middle.to_owned();
        proof {
            assert(middle.spec_bytes() =~= bytes.subrange(start as int, end as int));
        }
        r
    } else {
        let r = String::new();
        proof {
            assert(encode_utf8(r@) =~= Seq::<u8>::empty());
        }
        r
    }
}

/// A candidate clone location: a window of `token_count` normalized tokens.
#[derive(Debug, Clone)]
pub struct CloneCandidate {
    pub file_path: String,
    pub start_line: usize,
    pub end_line: usize,
    pub start_col: usize,
    pub end_col: usize,
    pub start_offset: usize,
    pub end_offset: usize,
    pub token_count: usize,
}

/// The rolling hash of the window of `k` normalized tokens that starts at
/// entry `w`.
pub open spec fn window_key(entries: Seq<(Seq<char>, int)>, k: nat, w: int) -> u64 {
    tokens_window_hash(entries.subrange(w, w + k).map_values(|e: (Seq<char>, int)| e.0)) as u64
}

/// The location of the window of `k` normalized tokens that starts at entry
/// `w`: from the start of its first token to the end of its last.
pub open spec fn window_candidate(
    path: String,
    tokens: Seq<Token>,
    entries: Seq<(Seq<char>, int)>,
    k: nat,
    w: int,
) -> CloneCandidate {
    let first = tokens[entries[w].1];
    let last = tokens[entries[w + k - 1].1];
    CloneCandidate {
        file_path: path,
        start_line: first.line,
        end_line: last.line,
        start_col: first.column,
        end_col: last.column,
        start_offset: first.start,
        end_offset: last.end,
        token_count: k as usize,
    }
}

/// Every window of `k` normalized tokens of one file, in order, each with
/// its rolling hash. A file with fewer than `k` normalized tokens has none.
pub open spec fn file_windows(path: String, tokens: Seq<Token>, k: nat, skip: (bool, bool)) -> Seq<
    (u64, CloneCandidate),
> {
    let entries = normalized_entries(tokens, tokens.len() as int, skip);
    if tokens.len() == 0 || entries.len() < k {
        Seq::<(u64, CloneCandidate)>::empty()
    } else {
        Seq::new(
            (entries.len() - k + 1) as nat,
            |w: int| (window_key(entries, k, w), window_candidate(path, tokens, entries, k, w)),
        )
    }
}

/// Hashes of the normalized values of a run of entries.
pub open spec fn entry_hashes(entries: Seq<(Seq<char>, int)>) -> Seq<u64> {
    entries.map_values(|e: (Seq<char>, int)| token_hash(e.0))
}

/// All windows of one file, found with a rolling hash.
fn windows_of_file(path: &String, tokens: &[Token], k: usize, config: &DetectionConfig) -> (r: Vec<
    (u64, CloneCandidate),
>)
    requires
        k > 0,
    ensures
        r@ == file_windows(*path, tokens@, k as nat, skips(*config)),
{
    let ghost skip = skips(*config);
    let ghost entries = normalized_entries(tokens@, tokens@.len() as int, skip);
    let ghost spec_windows = file_windows(*path, tokens@, k as nat, skip);
    let mut out: Vec<(u64, CloneCandidate)> = Vec::new();
    if tokens.len() == 0 {
        proof {
            assert(out@ =~= spec_windows);
        }
        return out;
    }
    let normalized = normalize_tokens(tokens, config);
    if normalized.len() < k {
        proof {
            assert(out@ =~= spec_windows);
        }
        return out;
    }
    proof {
        lemma_normalized_entries_indices(tokens@, tokens@.len() as int, skip);
    }
    let mut roller = RollingHash::new(k);
    let mut i: usize = 0;
    while i < normalized.len()
        invariant
            k > 0,
            tokens@.len() > 0,
            entries == normalized_entries(tokens@, tokens@.len() as int, skip),
            spec_windows == file_windows(*path, tokens@, k as nat, skip),
            entries.len() >= k,
            normalized@.len() == entries.len(),
            forall|j: int|
                #![trigger normalized@[j]]
                0 <= j < normalized@.len() ==> normalized@[j].value@ == entries[j].0
                    && normalized@[j].original_index == entries[j].1,
            forall|j: int|
                #![trigger entries[j]]
                0 <= j < entries.len() ==> 0 <= entries[j].1 < tokens@.len(),
            i <= normalized@.len(),
            roller.wf(),
            roller.window_size() == k,
            roller.window() == entry_hashes(
                entries.subrange(
                    if i >= k {
                        i - k
                    } else {
                        0
                    },
                    i as int,
                ),
            ),
            out@ == spec_windows.take(
                if i >= k {
                    i - k + 1
                } else {
                    0
                },
            ),
        decreases normalized@.len() - i,
    {
        let ghost lo: int = if i >= k {
            i - k
        } else {
            0
        };
        let ghost old_window = roller.window();
        let pushed = roller.push(normalized[i].value.as_str());
        proof {
            let lo2: int = if i + 1 >= k {
                i + 1 - k
            } else {
                0
            };
            let sub = entries.subrange(lo2, i + 1);
            if i < k {
                assert(entry_hashes(entries.subrange(0, i + 1)) =~= entry_hashes(
                    entries.subrange(0, i as int),
                ).push(token_hash(entries[i as int].0)));
            } else {
                assert(entry_hashes(entries.subrange(lo2, i + 1)) =~= entry_hashes(
                    entries.subrange(lo, i as int),
                ).drop_first().push(token_hash(entries[i as int].0)));
            }
            assert(roller.window() == entry_hashes(sub));
        }
        match pushed {
            Some(hash) => {
                let start = i + 1 - k;
                let first = &tokens[normalized[start].original_index];
                let last = &tokens[normalized[i].original_index];
                let candidate = CloneCandidate {
                    file_path: path.clone(),
                    start_line: first.line,
                    end_line: last.line,
                    start_col: first.column,
                    end_col: last.column,
                    start_offset: first.start,
                    end_offset: last.end,
                    token_count: k,
                };
                proof {
                    let sub = entries.subrange(start as int, i + 1);
                    assert(sub.len() == k);
                    assert(entry_hashes(sub) =~= sub.map_values(|e: (Seq<char>, int)| e.0).map_values(
                        |t: Seq<char>| token_hash(t),
                    ));
                    assert(spec_windows[start as int] == (hash, candidate));
                }
                out.push((hash, candidate));
            },
            None => {},
        }
        proof {
            assert(out@ =~= spec_windows.take(
                if i + 1 >= k {
                    i + 1 - k + 1
                } else {
                    0
                },
            ));
        }
        i = i + 1;
    }
    proof {
        assert(spec_windows.take(normalized@.len() - k + 1) =~= spec_windows);
    }
    out
}

impl CloneCandidate {
    /// A copy of this candidate with equal fields.
    pub fn duplicate(&self) -> (r: Self)
        ensures
            r == *self,
    {
        CloneCandidate {
            file_path: self.file_path.clone(),
            start_line: self.start_line,
            end_line: self.end_line,
            start_col: self.start_col,
            end_col: self.end_col,
            start_offset: self.start_offset,
            end_offset: self.end_offset,
            token_count: self.token_count,
        }
    }
}

/// The hashes of the windows, in order.
pub open spec fn window_hashes(ws: Seq<(u64, CloneCandidate)>) -> Seq<u64> {
    Seq::new(ws.len(), |i: int| ws[i].0)
}

/// The locations of the windows that have hash `h`, in order.
pub open spec fn hash_members(ws: Seq<(u64, CloneCandidate)>, h: u64) -> Seq<CloneCandidate>
    decreases ws.len(),
{
    if ws.len() == 0 {
        Seq::<CloneCandidate>::empty()
    } else {
        let m = hash_members(ws.drop_last(), h);
        if ws.last().0 == h {
            m.push(ws.last().1)
        } else {
            m
        }
    }
}

/// For each of the given hashes in turn that more than one window has: the
/// hash and the locations of its windows.
pub open spec fn repeated_groups(ws: Seq<(u64, CloneCandidate)>, keys: Seq<u64>) -> Seq<
    (u64, Seq<CloneCandidate>),
>
    decreases keys.len(),
{
    if keys.len() == 0 {
        Seq::<(u64, Seq<CloneCandidate>)>::empty()
    } else {
        let g = repeated_groups(ws, keys.drop_last());
        let m = hash_members(ws, keys.last());
        if m.len() > 1 {
            g.push((keys.last(), m))
        } else {
            g
        }
    }
}

/// The windows grouped by hash, the groups in the order of `keys` (which
/// lists every hash once), keeping only hashes that occur more than once.
pub open spec fn candidate_groups(ws: Seq<(u64, CloneCandidate)>, keys: Seq<u64>) -> Seq<
    (u64, Seq<CloneCandidate>),
> {
    repeated_groups(ws, keys)
}

/// The locations of the windows at the given positions, in order.
pub open spec fn locations_at(ws: Seq<(u64, CloneCandidate)>, positions: Seq<usize>) -> Seq<
    CloneCandidate,
> {
    Seq::new(positions.len(), |j: int| ws[positions[j] as int].1)
}

/// The windows at the positions of a hash are the windows with that hash.
proof fn lemma_locations_at_positions(ws: Seq<(u64, CloneCandidate)>, h: u64)
    requires
        ws.len() <= usize::MAX,
    ensures
        locations_at(ws, positions_of(window_hashes(ws), h)) =~= hash_members(ws, h),
        forall|j: int|
            0 <= j < positions_of(window_hashes(ws), h).len() ==> #[trigger] positions_of(
                window_hashes(ws),
                h,
            )[j] < ws.len(),
    decreases ws.len(),
{
    if ws.len() > 0 {
        let p = ws.drop_last();
        lemma_locations_at_positions(p, h);
        assert(window_hashes(ws).drop_last() =~= window_hashes(p));
        let pe = positions_of(window_hashes(ws), h);
        let pp = positions_of(window_hashes(p), h);
        assert forall|j: int| 0 <= j < pp.len() implies ws[pp[j] as int] == p[pp[j] as int] by {}
        assert(locations_at(ws, pp) =~= locations_at(p, pp));
        if ws.last().0 == h {
            assert(pe == pp.push((ws.len() - 1) as usize));
            assert(locations_at(ws, pe) =~= locations_at(ws, pp).push(ws.last().1));
        } else {
            assert(pe == pp);
        }
    }
}

/// A hash that some window has is a hash of the windows.
proof fn lemma_hash_members_occur(ws: Seq<(u64, CloneCandidate)>, h: u64)
    requires
        hash_members(ws, h).len() > 0,
    ensures
        window_hashes(ws).contains(h),
    decreases ws.len(),
{
    if ws.last().0 == h {
        assert(window_hashes(ws)[ws.len() - 1] == h);
    } else {
        lemma_hash_members_occur(ws.drop_last(), h);
        let k = choose|k: int| 0 <= k < window_hashes(ws.drop_last()).len() && window_hashes(ws.drop_last())[k] == h;
        assert(window_hashes(ws)[k] == h);
    }
}

/// Groups the windows by hash, keeping the hashes that more than one
/// window has; the groups come in the order in which the map of hashes is
/// walked.
fn group_by_hash(windows: &Vec<(u64, CloneCandidate)>) -> (r: Vec<(u64, Vec<CloneCandidate>)>)
    ensures
        exists|keys: Seq<u64>|
            lists_hashes(window_hashes(windows@), keys) && group_views(r@) == #[trigger] candidate_groups(
                windows@,
                keys,
            ),
{
    let ghost ws = windows@;
    let mut hashes: Vec<u64> = Vec::new();
    let mut i: usize = 0;
    while i < windows.len()
        invariant
            i <= ws.len(),
            ws == windows@,
            hashes@ == window_hashes(ws).take(i as int),
        decreases ws.len() - i,
    {
        hashes.push(windows[i].0);
        proof {
            assert(hashes@ =~= window_hashes(ws).take(i as int + 1));
        }
        i = i + 1;
    }
    proof {
        assert(hashes@ =~= window_hashes(ws));
    }
    let groups = group_positions(&hashes);
    proof {
        assert(ws.len() == windows.len());
    }
    let ghost views = Seq::new(groups@.len(), |t: int| (groups@[t].0, groups@[t].1@));
    let ghost keys = group_keys(views);
    let mut result: Vec<(u64, Vec<CloneCandidate>)> = Vec::new();
    let mut g: usize = 0;
    while g < groups.len()
        invariant
            g <= groups@.len(),
            ws == windows@,
            ws.len() <= usize::MAX,
            hashes@ == window_hashes(ws),
            views == Seq::new(groups@.len(), |t: int| (groups@[t].0, groups@[t].1@)),
            keys == group_keys(views),
            grouped_by_hash(hashes@, views),
            group_views(result@) == repeated_groups(ws, keys.take(g as int)),
        decreases groups@.len() - g,
    {
        let key = groups[g].0;
        let ghost positions = groups@[g as int].1@;
        proof {
            assert(views[g as int] == (key, positions));
            assert(positions == positions_of(window_hashes(ws), key));
            lemma_locations_at_positions(ws, key);
            assert(keys.take(g as int + 1).drop_last() =~= keys.take(g as int));
            assert(keys.take(g as int + 1).last() == key);
        }
        if groups[g].1.len() > 1 {
            let mut members: Vec<CloneCandidate> = Vec::new();
            let mut j: usize = 0;
            while j < groups[g].1.len()
                invariant
                    g < groups@.len(),
                    j <= positions.len(),
                    positions == groups@[g as int].1@,
                    positions == positions_of(window_hashes(ws), key),
                    ws == windows@,
                    forall|k: int| 0 <= k < positions.len() ==> #[trigger] positions[k] < ws.len(),
                    members@ == locations_at(ws, positions.take(j as int)),
                decreases positions.len() - j,
            {
                let at = groups[g].1[j];
                members.push(windows[at].1.duplicate());
                proof {
                    assert(members@ =~= locations_at(ws, positions.take(j as int + 1)));
                }
                j = j + 1;
            }
            proof {
                assert(positions.take(j as int) =~= positions);
            }
            result.push((key, members));
            proof {
                assert(group_views(result@) =~= repeated_groups(ws, keys.take(g as int)).push(
                    (key, hash_members(ws, key)),
                ));
            }
        }
        g = g + 1;
    }
    proof {
        assert(keys.take(g as int) =~= keys);
        assert(lists_hashes(window_hashes(ws), keys));
        assert(group_views(result@) == candidate_groups(ws, keys));
    }
    result
}

/// Candidate `a` sorts after candidate `b`: by file path, then by start
/// line.
pub open spec fn location_after(a: CloneCandidate, b: CloneCandidate) -> bool {
    path_lt(b.file_path@, a.file_path@) || (!path_lt(a.file_path@, b.file_path@) && a.start_line
        > b.start_line)
}

/// `x` inserted into `s` after every element that does not sort after it.
pub open spec fn insert_by_location(s: Seq<CloneCandidate>, x: CloneCandidate) -> Seq<
    CloneCandidate,
>
    decreases s.len(),
{
    if s.len() == 0 || !location_after(s.last(), x) {
        s.push(x)
    } else {
        insert_by_location(s.drop_last(), x).push(s.last())
    }
}

/// The candidates sorted by location; candidates at the same location keep
/// their order.
pub open spec fn sort_by_location(s: Seq<CloneCandidate>) -> Seq<CloneCandidate>
    decreases s.len(),
{
    if s.len() == 0 {
        s
    } else {
        insert_by_location(sort_by_location(s.drop_last()), s.last())
    }
}

proof fn lemma_insert_by_location_at(s: Seq<CloneCandidate>, x: CloneCandidate, p: int)
    requires
        0 <= p <= s.len(),
        p == 0 || !location_after(s[p - 1], x),
        forall|q: int| p <= q < s.len() ==> location_after(#[trigger] s[q], x),
    ensures
        insert_by_location(s, x) == s.insert(p, x),
    decreases s.len(),
{
    if s.len() == 0 {
        assert(s.insert(p, x) =~= s.push(x));
    } else if !location_after(s.last(), x) {
        if p < s.len() {
            assert(location_after(s[s.len() - 1], x));
        }
        assert(s.insert(p, x) =~= s.push(x));
    } else {
        if p == s.len() {
            assert(!location_after(s[p - 1], x));
        }
        let d = s.drop_last();
        assert forall|q: int| p <= q < d.len() implies location_after(#[trigger] d[q], x) by {
            assert(d[q] == s[q]);
        }
        if p > 0 {
            assert(d[p - 1] == s[p - 1]);
        }
        lemma_insert_by_location_at(d, x, p);
        assert(d.insert(p, x).push(s.last()) =~= s.insert(p, x));
    }
}

/// Sorting keeps exactly the candidates it was given.
pub proof fn lemma_sort_by_location_elements(s: Seq<CloneCandidate>)
    ensures
        sort_by_location(s).len() == s.len(),
        forall|i: int|
            0 <= i < s.len() ==> #[trigger] s.contains(sort_by_location(s)[i]),
    decreases s.len(),
{
    if s.len() > 0 {
        let d = s.drop_last();
        lemma_sort_by_location_elements(d);
        lemma_insert_by_location_elements(sort_by_location(d), s.last());
        assert forall|i: int| 0 <= i < s.len() implies #[trigger] s.contains(
            sort_by_location(s)[i],
        ) by {
            let y = sort_by_location(s)[i];
            if y != s.last() {
                assert(sort_by_location(d).contains(y));
                let k = choose|k: int| 0 <= k < sort_by_location(d).len() && sort_by_location(d)[k] == y;
                assert(d.contains(y));
                let j = choose|j: int| 0 <= j < d.len() && d[j] == y;
                assert(s[j] == y);
            } else {
                assert(s[s.len() - 1] == y);
            }
        }
    }
}

proof fn lemma_insert_by_location_elements(s: Seq<CloneCandidate>, x: CloneCandidate)
    ensures
        insert_by_location(s, x).len() == s.len() + 1,
        forall|i: int|
            0 <= i < s.len() + 1 ==> #[trigger] insert_by_location(s, x)[i] == x || s.contains(
                insert_by_location(s, x)[i],
            ),
    decreases s.len(),
{
    if s.len() > 0 && location_after(s.last(), x) {
        let d = s.drop_last();
        lemma_insert_by_location_elements(d, x);
        assert forall|i: int| 0 <= i < s.len() + 1 implies #[trigger] insert_by_location(s, x)[i]
            == x || s.contains(insert_by_location(s, x)[i]) by {
            let y = insert_by_location(s, x)[i];
            if i < s.len() {
                assert(y == insert_by_location(d, x)[i]);
                if y != x {
                    let j = choose|j: int| 0 <= j < d.len() && d[j] == y;
                    assert(s[j] == y);
                }
            } else {
                assert(s[s.len() - 1] == y);
            }
        }
    } else {
        assert forall|i: int| 0 <= i < s.len() + 1 implies #[trigger] insert_by_location(s, x)[i]
            == x || s.contains(insert_by_location(s, x)[i]) by {
            if i < s.len() {
                assert(s[i] == insert_by_location(s, x)[i]);
            }
        }
    }
}

fn location_after_exec(a: &CloneCandidate, b: &CloneCandidate) -> (r: bool)
    ensures
        r == location_after(*a, *b),
{
    if path_precedes(b.file_path.as_str(), a.file_path.as_str()) {
        true
    } else if path_precedes(a.file_path.as_str(), b.file_path.as_str()) {
        false
    } else {
        a.start_line > b.start_line
    }
}

/// Stable sort of candidates by file path, then start line.
fn sort_candidates(cands: &Vec<CloneCandidate>) -> (r: Vec<CloneCandidate>)
    ensures
        r@ == sort_by_location(cands@),
{
    let mut result: Vec<CloneCandidate> = Vec::new();
    let mut i: usize = 0;
    while i < cands.len()
        invariant
            i <= cands@.len(),
            result@ == sort_by_location(cands@.take(i as int)),
        decreases cands@.len() - i,
    {
        let x = cands[i].duplicate();
        let mut p = result.len();
        while p > 0 && location_after_exec(&result[p - 1], &x)
            invariant
                p <= result@.len(),
                forall|q: int| p <= q < result@.len() ==> location_after(#[trigger] result@[q], x),
            decreases p,
        {
            p = p - 1;
        }
        proof {
            lemma_insert_by_location_at(result@, x, p as int);
            let t = cands@.take(i as int + 1);
            assert(t.drop_last() =~= cands@.take(i as int));
            assert(t.last() == cands@[i as int]);
        }
        result.insert(p, x);
        i = i + 1;
    }
    proof {
        assert(cands@.take(i as int) =~= cands@);
    }
    result
}

/// The candidate's lines can be counted without overflow: it starts no
/// later than it ends, and the count fits in a `usize`.
pub open spec fn countable_lines(c: CloneCandidate) -> bool {
    c.start_line <= c.end_line && c.end_line - c.start_line < usize::MAX
}

/// The candidates that span at least `min_lines` lines, in order.
pub open spec fn keep_long(s: Seq<CloneCandidate>, min_lines: usize) -> Seq<CloneCandidate>
    decreases s.len(),
{
    if s.len() == 0 {
        s
    } else {
        let rest = keep_long(s.drop_last(), min_lines);
        if lines_spanned(s.last().start_line as int, s.last().end_line as int) >= min_lines {
            rest.push(s.last())
        } else {
            rest
        }
    }
}

/// The candidates that do not overlap the one kept last before them in the
/// same file, in order, where `single` holds (a window that starts inside
/// the previous kept window of its file repeats it rather than copying
/// it); all of them where it does not.
pub open spec fn apart(s: Seq<CloneCandidate>, single: bool) -> Seq<CloneCandidate>
    decreases s.len(),
{
    if s.len() == 0 {
        s
    } else {
        let rest = apart(s.drop_last(), single);
        if single && rest.len() > 0 && same_file(rest.last().file_path@, s.last().file_path@)
            && s.last().start_offset < rest.last().end_offset {
            rest
        } else {
            rest.push(s.last())
        }
    }
}

/// Index of the first file whose path equals `path`, if any.
pub open spec fn find_source(files: Seq<SourceFile>, path: Seq<char>) -> Option<int>
    decreases files.len(),
{
    if files.len() == 0 {
        None
    } else {
        match find_source(files.drop_last(), path) {
            Some(i) => Some(i),
            None => if same_file(files.last().path@, path) {
                Some(files.len() - 1)
            } else {
                None
            },
        }
    }
}

proof fn lemma_find_source_range(files: Seq<SourceFile>, path: Seq<char>)
    ensures
        find_source(files, path) matches Some(i) ==> 0 <= i < files.len() && same_file(
            files[i].path@,
            path,
        ),
        find_source(files, path) is None ==> forall|i: int|
            0 <= i < files.len() ==> !same_file(#[trigger] files[i].path@, path),
    decreases files.len(),
{
    if files.len() > 0 {
        lemma_find_source_range(files.drop_last(), path);
        if find_source(files.drop_last(), path) is None {
            assert forall|i: int| 0 <= i < files.len() - 1 implies !same_file(
                #[trigger] files[i].path@,
                path,
            ) by {
                assert(files.drop_last()[i] == files[i]);
            }
        } else {
            let i = find_source(files.drop_last(), path).unwrap();
            assert(files.drop_last()[i] == files[i]);
        }
    }
}

/// The candidates that lie in one of the files, in order.
pub open spec fn located(files: Seq<SourceFile>, s: Seq<CloneCandidate>) -> Seq<CloneCandidate>
    decreases s.len(),
{
    if s.len() == 0 {
        s
    } else {
        let rest = located(files, s.drop_last());
        if find_source(files, s.last().file_path@) is Some {
            rest.push(s.last())
        } else {
            rest
        }
    }
}

/// All the candidates lie in the file of the first one.
pub open spec fn one_file(s: Seq<CloneCandidate>) -> bool {
    forall|q: int| 0 <= q < s.len() ==> same_file(s[0].file_path@, (#[trigger] s[q]).file_path@)
}

/// The instances a group of candidates keeps: sorted by location, long
/// enough, in one of the files, and, where all of them lie in one file,
/// apart from each other.
pub open spec fn group_instances(
    files: Seq<SourceFile>,
    cands: Seq<CloneCandidate>,
    min_lines: usize,
) -> Seq<CloneCandidate> {
    let kept = keep_long(sort_by_location(cands), min_lines);
    located(files, apart(kept, one_file(kept)))
}

/// Whether the candidates long enough to keep all lie in one file.
fn kept_in_one_file(sorted: &Vec<CloneCandidate>, min_lines: usize) -> (b: bool)
    requires
        forall|q: int| 0 <= q < sorted@.len() ==> countable_lines(#[trigger] sorted@[q]),
    ensures
        b == one_file(keep_long(sorted@, min_lines)),
{
    let mut first: Option<usize> = None;
    let mut single = true;
    let mut i: usize = 0;
    while i < sorted.len()
        invariant
            i <= sorted@.len(),
            forall|q: int| 0 <= q < sorted@.len() ==> countable_lines(#[trigger] sorted@[q]),
            match first {
                Some(j) => j < i && keep_long(sorted@.take(i as int), min_lines).len() > 0
                    && sorted@[j as int] == keep_long(sorted@.take(i as int), min_lines)[0],
                None => keep_long(sorted@.take(i as int), min_lines).len() == 0,
            },
            single == one_file(keep_long(sorted@.take(i as int), min_lines)),
        decreases sorted@.len() - i,
    {
        let ghost before = sorted@.take(i as int);
        let ghost after = sorted@.take(i as int + 1);
        let ghost kb = keep_long(before, min_lines);
        proof {
            assert(after.drop_last() =~= before);
            assert(after.last() == sorted@[i as int]);
            assert(countable_lines(sorted@[i as int]));
        }
        let c = &sorted[i];
        if c.end_line - c.start_line + 1 >= min_lines {
            let ghost ka = kb.push(*c);
            proof {
                assert(keep_long(after, min_lines) == ka);
            }
            match first {
                Some(j) => {
                    let same = same_path(sorted[j].file_path.as_str(), c.file_path.as_str());
                    proof {
                        assert(ka[0] == kb[0]);
                        assert forall|q: int| 0 <= q < kb.len() implies ka[q] == kb[q] by {}
                        if single {
                            assert(one_file(kb));
                        }
                        if !one_file(kb) {
                            let q = choose|q: int| 0 <= q < kb.len() && !same_file(kb[0].file_path@, #[trigger] kb[q].file_path@);
                            assert(ka[q] == kb[q]);
                        }
                        if !same {
                            assert(!same_file(ka[0].file_path@, ka[kb.len() as int].file_path@));
                        }
                    }
                    if !same {
                        single = false;
                    }
                },
                None => {
                    first = Some(i);
                    proof {
                        assert(ka.len() == 1);
                        assert(ka[0] == *c);
                    }
                },
            }
        } else {
            proof {
                assert(keep_long(after, min_lines) == kb);
            }
        }
        i = i + 1;
    }
    proof {
        assert(sorted@.take(i as int) =~= sorted@);
    }
    single
}

/// The groups that keep at least two instances, in order, each with its
/// hash and instances.
pub open spec fn extended_groups(
    files: Seq<SourceFile>,
    groups: Seq<(u64, Seq<CloneCandidate>)>,
    min_lines: usize,
) -> Seq<(u64, Seq<CloneCandidate>)>
    decreases groups.len(),
{
    if groups.len() == 0 {
        Seq::<(u64, Seq<CloneCandidate>)>::empty()
    } else {
        let rest = extended_groups(files, groups.drop_last(), min_lines);
        let inst = group_instances(files, groups.last().1, min_lines);
        if inst.len() >= 2 {
            rest.push((groups.last().0, inst))
        } else {
            rest
        }
    }
}

/// Where `hide` holds, the first `n` tokens of a file cut the comments
/// that lie in the window `start..end` out of its text: the position the
/// text has been shown up to, and the text shown before it.
pub open spec fn shown_prefix(
    bytes: Seq<u8>,
    toks: Seq<Token>,
    hide: bool,
    start: int,
    end: int,
    n: int,
) -> (int, Seq<char>)
    decreases n,
{
    if n <= 0 {
        (start, Seq::empty())
    } else {
        let (cursor, text) = shown_prefix(bytes, toks, hide, start, end, n - 1);
        let t = toks[n - 1];
        if hide && t.token_type == TokenType::Comment && cursor <= t.start && t.start <= t.end
            && t.end <= end {
            (t.end as int, text + decode_utf8(content_bytes(bytes, cursor, t.start as int)))
        } else {
            (cursor, text)
        }
    }
}

/// The text a window shows: the text between `start` and `end`, with the
/// text of each comment token inside the window left out where `hide`
/// holds (so a docstring the detection skipped is not displayed either).
pub open spec fn shown_text(bytes: Seq<u8>, toks: Seq<Token>, hide: bool, start: int, end: int) -> Seq<char> {
    let (cursor, text) = shown_prefix(bytes, toks, hide, start, end, toks.len() as int);
    text + decode_utf8(content_bytes(bytes, cursor, end))
}

/// The text the candidate shows of the file it lies in, given the tokens
/// of each file.
pub open spec fn candidate_content(
    files: Seq<SourceFile>,
    tokens: Seq<Seq<Token>>,
    hide: bool,
    c: CloneCandidate,
) -> Seq<char> {
    let i = find_source(files, c.file_path@).unwrap();
    shown_text(encode_utf8(files[i].content@), tokens[i], hide, c.start_offset as int, c.end_offset as int)
}

/// A clone reports the candidate's location and the text it shows.
pub open spec fn clone_of(
    files: Seq<SourceFile>,
    tokens: Seq<Seq<Token>>,
    hide: bool,
    cl: crate::clone::Clone,
    c: CloneCandidate,
) -> bool {
    &&& cl.file == c.file_path
    &&& cl.start_line == c.start_line
    &&& cl.end_line == c.end_line
    &&& cl.start_col == c.start_col
    &&& cl.end_col == c.end_col
    &&& cl.content@ == candidate_content(files, tokens, hide, c)
}

/// A group reports a hash and its instances: an exact (Type-1) clone group
/// whose signature is the hash in hexadecimal.
pub open spec fn group_of(
    files: Seq<SourceFile>,
    tokens: Seq<Seq<Token>>,
    hide: bool,
    g: CloneGroup,
    e: (u64, Seq<CloneCandidate>),
) -> bool {
    &&& g.clone_type == CloneType::Type1
    &&& g.signature@ == digits(e.0 as nat, 16)
    &&& g.instances@.len() == e.1.len()
    &&& forall|q: int|
        #![trigger g.instances@[q]]
        0 <= q < e.1.len() ==> clone_of(files, tokens, hide, g.instances@[q], e.1[q])
}

proof fn lemma_kept_prefix(bytes: Seq<u8>, toks: Seq<Token>, start: int, end: int, n: int)
    ensures
        shown_prefix(bytes, toks, false, start, end, n) == (start, Seq::<char>::empty()),
    decreases n,
{
    if n > 0 {
        lemma_kept_prefix(bytes, toks, start, end, n - 1);
    }
}

/// Where comments are not hidden, a window shows exactly the text between
/// its offsets.
pub proof fn lemma_shown_text_unhidden(bytes: Seq<u8>, toks: Seq<Token>, start: int, end: int)
    ensures
        shown_text(bytes, toks, false, start, end) == decode_utf8(content_bytes(bytes, start, end)),
{
    lemma_kept_prefix(bytes, toks, start, end, toks.len() as int);
    assert(Seq::<char>::empty() + decode_utf8(content_bytes(bytes, start, end)) =~= decode_utf8(
        content_bytes(bytes, start, end),
    ));
}

/// The text a window of `source` shows: the text between `start` and
/// `end`, without the text of the comment tokens inside it where `hide`
/// holds.
pub fn shown_content(source: &str, tokens: &Vec<Token>, hide: bool, start: usize, end: usize) -> (r: String)
    requires
        source.spec_bytes().len() <= usize::MAX,
    ensures
        r@ == shown_text(source.spec_bytes(), tokens@, hide, start as int, end as int),
{
    let ghost bytes = source.spec_bytes();
    let mut text = String::new();
    let mut cursor: usize = start;
    let mut i: usize = 0;
    while i < tokens.len()
        invariant
            i <= tokens@.len(),
            bytes == source.spec_bytes(),
            bytes.len() <= usize::MAX,
            (cursor as int, text@) == shown_prefix(bytes, tokens@, hide, start as int, end as int, i as int),
        decreases tokens@.len() - i,
    {
        let t = &tokens[i];
        let is_comment = match t.token_type {
            TokenType::Comment => true,
            _ => false,
        };
        if hide && is_comment && cursor <= t.start && t.start <= t.end && t.end <= end {
            let piece = extract_content(source, cursor, t.start);
            proof {
                encode_utf8_decode_utf8(piece@);
            }
            text.append(piece.as_str());
            cursor = t.end;
        }
        i = i + 1;
    }
    let last = extract_content(source, cursor, end);
    proof {
        encode_utf8_decode_utf8(last@);
    }
    text.append(last.as_str());
    text
}

/// Every file's text fits the address space (a machine limit).
pub open spec fn texts_fit(files: Seq<SourceFile>) -> bool {
    forall|i: int| 0 <= i < files.len() ==> encode_utf8(#[trigger] files[i].content@).len()
        <= usize::MAX
}

/// Every candidate of every group has countable lines.
pub open spec fn groups_countable(groups: Seq<(u64, Seq<CloneCandidate>)>) -> bool {
    forall|t: int, q: int|
        0 <= t < groups.len() && 0 <= q < groups[t].1.len() ==> countable_lines(
            #[trigger] groups[t].1[q],
        )
}

fn find_file(files: &[SourceFile], path: &String) -> (r: Option<usize>)
    ensures
        r matches Some(i) ==> find_source(files@, path@) == Some(i as int),
        r is None ==> find_source(files@, path@) is None,
{
    let mut i: usize = 0;
    while i < files.len()
        invariant
            i <= files@.len(),
            find_source(files@.take(i as int), path@) is None,
        decreases files@.len() - i,
    {
        let ghost t = files@.take(i as int + 1);
        proof {
            assert(t.drop_last() =~= files@.take(i as int));
            assert(t.last() == files@[i as int]);
        }
        if same_path(files[i].path.as_str(), path.as_str()) {
            proof {
                lemma_find_source_prefix(files@, path@, i as int + 1);
            }
            return Some(i);
        }
        i = i + 1;
    }
    proof {
        assert(files@.take(i as int) =~= files@);
    }
    None
}

/// A path found in a prefix of the files is found at the same index in all
/// of them.
proof fn lemma_find_source_prefix(files: Seq<SourceFile>, path: Seq<char>, n: int)
    requires
        0 <= n <= files.len(),
        find_source(files.take(n), path) is Some,
    ensures
        find_source(files, path) == find_source(files.take(n), path),
    decreases files.len(),
{
    if n < files.len() {
        assert(files.drop_last().take(n) =~= files.take(n));
        lemma_find_source_prefix(files.drop_last(), path, n);
    } else {
        assert(files.take(n) =~= files);
    }
}

/// Turns groups of candidates into clone groups: each group's candidates
/// are sorted by location, those spanning fewer than `min_lines` lines are
/// dropped; where all that remain lie in one file, so is one that starts
/// inside the window kept before it; each remaining one is reported with
/// the text it shows (without the comments inside it where `hide_comments`
/// holds), and groups left with fewer than two instances are dropped.
pub fn extend_candidates(
    candidates: &Vec<(u64, Vec<CloneCandidate>)>,
    files: &[SourceFile],
    tokens: &[Vec<Token>],
    hide_comments: bool,
    min_lines: usize,
) -> (r: Vec<CloneGroup>)
    requires
        texts_fit(files@),
        files@.len() == tokens@.len(),
        groups_countable(candidates@.map_values(|g: (u64, Vec<CloneCandidate>)| (g.0, g.1@))),
    ensures
        ({
            let expected = extended_groups(
                files@,
                candidates@.map_values(|g: (u64, Vec<CloneCandidate>)| (g.0, g.1@)),
                min_lines,
            );
            &&& r@.len() == expected.len()
            &&& forall|t: int|
                #![trigger r@[t]]
                0 <= t < r@.len() ==> group_of(files@, token_seqs(tokens@), hide_comments, r@[t], expected[t])
        }),
{
    let ghost views = candidates@.map_values(|g: (u64, Vec<CloneCandidate>)| (g.0, g.1@));
    let mut groups: Vec<CloneGroup> = Vec::new();
    let mut t: usize = 0;
    while t < candidates.len()
        invariant
            t <= candidates@.len(),
            views == candidates@.map_values(|g: (u64, Vec<CloneCandidate>)| (g.0, g.1@)),
            texts_fit(files@),
            files@.len() == tokens@.len(),
            groups_countable(views),
            groups@.len() == extended_groups(files@, views.take(t as int), min_lines).len(),
            forall|u: int|
                #![trigger groups@[u]]
                0 <= u < groups@.len() ==> group_of(
                    files@,
                    token_seqs(tokens@),
                    hide_comments,
                    groups@[u],
                    extended_groups(files@, views.take(t as int), min_lines)[u],
                ),
        decreases candidates@.len() - t,
    {
        let hash = candidates[t].0;
        let sorted = sort_candidates(&candidates[t].1);
        let ghost cands = candidates@[t as int].1@;
        proof {
            assert(views[t as int] == (hash, cands));
            lemma_sort_by_location_elements(cands);
            assert forall|q: int| 0 <= q < cands.len() implies countable_lines(#[trigger] cands[q]) by {
                assert(views[t as int].1[q] == cands[q]);
            }
        }
        proof {
            assert forall|q: int| 0 <= q < sorted@.len() implies countable_lines(#[trigger] sorted@[q]) by {
                assert(cands.contains(sorted@[q]));
                let k = choose|k: int| 0 <= k < cands.len() && cands[k] == sorted@[q];
                assert(countable_lines(cands[k]));
            }
        }
        let single = kept_in_one_file(&sorted, min_lines);
        let mut group = CloneGroup::new(CloneType::Type1, to_hex(hash));
        let mut last: Option<usize> = None;
        let mut i: usize = 0;
        while i < sorted.len()
            invariant
                i <= sorted@.len(),
                sorted@ == sort_by_location(cands),
                forall|q: int| 0 <= q < sorted@.len() ==> cands.contains(#[trigger] sorted@[q]),
                forall|q: int| 0 <= q < cands.len() ==> countable_lines(#[trigger] cands[q]),
                texts_fit(files@),
                files@.len() == tokens@.len(),
                group.clone_type == CloneType::Type1,
                group.signature@ == digits(hash as nat, 16),
                single == one_file(keep_long(sorted@, min_lines)),
                group.instances@.len() == located(files@, apart(keep_long(sorted@.take(i as int), min_lines), single)).len(),
                forall|q: int|
                    #![trigger group.instances@[q]]
                    0 <= q < group.instances@.len() ==> clone_of(
                        files@,
                        token_seqs(tokens@),
                        hide_comments,
                        group.instances@[q],
                        located(files@, apart(keep_long(sorted@.take(i as int), min_lines), single))[q],
                    ),
                match last {
                    Some(j) => j < i && apart(keep_long(sorted@.take(i as int), min_lines), single).len() > 0
                        && sorted@[j as int] == apart(keep_long(sorted@.take(i as int), min_lines), single).last(),
                    None => apart(keep_long(sorted@.take(i as int), min_lines), single).len() == 0,
                },
            decreases sorted@.len() - i,
        {
            let ghost before = sorted@.take(i as int);
            let ghost after = sorted@.take(i as int + 1);
            proof {
                assert(after.drop_last() =~= before);
                assert(after.last() == sorted@[i as int]);
                assert(cands.contains(sorted@[i as int]));
                let k = choose|k: int| 0 <= k < cands.len() && cands[k] == sorted@[i as int];
                assert(countable_lines(cands[k]));
            }
            let c = &sorted[i];
            if c.end_line - c.start_line + 1 >= min_lines {
                let ghost kb = keep_long(before, min_lines);
                let ghost ab = apart(kb, single);
                proof {
                    assert(keep_long(after, min_lines) == kb.push(*c));
                    assert(keep_long(after, min_lines).drop_last() =~= kb);
                }
                let overlaps = single && match last {
                    Some(j) => same_path(sorted[j].file_path.as_str(), c.file_path.as_str())
                        && c.start_offset < sorted[j].end_offset,
                    None => false,
                };
                if overlaps {
                    proof {
                        assert(apart(keep_long(after, min_lines), single) == ab);
                    }
                } else {
                    proof {
                        assert(apart(keep_long(after, min_lines), single) == ab.push(*c));
                        assert(apart(keep_long(after, min_lines), single).drop_last() =~= ab);
                    }
                    last = Some(i);
                    match find_file(files, &c.file_path) {
                        Some(fi) => {
                            proof {
                                lemma_find_source_range(files@, c.file_path@);
                                assert(encode_utf8(files@[fi as int].content@).len() <= usize::MAX);
                            }
                            let content = shown_content(
                                files[fi].content.as_str(),
                                &tokens[fi],
                                hide_comments,
                                c.start_offset,
                                c.end_offset,
                            );
                            proof {
                                assert(token_seqs(tokens@)[fi as int] == tokens@[fi as int]@);
                            }
                            let clone = crate::clone::Clone::new(
                                c.file_path.clone(),
                                c.start_line,
                                c.end_line,
                                c.start_col,
                                c.end_col,
                                content,
                            );
                            group.add_instance(clone);
                            proof {
                                let la = located(files@, apart(keep_long(after, min_lines), single));
                                assert(la == located(files@, ab).push(*c));
                                assert(la.drop_last() =~= located(files@, ab));
                                assert forall|q: int|
                                    #![trigger group.instances@[q]]
                                    0 <= q < group.instances@.len() implies clone_of(
                                    files@,
                                    token_seqs(tokens@),
                                    hide_comments,
                                    group.instances@[q],
                                    la[q],
                                ) by {
                                    if q < group.instances@.len() - 1 {
                                        assert(la[q] == located(files@, ab)[q]);
                                    }
                                }
                            }
                        },
                        None => {
                            proof {
                                assert(located(files@, apart(keep_long(after, min_lines), single)) == located(
                                    files@,
                                    ab,
                                ));
                            }
                        },
                    }
                }
            } else {
                proof {
                    assert(keep_long(after, min_lines) == keep_long(before, min_lines));
                }
            }
            i = i + 1;
        }
        proof {
            assert(sorted@.take(i as int) =~= sorted@);
            let vt = views.take(t as int + 1);
            assert(vt.drop_last() =~= views.take(t as int));
            assert(vt.last() == (hash, cands));
        }
        if group.size() >= 2 {
            groups.push(group);
            proof {
                let e = extended_groups(files@, views.take(t as int + 1), min_lines);
                assert(e.drop_last() =~= extended_groups(files@, views.take(t as int), min_lines));
                assert forall|u: int|
                    #![trigger groups@[u]]
                    0 <= u < groups@.len() implies group_of(files@, token_seqs(tokens@), hide_comments, groups@[u], e[u]) by {
                    if u < groups@.len() - 1 {
                        assert(e[u] == extended_groups(files@, views.take(t as int), min_lines)[u]);
                    }
                }
            }
        }
        t = t + 1;
    }
    proof {
        assert(views.take(t as int) =~= views);
    }
    groups
}

/// Every window whose hash more than one window has ends up in a
/// candidate group: the group of that hash, which holds all of its windows.
pub proof fn lemma_repeated_hash_grouped(ws: Seq<(u64, CloneCandidate)>, keys: Seq<u64>, h: u64)
    requires
        lists_hashes(window_hashes(ws), keys),
        hash_members(ws, h).len() >= 2,
    ensures
        exists|t: int|
            0 <= t < candidate_groups(ws, keys).len() && #[trigger] candidate_groups(ws, keys)[t] == (
                h,
                hash_members(ws, h),
            ),
{
    lemma_hash_members_occur(ws, h);
    assert(keys.contains(h));
    let k = choose|k: int| 0 <= k < keys.len() && keys[k] == h;
    lemma_repeated_groups_hold(ws, keys, k);
    let t = choose|t: int|
        0 <= t < repeated_groups(ws, keys).len() && #[trigger] repeated_groups(ws, keys)[t] == (
            keys[k],
            hash_members(ws, keys[k]),
        );
    assert(candidate_groups(ws, keys)[t] == (h, hash_members(ws, h)));
}

/// The group of a key with repeated windows is among the groups of the
/// keys.
proof fn lemma_repeated_groups_hold(ws: Seq<(u64, CloneCandidate)>, keys: Seq<u64>, k: int)
    requires
        0 <= k < keys.len(),
        hash_members(ws, keys[k]).len() >= 2,
    ensures
        exists|t: int|
            0 <= t < repeated_groups(ws, keys).len() && #[trigger] repeated_groups(ws, keys)[t] == (
                keys[k],
                hash_members(ws, keys[k]),
            ),
    decreases keys.len(),
{
    let g = repeated_groups(ws, keys.drop_last());
    if k == keys.len() - 1 {
        assert(repeated_groups(ws, keys)[g.len() as int] == (keys[k], hash_members(ws, keys[k])));
    } else {
        assert(keys.drop_last()[k] == keys[k]);
        lemma_repeated_groups_hold(ws, keys.drop_last(), k);
        let t = choose|t: int|
            0 <= t < g.len() && #[trigger] g[t] == (keys[k], hash_members(ws, keys[k]));
        assert(repeated_groups(ws, keys)[t] == g[t]);
    }
}

/// Every candidate group holds at least two windows, all with the group's
/// hash.
pub proof fn lemma_candidate_groups_repeated(ws: Seq<(u64, CloneCandidate)>, keys: Seq<u64>)
    ensures
        forall|t: int|
            0 <= t < candidate_groups(ws, keys).len() ==> (#[trigger] candidate_groups(ws, keys)[t]).1
                == hash_members(ws, candidate_groups(ws, keys)[t].0) && candidate_groups(
                ws,
                keys,
            )[t].1.len() >= 2,
{
    lemma_repeated_groups_members(ws, keys);
}

proof fn lemma_repeated_groups_members(ws: Seq<(u64, CloneCandidate)>, keys: Seq<u64>)
    ensures
        forall|t: int|
            0 <= t < repeated_groups(ws, keys).len() ==> (#[trigger] repeated_groups(ws, keys)[t]).1
                == hash_members(ws, repeated_groups(ws, keys)[t].0) && repeated_groups(
                ws,
                keys,
            )[t].1.len() >= 2,
    decreases keys.len(),
{
    if keys.len() > 0 {
        lemma_repeated_groups_members(ws, keys.drop_last());
        let g = repeated_groups(ws, keys.drop_last());
        assert forall|t: int| 0 <= t < repeated_groups(ws, keys).len() implies (#[trigger] repeated_groups(ws, keys)[t]).1
            == hash_members(ws, repeated_groups(ws, keys)[t].0) && repeated_groups(ws, keys)[t].1.len() >= 2 by {
            if t < g.len() {
                assert(repeated_groups(ws, keys)[t] == g[t]);
            }
        }
    }
}

/// The groups formed by the given hashes are those of a listed hash that
/// more than one window has, each with the locations of its windows.
proof fn lemma_repeated_groups_contain(
    ws: Seq<(u64, CloneCandidate)>,
    keys: Seq<u64>,
    g: (u64, Seq<CloneCandidate>),
)
    ensures
        repeated_groups(ws, keys).contains(g) <==> (keys.contains(g.0) && g.1 == hash_members(ws, g.0)
            && g.1.len() >= 2),
    decreases keys.len(),
{
    if keys.len() > 0 {
        let rest = keys.drop_last();
        lemma_repeated_groups_contain(ws, rest, g);
        let prev = repeated_groups(ws, rest);
        let m = hash_members(ws, keys.last());
        assert(keys.contains(g.0) <==> (rest.contains(g.0) || keys.last() == g.0)) by {
            if keys.contains(g.0) {
                let k = choose|k: int| 0 <= k < keys.len() && keys[k] == g.0;
                if k < keys.len() - 1 {
                    assert(rest[k] == g.0);
                }
            }
            if rest.contains(g.0) {
                let k = choose|k: int| 0 <= k < rest.len() && rest[k] == g.0;
                assert(keys[k] == g.0);
            }
            assert(keys[keys.len() - 1] == keys.last());
        }
        if m.len() > 1 {
            assert(repeated_groups(ws, keys) == prev.push((keys.last(), m)));
            assert(prev.push((keys.last(), m)).contains(g) <==> (prev.contains(g) || g == (
                keys.last(),
                m,
            ))) by {
                if prev.push((keys.last(), m)).contains(g) {
                    let k = choose|k: int|
                        0 <= k < prev.len() + 1 && prev.push((keys.last(), m))[k] == g;
                    if k < prev.len() {
                        assert(prev[k] == g);
                    }
                }
                if prev.contains(g) {
                    let k = choose|k: int| 0 <= k < prev.len() && prev[k] == g;
                    assert(prev.push((keys.last(), m))[k] == g);
                }
                assert(prev.push((keys.last(), m))[prev.len() as int] == (keys.last(), m));
            }
        }
    }
}

/// Groups formed by distinct hashes have distinct hashes.
proof fn lemma_repeated_groups_distinct(ws: Seq<(u64, CloneCandidate)>, keys: Seq<u64>)
    requires
        keys.no_duplicates(),
    ensures
        forall|i: int, j: int|
            0 <= i < j < repeated_groups(ws, keys).len() ==> (#[trigger] repeated_groups(ws, keys)[i]).0
                != (#[trigger] repeated_groups(ws, keys)[j]).0,
    decreases keys.len(),
{
    if keys.len() > 0 {
        let rest = keys.drop_last();
        assert(rest.no_duplicates());
        lemma_repeated_groups_distinct(ws, rest);
        let prev = repeated_groups(ws, rest);
        let m = hash_members(ws, keys.last());
        if m.len() > 1 {
            let all = repeated_groups(ws, keys);
            assert(all == prev.push((keys.last(), m)));
            assert forall|i: int, j: int| 0 <= i < j < all.len() implies (#[trigger] all[i]).0 != (
            #[trigger] all[j]).0 by {
                assert(all[i] == prev[i]);
                if j < prev.len() {
                    assert(all[j] == prev[j]);
                } else {
                    assert(prev.contains(prev[i]));
                    lemma_repeated_groups_contain(ws, rest, prev[i]);
                    let k = choose|k: int| 0 <= k < rest.len() && rest[k] == prev[i].0;
                    assert(keys[k] == rest[k]);
                    assert(keys[keys.len() - 1] == keys.last());
                }
            }
        }
    }
}

/// Groups with distinct hashes are distinct.
proof fn lemma_distinct_hashes_no_duplicates<T>(gs: Seq<(u64, T)>)
    requires
        forall|i: int, j: int| 0 <= i < j < gs.len() ==> (#[trigger] gs[i]).0 != (#[trigger] gs[j]).0,
    ensures
        gs.no_duplicates(),
{
    assert forall|i: int, j: int| 0 <= i < gs.len() && 0 <= j < gs.len() && i != j implies gs[i]
        != gs[j] by {
        if i < j {
            assert(gs[i].0 != gs[j].0);
        } else {
            assert(gs[j].0 != gs[i].0);
        }
    }
}

/// Which candidate groups the windows form does not depend on the order in
/// which the map of hashes is walked: any two walks give the same groups,
/// each once, only in another order.
pub proof fn lemma_groups_independent_of_walk(
    ws: Seq<(u64, CloneCandidate)>,
    keys1: Seq<u64>,
    keys2: Seq<u64>,
)
    requires
        lists_hashes(window_hashes(ws), keys1),
        lists_hashes(window_hashes(ws), keys2),
    ensures
        candidate_groups(ws, keys1).no_duplicates(),
        candidate_groups(ws, keys2).no_duplicates(),
        candidate_groups(ws, keys1).to_set() == candidate_groups(ws, keys2).to_set(),
        candidate_groups(ws, keys1).len() == candidate_groups(ws, keys2).len(),
{
    let g1 = candidate_groups(ws, keys1);
    let g2 = candidate_groups(ws, keys2);
    lemma_repeated_groups_distinct(ws, keys1);
    lemma_repeated_groups_distinct(ws, keys2);
    lemma_distinct_hashes_no_duplicates(g1);
    lemma_distinct_hashes_no_duplicates(g2);
    assert forall|g: (u64, Seq<CloneCandidate>)| g1.contains(g) <==> g2.contains(g) by {
        lemma_repeated_groups_contain(ws, keys1, g);
        lemma_repeated_groups_contain(ws, keys2, g);
        assert(keys1.contains(g.0) <==> keys2.contains(g.0));
    }
    assert(g1.to_set() =~= g2.to_set());
    g1.unique_seq_to_set();
    g2.unique_seq_to_set();
}

/// The reported groups are those of the given groups that keep at least
/// two instances, each with its hash and kept instances.
proof fn lemma_extended_groups_contain(
    files: Seq<SourceFile>,
    groups: Seq<(u64, Seq<CloneCandidate>)>,
    min_lines: usize,
    x: (u64, Seq<CloneCandidate>),
)
    ensures
        extended_groups(files, groups, min_lines).contains(x) <==> exists|g: (u64, Seq<CloneCandidate>)|
            #[trigger] groups.contains(g) && x == (g.0, group_instances(files, g.1, min_lines))
                && x.1.len() >= 2,
    decreases groups.len(),
{
    if groups.len() > 0 {
        let rest = groups.drop_last();
        lemma_extended_groups_contain(files, rest, min_lines, x);
        let prev = extended_groups(files, rest, min_lines);
        let last = groups.last();
        let inst = group_instances(files, last.1, min_lines);
        let ext = extended_groups(files, groups, min_lines);
        if ext.contains(x) {
            let k = choose|k: int| 0 <= k < ext.len() && ext[k] == x;
            if k < prev.len() {
                assert(inst.len() >= 2 ==> ext == prev.push((last.0, inst)));
                assert(ext[k] == prev[k]);
                assert(prev.contains(x));
                let g = choose|g: (u64, Seq<CloneCandidate>)|
                    #[trigger] rest.contains(g) && x == (g.0, group_instances(files, g.1, min_lines))
                        && x.1.len() >= 2;
                let q = choose|q: int| 0 <= q < rest.len() && rest[q] == g;
                assert(groups[q] == g);
                assert(groups.contains(g));
            } else {
                assert(groups[groups.len() - 1] == last);
                assert(groups.contains(last));
            }
        }
        if exists|g: (u64, Seq<CloneCandidate>)|
            #[trigger] groups.contains(g) && x == (g.0, group_instances(files, g.1, min_lines))
                && x.1.len() >= 2 {
            let g = choose|g: (u64, Seq<CloneCandidate>)|
                #[trigger] groups.contains(g) && x == (g.0, group_instances(files, g.1, min_lines))
                    && x.1.len() >= 2;
            let q = choose|q: int| 0 <= q < groups.len() && groups[q] == g;
            if q < groups.len() - 1 {
                assert(rest[q] == g);
                assert(rest.contains(g));
                assert(prev.contains(x));
                let p = choose|p: int| 0 <= p < prev.len() && prev[p] == x;
                if inst.len() >= 2 {
                    assert(ext == prev.push((last.0, inst)));
                    assert(ext[p] == x);
                } else {
                    assert(ext == prev);
                }
            } else {
                assert(ext == prev.push((last.0, inst)));
                assert(ext[prev.len() as int] == x);
            }
        }
    }
}

/// Reported groups keep the distinct hashes of the groups they come from.
proof fn lemma_extended_groups_distinct(
    files: Seq<SourceFile>,
    groups: Seq<(u64, Seq<CloneCandidate>)>,
    min_lines: usize,
)
    requires
        forall|i: int, j: int| 0 <= i < j < groups.len() ==> (#[trigger] groups[i]).0 != (#[trigger] groups[j]).0,
    ensures
        forall|i: int, j: int|
            0 <= i < j < extended_groups(files, groups, min_lines).len() ==> (#[trigger] extended_groups(
                files,
                groups,
                min_lines,
            )[i]).0 != (#[trigger] extended_groups(files, groups, min_lines)[j]).0,
    decreases groups.len(),
{
    if groups.len() > 0 {
        let rest = groups.drop_last();
        lemma_extended_groups_distinct(files, rest, min_lines);
        let prev = extended_groups(files, rest, min_lines);
        let last = groups.last();
        let inst = group_instances(files, last.1, min_lines);
        if inst.len() >= 2 {
            let ext = extended_groups(files, groups, min_lines);
            assert(ext == prev.push((last.0, inst)));
            assert forall|i: int, j: int| 0 <= i < j < ext.len() implies (#[trigger] ext[i]).0 != (
            #[trigger] ext[j]).0 by {
                assert(ext[i] == prev[i]);
                if j < prev.len() {
                    assert(ext[j] == prev[j]);
                } else {
                    assert(prev.contains(prev[i]));
                    lemma_extended_groups_contain(files, rest, min_lines, prev[i]);
                    let g = choose|g: (u64, Seq<CloneCandidate>)|
                        #[trigger] rest.contains(g) && prev[i] == (g.0, group_instances(
                            files,
                            g.1,
                            min_lines,
                        )) && prev[i].1.len() >= 2;
                    let q = choose|q: int| 0 <= q < rest.len() && rest[q] == g;
                    assert(groups[q] == g);
                    assert(groups[groups.len() - 1] == last);
                }
            }
        }
    }
}

/// Which clone groups are reported does not depend on the order in which
/// the map of hashes is walked: any two walks report the same groups, each
/// once, only in another order.
pub proof fn lemma_reported_groups_independent_of_walk(
    files: Seq<SourceFile>,
    ws: Seq<(u64, CloneCandidate)>,
    keys1: Seq<u64>,
    keys2: Seq<u64>,
    min_lines: usize,
)
    requires
        lists_hashes(window_hashes(ws), keys1),
        lists_hashes(window_hashes(ws), keys2),
    ensures
        extended_groups(files, candidate_groups(ws, keys1), min_lines).no_duplicates(),
        extended_groups(files, candidate_groups(ws, keys2), min_lines).no_duplicates(),
        extended_groups(files, candidate_groups(ws, keys1), min_lines).to_set() == extended_groups(
            files,
            candidate_groups(ws, keys2),
            min_lines,
        ).to_set(),
        extended_groups(files, candidate_groups(ws, keys1), min_lines).len() == extended_groups(
            files,
            candidate_groups(ws, keys2),
            min_lines,
        ).len(),
{
    let g1 = candidate_groups(ws, keys1);
    let g2 = candidate_groups(ws, keys2);
    lemma_groups_independent_of_walk(ws, keys1, keys2);
    lemma_repeated_groups_distinct(ws, keys1);
    lemma_repeated_groups_distinct(ws, keys2);
    lemma_extended_groups_distinct(files, g1, min_lines);
    lemma_extended_groups_distinct(files, g2, min_lines);
    let e1 = extended_groups(files, g1, min_lines);
    let e2 = extended_groups(files, g2, min_lines);
    lemma_distinct_hashes_no_duplicates(e1);
    lemma_distinct_hashes_no_duplicates(e2);
    assert forall|x: (u64, Seq<CloneCandidate>)| e1.contains(x) <==> e2.contains(x) by {
        lemma_extended_groups_contain(files, g1, min_lines, x);
        lemma_extended_groups_contain(files, g2, min_lines, x);
        assert forall|g: (u64, Seq<CloneCandidate>)| g1.contains(g) <==> g2.contains(g) by {
            assert(g1.to_set().contains(g) == g2.to_set().contains(g));
        }
    }
    assert(e1.to_set() =~= e2.to_set());
    e1.unique_seq_to_set();
    e2.unique_seq_to_set();
}

/// Within the windows kept apart in one file, a window that shares its
/// file with the one before it starts where that one ends or later; every
/// window kept comes from the list.
pub proof fn lemma_apart_separated(s: Seq<CloneCandidate>, single: bool)
    ensures
        forall|i: int|
            single && 0 < i < apart(s, single).len() && same_file(apart(s, single)[i - 1].file_path@, (#[trigger] apart(s, single)[i]).file_path@)
                ==> apart(s, single)[i - 1].end_offset <= apart(s, single)[i].start_offset,
        forall|i: int| 0 <= i < apart(s, single).len() ==> s.contains(#[trigger] apart(s, single)[i]),
    decreases s.len(),
{
    if s.len() > 0 {
        let p = s.drop_last();
        lemma_apart_separated(p, single);
        let r = apart(p, single);
        assert forall|i: int| 0 <= i < apart(s, single).len() implies s.contains(#[trigger] apart(s, single)[i]) by {
            if i < r.len() {
                assert(apart(s, single)[i] == r[i]);
                let k = choose|k: int| 0 <= k < p.len() && p[k] == r[i];
                assert(s[k] == p[k]);
            } else {
                assert(s[s.len() - 1] == s.last());
            }
        }
        assert forall|i: int|
            single && 0 < i < apart(s, single).len() && same_file(apart(s, single)[i - 1].file_path@, (#[trigger] apart(s, single)[i]).file_path@)
                implies apart(s, single)[i - 1].end_offset <= apart(s, single)[i].start_offset by {
            if i < r.len() {
                assert(apart(s, single)[i] == r[i]);
                assert(apart(s, single)[i - 1] == r[i - 1]);
            }
        }
    }
}

/// The candidates kept for their line count span at least `min_lines`
/// lines, and come from the list.
proof fn lemma_keep_long_elements(s: Seq<CloneCandidate>, min_lines: usize)
    ensures
        forall|i: int|
            0 <= i < keep_long(s, min_lines).len() ==> lines_spanned(
                (#[trigger] keep_long(s, min_lines)[i]).start_line as int,
                keep_long(s, min_lines)[i].end_line as int,
            ) >= min_lines,
    decreases s.len(),
{
    if s.len() > 0 {
        lemma_keep_long_elements(s.drop_last(), min_lines);
        let r = keep_long(s.drop_last(), min_lines);
        assert forall|i: int| 0 <= i < keep_long(s, min_lines).len() implies lines_spanned(
            (#[trigger] keep_long(s, min_lines)[i]).start_line as int,
            keep_long(s, min_lines)[i].end_line as int,
        ) >= min_lines by {
            if i < r.len() {
                assert(keep_long(s, min_lines)[i] == r[i]);
            }
        }
    }
}

/// The candidates kept for lying in a file come from the list.
proof fn lemma_located_elements(files: Seq<SourceFile>, s: Seq<CloneCandidate>)
    ensures
        forall|i: int| 0 <= i < located(files, s).len() ==> s.contains(#[trigger] located(files, s)[i]),
    decreases s.len(),
{
    if s.len() > 0 {
        let p = s.drop_last();
        lemma_located_elements(files, p);
        let r = located(files, p);
        assert forall|i: int| 0 <= i < located(files, s).len() implies s.contains(#[trigger] located(files, s)[i]) by {
            if i < r.len() {
                assert(located(files, s)[i] == r[i]);
                let k = choose|k: int| 0 <= k < p.len() && p[k] == r[i];
                assert(s[k] == p[k]);
            } else {
                assert(s[s.len() - 1] == s.last());
            }
        }
    }
}

/// Every reported group holds at least two instances, each spanning at
/// least `min_lines` lines.
pub proof fn lemma_extended_groups_shape(
    files: Seq<SourceFile>,
    groups: Seq<(u64, Seq<CloneCandidate>)>,
    min_lines: usize,
)
    ensures
        forall|t: int|
            #![trigger extended_groups(files, groups, min_lines)[t]]
            0 <= t < extended_groups(files, groups, min_lines).len() ==> {
                let g = extended_groups(files, groups, min_lines)[t].1;
                &&& g.len() >= 2
                &&& forall|q: int|
                    0 <= q < g.len() ==> lines_spanned(
                        (#[trigger] g[q]).start_line as int,
                        g[q].end_line as int,
                    ) >= min_lines
            },
    decreases groups.len(),
{
    if groups.len() > 0 {
        lemma_extended_groups_shape(files, groups.drop_last(), min_lines);
        let rest = extended_groups(files, groups.drop_last(), min_lines);
        let kl = keep_long(sort_by_location(groups.last().1), min_lines);
        let inst = group_instances(files, groups.last().1, min_lines);
        lemma_keep_long_elements(sort_by_location(groups.last().1), min_lines);
        let ak = apart(kl, one_file(kl));
        lemma_apart_separated(kl, one_file(kl));
        lemma_located_elements(files, ak);
        assert forall|t: int|
            #![trigger extended_groups(files, groups, min_lines)[t]]
            0 <= t < extended_groups(files, groups, min_lines).len() implies {
                let g = extended_groups(files, groups, min_lines)[t].1;
                &&& g.len() >= 2
                &&& forall|q: int|
                    0 <= q < g.len() ==> lines_spanned(
                        (#[trigger] g[q]).start_line as int,
                        g[q].end_line as int,
                    ) >= min_lines
            } by {
            if t < rest.len() {
                assert(extended_groups(files, groups, min_lines)[t] == rest[t]);
            } else {
                let g = extended_groups(files, groups, min_lines)[t].1;
                assert(g == inst);
                assert forall|q: int| 0 <= q < g.len() implies lines_spanned(
                    (#[trigger] g[q]).start_line as int,
                    g[q].end_line as int,
                ) >= min_lines by {
                    assert(ak.contains(g[q]));
                    let a = choose|a: int| 0 <= a < ak.len() && ak[a] == g[q];
                    assert(kl.contains(ak[a]));
                    let b = choose|b: int| 0 <= b < kl.len() && kl[b] == ak[a];
                    assert(lines_spanned(kl[b].start_line as int, kl[b].end_line as int) >= min_lines);
                }
            }
        }
    }
}

/// The normalized values of a file's tokens, in order, without the indices
/// of the tokens they came from.
pub open spec fn normalized_values(tokens: Seq<Token>, skip: (bool, bool)) -> Seq<Seq<char>> {
    normalized_entries(tokens, tokens.len() as int, skip).map_values(|e: (Seq<char>, int)| e.0)
}

/// The two token sequences differ at most in the names of identifiers, the
/// values of literals, and the text of skipped comments and whitespace:
/// position by position the token types agree, and so does the text of
/// every other token.
pub open spec fn renamed(a: Seq<Token>, b: Seq<Token>, skip: (bool, bool)) -> bool {
    &&& a.len() == b.len()
    &&& forall|i: int|
        0 <= i < a.len() ==> (#[trigger] a[i]).token_type == b[i].token_type && (a[i].token_type
            != TokenType::Identifier && a[i].token_type != TokenType::Literal && !skipped(
            a[i].token_type,
            skip,
        ) ==> a[i].value@ == b[i].value@)
}

proof fn lemma_renamed_entries(a: Seq<Token>, b: Seq<Token>, n: int, skip: (bool, bool))
    requires
        renamed(a, b, skip),
        n <= a.len(),
    ensures
        normalized_entries(a, n, skip) == normalized_entries(b, n, skip),
    decreases n,
{
    if n > 0 {
        lemma_renamed_entries(a, b, n - 1, skip);
        assert(detection_form(a[n - 1], skip) == detection_form(b[n - 1], skip));
    }
}

/// Renaming identifiers and changing literals, or the text of skipped
/// comments or whitespace, leaves the normalized tokens unchanged, down to the token each comes
/// from.
pub proof fn lemma_renaming_keeps_normalized(a: Seq<Token>, b: Seq<Token>, skip: (bool, bool))
    requires
        renamed(a, b, skip),
    ensures
        normalized_entries(a, a.len() as int, skip) == normalized_entries(b, b.len() as int, skip),
        normalized_values(a, skip) == normalized_values(b, skip),
{
    lemma_renamed_entries(a, b, a.len() as int, skip);
}

proof fn lemma_insert_prefix_entries(a: Seq<Token>, p: int, t: Token, n: int, skip: (bool, bool))
    requires
        0 <= p <= a.len(),
        n <= p,
    ensures
        normalized_entries(a.insert(p, t), n, skip) == normalized_entries(a, n, skip),
    decreases n,
{
    if n > 0 {
        lemma_insert_prefix_entries(a, p, t, n - 1, skip);
        assert(a.insert(p, t)[n - 1] == a[n - 1]);
    }
}

proof fn lemma_insert_values(a: Seq<Token>, p: int, t: Token, n: int, skip: (bool, bool))
    requires
        0 <= p <= n <= a.len(),
        skipped(t.token_type, skip),
    ensures
        normalized_entries(a.insert(p, t), n + 1, skip).map_values(|e: (Seq<char>, int)| e.0)
            == normalized_entries(a, n, skip).map_values(|e: (Seq<char>, int)| e.0),
    decreases n,
{
    let b = a.insert(p, t);
    if n == p {
        lemma_insert_prefix_entries(a, p, t, p, skip);
        assert(b[p] == t);
        assert(normalized_entries(b, p + 1, skip) == normalized_entries(b, p, skip));
    } else {
        lemma_insert_values(a, p, t, n - 1, skip);
        assert(b[n] == a[n - 1]);
        let eb = normalized_entries(b, n, skip);
        let ea = normalized_entries(a, n - 1, skip);
        match detection_form(a[n - 1], skip) {
            Some(v) => {
                assert(normalized_entries(b, n + 1, skip) == eb.push((v, n)));
                assert(normalized_entries(a, n, skip) == ea.push((v, n - 1)));
                assert(eb.push((v, n)).map_values(|e: (Seq<char>, int)| e.0) =~= eb.map_values(
                    |e: (Seq<char>, int)| e.0,
                ).push(v));
                assert(ea.push((v, n - 1)).map_values(|e: (Seq<char>, int)| e.0) =~= ea.map_values(
                    |e: (Seq<char>, int)| e.0,
                ).push(v));
            },
            None => {},
        }
    }
}

/// Inserting a skipped comment or whitespace anywhere leaves the
/// normalized values unchanged.
pub proof fn lemma_insignificant_insert_keeps_values(a: Seq<Token>, p: int, t: Token, skip: (bool, bool))
    requires
        0 <= p <= a.len(),
        skipped(t.token_type, skip),
    ensures
        normalized_values(a.insert(p, t), skip) == normalized_values(a, skip),
{
    lemma_insert_values(a, p, t, a.len() as int, skip);
    assert(a.insert(p, t).len() == a.len() + 1);
}

/// Two files whose normalized values agree have the same windows: as many,
/// with the same hashes, in the same order.
pub proof fn lemma_same_values_same_hashes(
    path_a: String,
    a: Seq<Token>,
    path_b: String,
    b: Seq<Token>,
    k: nat, skip: (bool, bool),
)
    requires
        k > 0,
        normalized_values(a, skip) == normalized_values(b, skip),
    ensures
        window_hashes(file_windows(path_a, a, k, skip)) == window_hashes(file_windows(path_b, b, k, skip)),
{
    let ea = normalized_entries(a, a.len() as int, skip);
    let eb = normalized_entries(b, b.len() as int, skip);
    assert(ea.len() == normalized_values(a, skip).len());
    assert(eb.len() == normalized_values(b, skip).len());
    if a.len() == 0 {
        assert(ea.len() == 0);
    }
    if b.len() == 0 {
        assert(eb.len() == 0);
    }
    let wa = file_windows(path_a, a, k, skip);
    let wb = file_windows(path_b, b, k, skip);
    assert(wa.len() == wb.len());
    assert forall|w: int| 0 <= w < wa.len() implies wa[w].0 == wb[w].0 by {
        let sa = ea.subrange(w, w + k).map_values(|e: (Seq<char>, int)| e.0);
        let sb = eb.subrange(w, w + k).map_values(|e: (Seq<char>, int)| e.0);
        assert(w + k <= ea.len());
        assert forall|q: int| 0 <= q < k implies sa[q] == sb[q] by {
            assert(sa[q] == ea[w + q].0);
            assert(sb[q] == eb[w + q].0);
            assert(normalized_values(a, skip)[w + q] == ea[w + q].0);
            assert(normalized_values(b, skip)[w + q] == eb[w + q].0);
        }
        assert(sa =~= sb);
        assert(wa[w].0 == window_key(ea, k, w));
        assert(wb[w].0 == window_key(eb, k, w));
    }
    assert(window_hashes(wa) =~= window_hashes(wb));
}

/// The windows with a hash, over two runs of windows, are those of the
/// first run followed by those of the second.
proof fn lemma_hash_members_append(
    s1: Seq<(u64, CloneCandidate)>,
    s2: Seq<(u64, CloneCandidate)>,
    h: u64,
)
    ensures
        hash_members(s1 + s2, h) == hash_members(s1, h) + hash_members(s2, h),
    decreases s2.len(),
{
    if s2.len() == 0 {
        assert(s1 + s2 =~= s1);
        assert(hash_members(s1, h) + hash_members(s2, h) =~= hash_members(s1, h));
    } else {
        lemma_hash_members_append(s1, s2.drop_last(), h);
        assert((s1 + s2).drop_last() =~= s1 + s2.drop_last());
        assert((s1 + s2).last() == s2.last());
        if s2.last().0 == h {
            assert(hash_members(s1, h) + hash_members(s2, h) =~= (hash_members(s1, h)
                + hash_members(s2.drop_last(), h)).push(s2.last().1));
        } else {
            assert(hash_members(s1, h) + hash_members(s2, h) =~= hash_members(s1, h)
                + hash_members(s2.drop_last(), h));
        }
    }
}

/// A window with hash `h` is among the windows with that hash.
proof fn lemma_hash_members_contain(s: Seq<(u64, CloneCandidate)>, w: int)
    requires
        0 <= w < s.len(),
    ensures
        hash_members(s, s[w].0).contains(s[w].1),
    decreases s.len(),
{
    let h = s[w].0;
    if w == s.len() - 1 {
        assert(hash_members(s, h) == hash_members(s.drop_last(), h).push(s[w].1));
        assert(hash_members(s, h)[hash_members(s, h).len() - 1] == s[w].1);
    } else {
        assert(s.drop_last()[w] == s[w]);
        lemma_hash_members_contain(s.drop_last(), w);
        let m = hash_members(s.drop_last(), h);
        let j = choose|j: int| 0 <= j < m.len() && m[j] == s[w].1;
        if s.last().0 == h {
            assert(hash_members(s, h)[j] == m.push(s.last().1)[j]);
        }
        assert(hash_members(s, h)[j] == s[w].1);
    }
}

/// Every window of a file among the first `n` is among the windows of the
/// first `n` files that share its hash; and two files among them add up.
proof fn lemma_all_windows_members(
    files: Seq<SourceFile>,
    tokens: Seq<Seq<Token>>,
    k: nat,
    n: int,
    i: int,
    j: int,
    h: u64, skip: (bool, bool),
)
    requires
        0 <= n <= files.len(),
        0 <= i < files.len(),
        0 <= j < files.len(),
        i != j,
    ensures
        i < n ==> forall|x: CloneCandidate|
            hash_members(file_windows(files[i].path, tokens[i], k, skip), h).contains(x) ==> #[trigger] hash_members(
                all_windows(files, tokens, k, n, skip),
                h,
            ).contains(x),
        hash_members(all_windows(files, tokens, k, n, skip), h).len() >= (if i < n {
            hash_members(file_windows(files[i].path, tokens[i], k, skip), h).len() as int
        } else {
            0
        }) + (if j < n {
            hash_members(file_windows(files[j].path, tokens[j], k, skip), h).len() as int
        } else {
            0
        }),
    decreases n,
{
    if n > 0 {
        lemma_all_windows_members(files, tokens, k, n - 1, i, j, h, skip);
        let before = all_windows(files, tokens, k, n - 1, skip);
        let last = file_windows(files[n - 1].path, tokens[n - 1], k, skip);
        lemma_hash_members_append(before, last, h);
        let mb = hash_members(before, h);
        let ml = hash_members(last, h);
        assert forall|x: CloneCandidate| #[trigger] mb.contains(x) implies (mb + ml).contains(x) by {
            let q = choose|q: int| 0 <= q < mb.len() && mb[q] == x;
            assert((mb + ml)[q] == x);
        }
        assert forall|x: CloneCandidate| #[trigger] ml.contains(x) implies (mb + ml).contains(x) by {
            let q = choose|q: int| 0 <= q < ml.len() && ml[q] == x;
            assert((mb + ml)[mb.len() + q] == x);
        }
        assert(all_windows(files, tokens, k, n, skip) == before + last);
        assert(hash_members(all_windows(files, tokens, k, n, skip), h) == mb + ml);
        if i < n {
            let mi = hash_members(file_windows(files[i].path, tokens[i], k, skip), h);
            assert forall|x: CloneCandidate| mi.contains(x) implies #[trigger] hash_members(
                all_windows(files, tokens, k, n, skip),
                h,
            ).contains(x) by {
                if i < n - 1 {
                    assert(mb.contains(x));
                } else {
                    assert(ml.contains(x));
                }
            }
        }
    }
}

/// A file and a copy of it that differs only in names, literals, comments
/// or whitespace (any two files whose normalized values agree): each window
/// of the first lands, together with the window at the same place in the
/// copy, in the candidate group of its hash.
pub proof fn lemma_renamed_copy_grouped(
    files: Seq<SourceFile>,
    tokens: Seq<Seq<Token>>,
    k: nat,
    keys: Seq<u64>,
    i: int,
    j: int,
    w: int, skip: (bool, bool),
)
    requires
        k > 0,
        files.len() == tokens.len(),
        0 <= i < files.len(),
        0 <= j < files.len(),
        i != j,
        normalized_values(tokens[i], skip) == normalized_values(tokens[j], skip),
        0 <= w < file_windows(files[i].path, tokens[i], k, skip).len(),
        lists_hashes(window_hashes(all_windows(files, tokens, k, files.len() as int, skip)), keys),
    ensures
        exists|t: int|
            0 <= t < candidate_groups(all_windows(files, tokens, k, files.len() as int, skip), keys).len()
                && (#[trigger] candidate_groups(
                all_windows(files, tokens, k, files.len() as int, skip),
                keys,
            )[t]).0 == file_windows(files[i].path, tokens[i], k, skip)[w].0 && candidate_groups(
                all_windows(files, tokens, k, files.len() as int, skip),
                keys,
            )[t].1.contains(file_windows(files[i].path, tokens[i], k, skip)[w].1) && candidate_groups(
                all_windows(files, tokens, k, files.len() as int, skip),
                keys,
            )[t].1.contains(file_windows(files[j].path, tokens[j], k, skip)[w].1),
{
    let wa = file_windows(files[i].path, tokens[i], k, skip);
    let wb = file_windows(files[j].path, tokens[j], k, skip);
    let all = all_windows(files, tokens, k, files.len() as int, skip);
    lemma_same_values_same_hashes(files[i].path, tokens[i], files[j].path, tokens[j], k, skip);
    assert(window_hashes(wa).len() == wa.len());
    assert(window_hashes(wb).len() == wb.len());
    assert(window_hashes(wa)[w] == wa[w].0);
    assert(window_hashes(wb)[w] == wb[w].0);
    let h = wa[w].0;
    assert(wb[w].0 == h);
    lemma_hash_members_contain(wa, w);
    lemma_hash_members_contain(wb, w);
    lemma_all_windows_members(files, tokens, k, files.len() as int, i, j, h, skip);
    lemma_all_windows_members(files, tokens, k, files.len() as int, j, i, h, skip);
    assert(hash_members(all, h).contains(wa[w].1));
    assert(hash_members(all, h).contains(wb[w].1));
    lemma_repeated_hash_grouped(all, keys, h);
}

/// The windows of every file in turn (the first `n` files), each file with
/// its tokens.
pub open spec fn all_windows(
    files: Seq<SourceFile>,
    tokens: Seq<Seq<Token>>,
    k: nat,
    n: int, skip: (bool, bool),
) -> Seq<(u64, CloneCandidate)>
    decreases n,
{
    if n <= 0 {
        Seq::<(u64, CloneCandidate)>::empty()
    } else {
        all_windows(files, tokens, k, n - 1, skip) + file_windows(files[n - 1].path, tokens[n - 1], k, skip)
    }
}

/// The token vectors by their contents.
pub open spec fn token_seqs(tokens: Seq<Vec<Token>>) -> Seq<Seq<Token>> {
    tokens.map_values(|v: Vec<Token>| v@)
}

/// Groups of candidates by their contents.
pub open spec fn group_views(groups: Seq<(u64, Vec<CloneCandidate>)>) -> Seq<(u64, Seq<CloneCandidate>)> {
    groups.map_values(|g: (u64, Vec<CloneCandidate>)| (g.0, g.1@))
}

/// The repeated windows of the files, grouped by hash: every window of
/// `config.min_tokens` normalized tokens of each file (given its tokens) is hashed,
/// and each hash that more than one window has becomes a group holding the
/// locations of its windows, in order. The groups come in the order in
/// which the map of hashes is walked.
pub fn find_candidates(files: &[SourceFile], tokens: &[Vec<Token>], config: &DetectionConfig) -> (r: Vec<
    (u64, Vec<CloneCandidate>),
>)
    requires
        config.min_tokens > 0,
        files@.len() == tokens@.len(),
    ensures
        exists|keys: Seq<u64>|
            lists_hashes(
                window_hashes(
                    all_windows(files@, token_seqs(tokens@), config.min_tokens as nat, files@.len() as int, skips(*config)),
                ),
                keys,
            ) && group_views(r@) == #[trigger] candidate_groups(
                all_windows(files@, token_seqs(tokens@), config.min_tokens as nat, files@.len() as int, skips(*config)),
                keys,
            ),
{
    let ghost toks = token_seqs(tokens@);
    let mut windows: Vec<(u64, CloneCandidate)> = Vec::new();
    let mut i: usize = 0;
    while i < files.len()
        invariant
            i <= files@.len(),
            config.min_tokens > 0,
            files@.len() == tokens@.len(),
            toks == token_seqs(tokens@),
            windows@ == all_windows(files@, toks, config.min_tokens as nat, i as int, skips(*config)),
        decreases files@.len() - i,
    {
        let mut found = windows_of_file(&files[i].path, tokens[i].as_slice(), config.min_tokens, config);
        windows.append(&mut found);
        i = i + 1;
    }
    group_by_hash(&windows)
}

/// Whether the lines of every candidate of every group can be counted.
pub fn check_countable(groups: &Vec<(u64, Vec<CloneCandidate>)>) -> (r: bool)
    ensures
        r == groups_countable(group_views(groups@)),
{
    let ghost views = group_views(groups@);
    let mut t: usize = 0;
    while t < groups.len()
        invariant
            t <= groups@.len(),
            views == group_views(groups@),
            forall|u: int, q: int|
                0 <= u < t && 0 <= q < views[u].1.len() ==> countable_lines(#[trigger] views[u].1[q]),
        decreases groups@.len() - t,
    {
        let mut q: usize = 0;
        while q < groups[t].1.len()
            invariant
                t < groups@.len(),
                q <= groups@[t as int].1@.len(),
                views == group_views(groups@),
                forall|u: int, q2: int|
                    0 <= u < t && 0 <= q2 < views[u].1.len() ==> countable_lines(#[trigger] views[u].1[q2]),
                forall|q2: int| 0 <= q2 < q ==> countable_lines(#[trigger] views[t as int].1[q2]),
            decreases groups@[t as int].1@.len() - q,
        {
            let c = &groups[t].1[q];
            if !(c.start_line <= c.end_line && c.end_line - c.start_line < usize::MAX) {
                proof {
                    assert(views[t as int].1[q as int] == *c);
                }
                return false;
            }
            q = q + 1;
        }
        t = t + 1;
    }
    true
}

/// Whether some file, given its tokens, has a token that survives
/// normalization.
pub open spec fn some_normalized(tokens: Seq<Seq<Token>>, skip: (bool, bool)) -> bool {
    exists|i: int|
        0 <= i < tokens.len() && normalized_entries(#[trigger] tokens[i], tokens[i].len() as int, skip).len()
            > 0
}

/// Why detection could not complete.
#[derive(Debug, Clone)]
pub enum DetectError {
    /// No tokenizer is registered for the file's language.
    NoTokenizer(String),
    /// The tokenizer rejected the file.
    Tokenization(TokenizationError),
}

impl DetectError {
    /// A human-readable description of the error.
    pub fn message(&self) -> (r: String)
        ensures
            r@ == (match self {
                DetectError::NoTokenizer(l) => "No tokenizer registered for language: "@ + l@,
                DetectError::Tokenization(TokenizationError::LexError(m)) => "Tokenization failed: "@
                    + ("Lexical error: "@ + m@),
            }),
    {
        match self {
            DetectError::NoTokenizer(language) => {
                let mut r = "No tokenizer registered for language: ".to_owned();
                r.append(language.as_str());
                r
            },
            DetectError::Tokenization(e) => {
                let mut r = "Tokenization failed: ".to_owned();
                let m = e.message();
                r.append(m.as_str());
                r
            },
        }
    }
}

/// Every window whose hash another window shares has countable lines.
pub open spec fn repeated_windows_countable(ws: Seq<(u64, CloneCandidate)>) -> bool {
    forall|w: int|
        0 <= w < ws.len() && (#[trigger] hash_members(ws, ws[w].0)).len() >= 2 ==> countable_lines(
            ws[w].1,
        )
}

/// Detection can run on files with the given tokens: the window size is
/// positive or no file has a token to hash, and every repeated window's
/// lines can be counted.
pub open spec fn detectable(files: Seq<SourceFile>, tokens: Seq<Seq<Token>>, config: DetectionConfig) -> bool {
    &&& config.min_tokens > 0 || !some_normalized(tokens, skips(config))
    &&& config.min_tokens > 0 ==> repeated_windows_countable(
        all_windows(files, tokens, config.min_tokens as nat, files.len() as int, skips(config)),
    )
}

/// What detection yields for files with the given tokens: nothing where the
/// window size is zero; otherwise the clone groups, in the order of `keys`,
/// which lists every hash of the windows once.
pub open spec fn detection_outcome(
    files: Seq<SourceFile>,
    tokens: Seq<Seq<Token>>,
    config: DetectionConfig,
    keys: Seq<u64>,
    groups: Seq<CloneGroup>,
) -> bool {
    if config.min_tokens == 0 {
        groups.len() == 0
    } else {
        let windows = all_windows(files, tokens, config.min_tokens as nat, files.len() as int, skips(config));
        let expected = extended_groups(files, candidate_groups(windows, keys), config.min_lines);
        &&& lists_hashes(window_hashes(windows), keys)
        &&& groups.len() == expected.len()
        &&& forall|t: int|
            #![trigger groups[t]]
            0 <= t < groups.len() ==> group_of(files, tokens, config.ignore_comments, groups[t], expected[t])
    }
}

/// A member of the windows with a hash is one of the windows with it.
proof fn lemma_hash_members_from(ws: Seq<(u64, CloneCandidate)>, h: u64, q: int)
    requires
        0 <= q < hash_members(ws, h).len(),
    ensures
        exists|w: int| 0 <= w < ws.len() && ws[w].0 == h && ws[w].1 == hash_members(ws, h)[q],
    decreases ws.len(),
{
    let m = hash_members(ws.drop_last(), h);
    if q < m.len() {
        lemma_hash_members_from(ws.drop_last(), h, q);
        let w = choose|w: int|
            0 <= w < ws.drop_last().len() && ws.drop_last()[w].0 == h && ws.drop_last()[w].1 == m[q];
        assert(ws[w] == ws.drop_last()[w]);
        if ws.last().0 == h {
            assert(hash_members(ws, h)[q] == m.push(ws.last().1)[q]);
        }
    } else {
        assert(ws[ws.len() - 1] == ws.last());
    }
}

/// Where every repeated window's lines can be counted, so can those of
/// every candidate group, whatever the order of the hashes.
pub proof fn lemma_countable_groups(ws: Seq<(u64, CloneCandidate)>, keys: Seq<u64>)
    requires
        repeated_windows_countable(ws),
    ensures
        groups_countable(candidate_groups(ws, keys)),
{
    let g = candidate_groups(ws, keys);
    lemma_candidate_groups_repeated(ws, keys);
    assert forall|t: int, q: int| 0 <= t < g.len() && 0 <= q < g[t].1.len() implies countable_lines(
        #[trigger] g[t].1[q],
    ) by {
        let h = g[t].0;
        assert(g[t].1 == hash_members(ws, h));
        lemma_hash_members_from(ws, h, q);
        let w = choose|w: int| 0 <= w < ws.len() && ws[w].0 == h && ws[w].1 == hash_members(ws, h)[q];
        assert(hash_members(ws, ws[w].0).len() >= 2);
    }
}

/// Where some candidate group has a window whose lines cannot be counted,
/// some repeated window's lines cannot be counted.
proof fn lemma_uncountable_groups(ws: Seq<(u64, CloneCandidate)>, keys: Seq<u64>)
    requires
        !groups_countable(candidate_groups(ws, keys)),
    ensures
        !repeated_windows_countable(ws),
{
    let g = candidate_groups(ws, keys);
    lemma_candidate_groups_repeated(ws, keys);
    let (t, q) = choose|t: int, q: int|
        0 <= t < g.len() && 0 <= q < g[t].1.len() && !countable_lines(#[trigger] g[t].1[q]);
    let h = g[t].0;
    assert(g[t].1 == hash_members(ws, h));
    lemma_hash_members_from(ws, h, q);
    let w = choose|w: int| 0 <= w < ws.len() && ws[w].0 == h && ws[w].1 == hash_members(ws, h)[q];
    assert(hash_members(ws, ws[w].0).len() >= 2);
    assert(!countable_lines(ws[w].1));
}

/// Where the lines of every candidate group can be counted, so can those
/// of every repeated window.
proof fn lemma_countable_repeated(ws: Seq<(u64, CloneCandidate)>, keys: Seq<u64>)
    requires
        lists_hashes(window_hashes(ws), keys),
        groups_countable(candidate_groups(ws, keys)),
    ensures
        repeated_windows_countable(ws),
{
    let g = candidate_groups(ws, keys);
    assert forall|w: int|
        0 <= w < ws.len() && (#[trigger] hash_members(ws, ws[w].0)).len() >= 2 implies countable_lines(
        ws[w].1,
    ) by {
        let h = ws[w].0;
        lemma_repeated_hash_grouped(ws, keys, h);
        let t = choose|t: int| 0 <= t < g.len() && #[trigger] g[t] == (h, hash_members(ws, h));
        lemma_hash_members_contain(ws, w);
        let q = choose|q: int| 0 <= q < hash_members(ws, h).len() && hash_members(ws, h)[q] == ws[w].1;
        assert(g[t].1[q] == ws[w].1);
    }
}

/// Whether some file, given its tokens, has a token that survives
/// normalization.
pub fn any_normalized(tokens: &[Vec<Token>], config: &DetectionConfig) -> (r: bool)
    ensures
        r == some_normalized(token_seqs(tokens@), skips(*config)),
{
    let mut i: usize = 0;
    while i < tokens.len()
        invariant
            i <= tokens@.len(),
            forall|j: int|
                0 <= j < i ==> normalized_entries(#[trigger] token_seqs(tokens@)[j], token_seqs(tokens@)[j].len() as int, skips(*config)).len() == 0,
        decreases tokens@.len() - i,
    {
        let n = normalize_tokens(tokens[i].as_slice(), config);
        if n.len() > 0 {
            proof {
                assert(token_seqs(tokens@)[i as int] == tokens@[i as int]@);
            }
            return true;
        }
        proof {
            assert(token_seqs(tokens@)[i as int] == tokens@[i as int]@);
        }
        i = i + 1;
    }
    false
}

/// Clone detection over files whose tokens are given: every window of
/// `min_tokens` normalized tokens is hashed, the windows are grouped by
/// hash, and the groups are extended into clone groups.
pub fn detect_in_tokens(files: &[SourceFile], tokens: &[Vec<Token>], config: &DetectionConfig) -> (r: Vec<
    CloneGroup,
>)
    requires
        files@.len() == tokens@.len(),
        texts_fit(files@),
        detectable(files@, token_seqs(tokens@), *config),
    ensures
        exists|keys: Seq<u64>| #[trigger] detection_outcome(files@, token_seqs(tokens@), *config, keys, r@),
{
    if config.min_tokens == 0 {
        let r: Vec<CloneGroup> = Vec::new();
        proof {
            assert(detection_outcome(files@, token_seqs(tokens@), *config, Seq::empty(), r@));
        }
        return r;
    }
    let candidates = find_candidates(files, tokens, config);
    let ghost windows = all_windows(
        files@,
        token_seqs(tokens@),
        config.min_tokens as nat,
        files@.len() as int, skips(*config),
    );
    let ghost keys = choose|keys: Seq<u64>|
        lists_hashes(window_hashes(windows), keys) && group_views(candidates@)
            == #[trigger] candidate_groups(windows, keys);
    proof {
        lemma_countable_groups(windows, keys);
        assert(group_views(candidates@) == candidates@.map_values(
            |g: (u64, Vec<CloneCandidate>)| (g.0, g.1@),
        ));
    }
    let r = extend_candidates(&candidates, files, tokens, config.ignore_comments, config.min_lines);
    proof {
        assert(detection_outcome(files@, token_seqs(tokens@), *config, keys, r@));
    }
    r
}

/// Clone detection where it can run: none where the window size is zero
/// while some file has a token to hash, or where some repeated window's
/// lines cannot be counted; otherwise the clone groups that
/// `detect_in_tokens` finds.
pub fn detect_checked(files: &[SourceFile], tokens: &[Vec<Token>], config: &DetectionConfig) -> (r: Option<
    Vec<CloneGroup>,
>)
    requires
        files@.len() == tokens@.len(),
        texts_fit(files@),
    ensures
        r is None <==> !detectable(files@, token_seqs(tokens@), *config),
        r is Some ==> exists|keys: Seq<u64>|
            #[trigger] detection_outcome(files@, token_seqs(tokens@), *config, keys, r.unwrap()@),
{
    if config.min_tokens == 0 {
        if any_normalized(tokens, config) {
            return None;
        }
        let r: Vec<CloneGroup> = Vec::new();
        let res = Some(r);
        proof {
            assert(detection_outcome(files@, token_seqs(tokens@), *config, Seq::empty(), res.unwrap()@));
        }
        return res;
    }
    let candidates = find_candidates(files, tokens, config);
    let ghost windows = all_windows(
        files@,
        token_seqs(tokens@),
        config.min_tokens as nat,
        files@.len() as int,
        skips(*config),
    );
    let ghost keys = choose|keys: Seq<u64>|
        lists_hashes(window_hashes(windows), keys) && group_views(candidates@)
            == #[trigger] candidate_groups(windows, keys);
    if !check_countable(&candidates) {
        proof {
            lemma_uncountable_groups(windows, keys);
        }
        return None;
    }
    proof {
        lemma_countable_repeated(windows, keys);
        assert(group_views(candidates@) == candidates@.map_values(
            |g: (u64, Vec<CloneCandidate>)| (g.0, g.1@),
        ));
    }
    let r = extend_candidates(&candidates, files, tokens, config.ignore_comments, config.min_lines);
    let res = Some(r);
    proof {
        assert(detection_outcome(files@, token_seqs(tokens@), *config, keys, res.unwrap()@));
    }
    res
}

} // verus!
