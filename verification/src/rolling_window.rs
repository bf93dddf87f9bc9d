//! Laws of the rolling window: what a roller holds after a run of pushes.

use vstd::prelude::*;

use crate::hash::{token_hash, window_hash, RollingHash};

verus! {

/// The window of a roller of size `w` after the tokens `ts` have been
/// pushed in turn onto the window `start`: each token's hash is appended,
/// and the oldest hash dropped first once the window is full.
pub open spec fn pushed_window(w: nat, start: Seq<u64>, ts: Seq<Seq<char>>) -> Seq<u64>
    decreases ts.len(),
{
    if ts.len() == 0 {
        start
    } else {
        let before = pushed_window(w, start, ts.drop_last());
        if before.len() < w {
            before.push(token_hash(ts.last()))
        } else {
            before.drop_first().push(token_hash(ts.last()))
        }
    }
}

/// The last (at most) `w` of the hashes of the window `start` followed by
/// the hashes of the tokens `ts`.
pub open spec fn last_hashes(w: nat, start: Seq<u64>, ts: Seq<Seq<char>>) -> Seq<u64> {
    let all = start + ts.map_values(|t: Seq<char>| token_hash(t));
    if all.len() <= w {
        all
    } else {
        all.subrange(all.len() - w, all.len() as int)
    }
}

/// Pushing one token moves the window as `RollingHash::push` does, so a
/// roller's window after a run of pushes is the `pushed_window` of the
/// tokens.
pub proof fn lemma_pushed_one(w: nat, start: Seq<u64>, t: Seq<char>)
    ensures
        pushed_window(w, start, seq![t]) == (if start.len() < w {
            start.push(token_hash(t))
        } else {
            start.drop_first().push(token_hash(t))
        }),
{
    assert(seq![t].drop_last() =~= Seq::<Seq<char>>::empty());
    assert(seq![t].last() == t);
    assert(pushed_window(w, start, seq![t].drop_last()) == start);
}

/// The rolling window law: pushing tokens onto a window of at most `w`
/// hashes leaves the last (at most) `w` hashes of what it held followed by
/// what was pushed.
pub proof fn lemma_pushed_window(w: nat, start: Seq<u64>, ts: Seq<Seq<char>>)
    requires
        w > 0,
        start.len() <= w,
    ensures
        pushed_window(w, start, ts) == last_hashes(w, start, ts),
    decreases ts.len(),
{
    if ts.len() > 0 {
        let rest = ts.drop_last();
        lemma_pushed_window(w, start, rest);
        let all = start + ts.map_values(|t: Seq<char>| token_hash(t));
        let prev = start + rest.map_values(|t: Seq<char>| token_hash(t));
        let h = token_hash(ts.last());
        assert(all =~= prev.push(h));
        let before = pushed_window(w, start, rest);
        if prev.len() <= w {
            assert(before == prev);
            if prev.len() < w {
                assert(pushed_window(w, start, ts) == prev.push(h));
            } else {
                assert(pushed_window(w, start, ts) == prev.drop_first().push(h));
                assert(prev.drop_first().push(h) =~= all.subrange(all.len() - w, all.len() as int));
            }
        } else {
            assert(before == prev.subrange(prev.len() - w, prev.len() as int));
            assert(before.len() == w);
            assert(pushed_window(w, start, ts) == before.drop_first().push(h));
            assert(before.drop_first().push(h) =~= all.subrange(all.len() - w, all.len() as int));
        }
    }
}

/// Once at least `w` tokens have been pushed, the window holds the hashes
/// of the last `w` of them, whatever it held before: a roller that was
/// new, reset, or fed other tokens before gives the same window, and so
/// the same hash.
pub proof fn lemma_window_forgets_start(w: nat, start1: Seq<u64>, start2: Seq<u64>, ts: Seq<Seq<char>>)
    requires
        w > 0,
        start1.len() <= w,
        start2.len() <= w,
        ts.len() >= w,
    ensures
        pushed_window(w, start1, ts) == ts.subrange(ts.len() - w, ts.len() as int).map_values(
            |t: Seq<char>| token_hash(t),
        ),
        pushed_window(w, start1, ts) == pushed_window(w, start2, ts),
{
    lemma_pushed_window(w, start1, ts);
    lemma_pushed_window(w, start2, ts);
    let tail = ts.subrange(ts.len() - w, ts.len() as int).map_values(|t: Seq<char>| token_hash(t));
    let a1 = start1 + ts.map_values(|t: Seq<char>| token_hash(t));
    let a2 = start2 + ts.map_values(|t: Seq<char>| token_hash(t));
    if a1.len() > w {
        assert(a1.subrange(a1.len() - w, a1.len() as int) =~= tail);
    } else {
        assert(a1 =~= tail);
    }
    if a2.len() > w {
        assert(a2.subrange(a2.len() - w, a2.len() as int) =~= tail);
    } else {
        assert(a2 =~= tail);
    }
}

/// A roller that is new or reset holds, after the tokens `ts`, the hashes
/// of the last (at most) `w` of them: its windows, and so its results,
/// depend on nothing but its size and the tokens pushed.
pub proof fn lemma_fresh_window(w: nat, ts: Seq<Seq<char>>)
    requires
        w > 0,
    ensures
        pushed_window(w, Seq::empty(), ts) == (if ts.len() <= w {
            ts.map_values(|t: Seq<char>| token_hash(t))
        } else {
            ts.subrange(ts.len() - w, ts.len() as int).map_values(|t: Seq<char>| token_hash(t))
        }),
{
    lemma_pushed_window(w, Seq::empty(), ts);
    let all = Seq::<u64>::empty() + ts.map_values(|t: Seq<char>| token_hash(t));
    assert(all =~= ts.map_values(|t: Seq<char>| token_hash(t)));
    if ts.len() > w {
        assert(all.subrange(all.len() - w, all.len() as int) =~= ts.subrange(
            ts.len() - w,
            ts.len() as int,
        ).map_values(|t: Seq<char>| token_hash(t)));
    }
}

/// What a roller of size `w` answers to a push that leaves the window
/// `win`: the window's hash once it is full, `None` while it fills.
pub open spec fn window_result(w: nat, win: Seq<u64>) -> Option<u64> {
    if win.len() == w {
        Some(window_hash(win) as u64)
    } else {
        None
    }
}

/// The answers a roller of size `w` whose window is `start` gives, in
/// turn, to the pushes of the tokens `ts`.
pub open spec fn pushed_results(w: nat, start: Seq<u64>, ts: Seq<Seq<char>>) -> Seq<Option<u64>>
    decreases ts.len(),
{
    if ts.len() == 0 {
        Seq::empty()
    } else {
        pushed_results(w, start, ts.drop_last()).push(window_result(w, pushed_window(w, start, ts)))
    }
}

/// The answer to the `i`-th push of `ts` on a new or reset roller of size
/// `w`: the hash of the hashes of tokens `i + 1 - w ..= i` once `w` tokens
/// have come, `None` before.
pub open spec fn fresh_result(w: nat, ts: Seq<Seq<char>>, i: int) -> Option<u64> {
    if i + 1 >= w {
        Some(window_hash(ts.subrange(i + 1 - w, i + 1).map_values(|t: Seq<char>| token_hash(t))) as u64)
    } else {
        None
    }
}

/// One more push extends the window and the answers as
/// `RollingHash::push` does: a run of pushes on a roller steps through
/// `pushed_window` and `pushed_results`.
pub proof fn lemma_push_extends(w: nat, start: Seq<u64>, ts: Seq<Seq<char>>, t: Seq<char>)
    ensures
        pushed_window(w, start, ts.push(t)) == (if pushed_window(w, start, ts).len() < w {
            pushed_window(w, start, ts).push(token_hash(t))
        } else {
            pushed_window(w, start, ts).drop_first().push(token_hash(t))
        }),
        pushed_results(w, start, ts.push(t)) == pushed_results(w, start, ts).push(
            window_result(w, pushed_window(w, start, ts.push(t))),
        ),
{
    assert(ts.push(t).drop_last() =~= ts);
    assert(ts.push(t).last() == t);
}

/// The `i`-th answer of a run is the answer to the window left by the
/// first `i + 1` tokens.
proof fn lemma_results_prefix(w: nat, start: Seq<u64>, ts: Seq<Seq<char>>)
    ensures
        pushed_results(w, start, ts).len() == ts.len(),
        forall|i: int|
            0 <= i < ts.len() ==> #[trigger] pushed_results(w, start, ts)[i] == window_result(
                w,
                pushed_window(w, start, ts.subrange(0, i + 1)),
            ),
    decreases ts.len(),
{
    if ts.len() > 0 {
        let rest = ts.drop_last();
        lemma_results_prefix(w, start, rest);
        assert(ts.subrange(0, ts.len() as int) =~= ts);
        assert forall|i: int| 0 <= i < rest.len() implies #[trigger] rest.subrange(0, i + 1)
            =~= ts.subrange(0, i + 1) by {}
    }
}

/// The reset law: a roller that was reset, whatever it held before,
/// answers every run of pushes exactly as a new roller of the same size
/// does, and each answer is the hash of the last `w` tokens pushed once
/// `w` have come. Both `RollingHash::new` and `RollingHash::reset` leave a
/// well-formed roller with an empty window; this states what follows for
/// whole runs of tokens.
pub proof fn lemma_reset_answers_as_new(reset: RollingHash, fresh: RollingHash, ts: Seq<Seq<char>>)
    requires
        reset.wf(),
        fresh.wf(),
        reset.window_size() == fresh.window_size(),
        reset.window_size() > 0,
        reset.window() == Seq::<u64>::empty(),
        fresh.window() == Seq::<u64>::empty(),
    ensures
        pushed_results(reset.window_size(), reset.window(), ts) == pushed_results(
            fresh.window_size(),
            fresh.window(),
            ts,
        ),
        pushed_results(reset.window_size(), reset.window(), ts).len() == ts.len(),
        forall|i: int|
            0 <= i < ts.len() ==> #[trigger] pushed_results(reset.window_size(), reset.window(), ts)[i]
                == fresh_result(reset.window_size(), ts, i),
{
    let w = reset.window_size();
    lemma_results_prefix(w, Seq::empty(), ts);
    assert forall|i: int| 0 <= i < ts.len() implies #[trigger] pushed_results(w, Seq::empty(), ts)[i]
        == fresh_result(w, ts, i) by {
        let pre = ts.subrange(0, i + 1);
        lemma_fresh_window(w, pre);
        if i + 1 <= w {
            assert(pushed_window(w, Seq::empty(), pre).len() == i + 1);
            if i + 1 == w {
                assert(ts.subrange(i + 1 - w, i + 1) =~= pre);
            }
        } else {
            assert(pre.subrange(pre.len() - w, pre.len() as int) =~= ts.subrange(i + 1 - w, i + 1));
        }
    }
}

} // verus!
