//! History ring buffer: a recency-ordered, deduplicated, capped list of
//! previously executed commands. `record` is the one transform: remove
//! every occurrence of the command, insert it at the front, truncate to
//! the cap. It is pure; persistence is the caller's separate step.

use vstd::prelude::*;
use vstd::math::min;
use crate::seqs::{lemma_filter_identity, lemma_filter_take_step};

verus! {

/// Maximum number of entries the history keeps.
pub const HISTORY_MAXLEN: usize = 50;

/// The predicate kept by the dedupe pass: everything except `cmd` stays.
pub open spec fn differs_from(cmd: Seq<char>) -> spec_fn(Seq<char>) -> bool {
    |entry: Seq<char>| entry != cmd
}

/// The result of recording `cmd` into `history` under cap `max_len`:
/// `cmd` moves to the front, every prior occurrence is dropped, and the
/// tail beyond `max_len` entries is discarded.
pub open spec fn spec_record(history: Seq<Seq<char>>, cmd: Seq<char>, max_len: nat) -> Seq<
    Seq<char>,
> {
    let promoted = seq![cmd] + history.filter(differs_from(cmd));
    promoted.take(min(max_len as int, promoted.len() as int))
}

/// Record `cmd` into `history`: dedupe, promote to the front, truncate.
///
/// Pure with respect to its inputs; the caller persists the result and
/// refreshes any view of it.
pub fn record(history: &Vec<String>, cmd: &String, max_len: usize) -> (r: Vec<String>)
    ensures
        r.deep_view() == spec_record(history.deep_view(), cmd.deep_view(), max_len as nat),
{
    let ghost h = history.deep_view();
    let ghost c = cmd.deep_view();
    let ghost pred = differs_from(c);

    let mut out: Vec<String> = Vec::new();
    out.push(cmd.clone());
    assert(out.deep_view() =~= seq![c] + h.take(0).filter(pred)) by {
        reveal_with_fuel(Seq::<_>::filter, 2);
        assert(h.take(0) =~= Seq::<Seq<char>>::empty());
    }

    let mut i: usize = 0;
    while i < history.len()
        invariant
            i <= history.len(),
            h == history.deep_view(),
            c == cmd.deep_view(),
            pred == differs_from(c),
            out.deep_view() == seq![c] + h.take(i as int).filter(pred),
        decreases history.len() - i,
    {
        let entry = &history[i];
        let keep = !entry.eq(cmd);
        proof {
            lemma_filter_take_step(h, pred, i as int);
            assert(entry.deep_view() == h[i as int]);
            assert(keep == (entry@ != cmd@));
            assert(keep == pred(h[i as int]));
        }
        if keep {
            let ghost before = out.deep_view();
            out.push(entry.clone());
            assert(out.deep_view() =~= before.push(h[i as int]));
            assert(h.take(i + 1).filter(pred) == h.take(i as int).filter(pred).push(h[i as int]));
            assert(out.deep_view() =~= seq![c] + h.take(i + 1).filter(pred));
        } else {
            assert(out.deep_view() =~= seq![c] + h.take(i + 1).filter(pred));
        }
        i = i + 1;
    }
    assert(h.take(h.len() as int) =~= h);

    let ghost promoted = seq![c] + h.filter(pred);
    assert(out.deep_view() == promoted);

    while out.len() > max_len
        invariant
            out.deep_view() == promoted.take(out.len() as int),
            out@.len() <= promoted.len(),
            out@.len() >= min(max_len as int, promoted.len() as int),
        decreases out.len(),
    {
        let ghost before = out.deep_view();
        out.pop();
        assert(out.deep_view() =~= before.take(out@.len() as int));
        assert(promoted.take(out@.len() as int) =~= before.take(out@.len() as int));
    }
    assert(out.deep_view() == promoted.take(min(max_len as int, promoted.len() as int)));
    out
}

/// Splitting a sequence at an index splits its filtered form.
proof fn lemma_filter_split(s: Seq<Seq<char>>, pred: spec_fn(Seq<char>) -> bool, i: int)
    requires
        0 <= i < s.len(),
    ensures
        s.filter(pred) == s.take(i).filter(pred) + seq![s[i]].filter(pred) + s.skip(i + 1).filter(
            pred,
        ),
{
    assert(s =~= s.take(i) + seq![s[i]] + s.skip(i + 1));
    Seq::filter_distributes_over_add(s.take(i) + seq![s[i]], s.skip(i + 1), pred);
    Seq::filter_distributes_over_add(s.take(i), seq![s[i]], pred);
}

/// Dedupe-and-promote: recording a command already present leaves it at
/// the front as its only occurrence, and the result is no longer than
/// either the old history or the cap.
pub proof fn lemma_record_dedupes_and_promotes(
    history: Seq<Seq<char>>,
    cmd: Seq<char>,
    max_len: nat,
)
    requires
        history.contains(cmd),
        max_len >= 1,
    ensures
        spec_record(history, cmd, max_len)[0] == cmd,
        forall|i: int|
            1 <= i < spec_record(history, cmd, max_len).len() ==> spec_record(
                history,
                cmd,
                max_len,
            )[i] != cmd,
        spec_record(history, cmd, max_len).len() <= min(history.len() as int, max_len as int),
{
    let pred = differs_from(cmd);
    let filtered = history.filter(pred);
    let promoted = seq![cmd] + filtered;
    let result = spec_record(history, cmd, max_len);

    let k = choose|k: int| 0 <= k < history.len() && history[k] == cmd;
    lemma_filter_split(history, pred, k);
    reveal_with_fuel(Seq::<_>::filter, 2);
    assert(seq![history[k]].drop_last() =~= Seq::<Seq<char>>::empty());
    assert(seq![history[k]].filter(pred) =~= Seq::<Seq<char>>::empty());
    history.take(k).lemma_filter_len(pred);
    history.skip(k + 1).lemma_filter_len(pred);
    assert(filtered.len() <= history.len() - 1);

    assert(result[0] == promoted[0]);
    assert forall|i: int| 1 <= i < result.len() implies result[i] != cmd by {
        assert(result[i] == filtered[i - 1]);
        history.lemma_filter_pred(pred, i - 1);
    }
}

/// Cap: recording into a full, duplicate-free history keeps it exactly
/// full; when the command is new, the oldest entry is what gets dropped.
pub proof fn lemma_record_keeps_cap(history: Seq<Seq<char>>, cmd: Seq<char>, max_len: nat)
    requires
        history.len() == max_len,
        max_len >= 1,
        history.no_duplicates(),
    ensures
        spec_record(history, cmd, max_len).len() == max_len,
        !history.contains(cmd) ==> spec_record(history, cmd, max_len) == seq![cmd]
            + history.drop_last(),
{
    let pred = differs_from(cmd);
    let filtered = history.filter(pred);
    let promoted = seq![cmd] + filtered;

    if history.contains(cmd) {
        let k = choose|k: int| 0 <= k < history.len() && history[k] == cmd;
        lemma_filter_split(history, pred, k);
        reveal_with_fuel(Seq::<_>::filter, 2);
        assert(seq![history[k]].drop_last() =~= Seq::<Seq<char>>::empty());
        assert(seq![history[k]].filter(pred) =~= Seq::<Seq<char>>::empty());
        assert forall|i: int| 0 <= i < history.take(k).len() implies pred(
            #[trigger] history.take(k)[i],
        ) by {
            assert(history.take(k)[i] == history[i]);
        }
        assert forall|i: int| 0 <= i < history.skip(k + 1).len() implies pred(
            #[trigger] history.skip(k + 1)[i],
        ) by {
            assert(history.skip(k + 1)[i] == history[k + 1 + i]);
        }
        lemma_filter_identity(history.take(k), pred);
        lemma_filter_identity(history.skip(k + 1), pred);
        assert(filtered.len() == history.len() - 1);
        assert(promoted.len() == max_len);
        assert(spec_record(history, cmd, max_len) =~= promoted);
    } else {
        assert forall|i: int| 0 <= i < history.len() implies pred(#[trigger] history[i]) by {}
        lemma_filter_identity(history, pred);
        assert(promoted.len() == max_len + 1);
        assert(spec_record(history, cmd, max_len) =~= seq![cmd] + history.drop_last());
    }
}

/// Idempotence: recording the same command twice in a row is a no-op
/// after the first.
pub proof fn lemma_record_idempotent(history: Seq<Seq<char>>, cmd: Seq<char>, max_len: nat)
    ensures
        spec_record(spec_record(history, cmd, max_len), cmd, max_len) == spec_record(
            history,
            cmd,
            max_len,
        ),
{
    let pred = differs_from(cmd);
    let filtered = history.filter(pred);
    let promoted = seq![cmd] + filtered;
    let t = min(max_len as int, promoted.len() as int);
    let r1 = spec_record(history, cmd, max_len);
    assert(r1 == promoted.take(t));

    if max_len == 0 {
        assert(r1 =~= Seq::<Seq<char>>::empty());
        reveal_with_fuel(Seq::<_>::filter, 1);
        assert(r1.filter(pred) =~= Seq::<Seq<char>>::empty());
        assert(spec_record(r1, cmd, max_len) =~= r1);
    } else {
        // r1 = [cmd] + filtered.take(t - 1)
        assert(r1 =~= seq![cmd] + filtered.take(t - 1));
        // filtering r1 strips the head and leaves the tail unchanged
        Seq::filter_distributes_over_add(seq![cmd], filtered.take(t - 1), pred);
        reveal_with_fuel(Seq::<_>::filter, 2);
        assert(seq![cmd].drop_last() =~= Seq::<Seq<char>>::empty());
        assert(seq![cmd].filter(pred) =~= Seq::<Seq<char>>::empty());
        assert forall|i: int| 0 <= i < filtered.take(t - 1).len() implies pred(
            #[trigger] filtered.take(t - 1)[i],
        ) by {
            assert(filtered.take(t - 1)[i] == filtered[i]);
            history.lemma_filter_pred(pred, i);
        }
        lemma_filter_identity(filtered.take(t - 1), pred);
        assert(r1.filter(pred) == filtered.take(t - 1));

        let promoted2 = seq![cmd] + filtered.take(t - 1);
        assert(promoted2.len() == t);
        assert(spec_record(r1, cmd, max_len) == promoted2.take(min(max_len as int, t)));
        assert(min(max_len as int, t) == t);
        assert(promoted2.take(t) =~= promoted2);
        assert(promoted2 == r1);
    }
}

/// With no duplicates and room under the cap, recording a command that
/// is already present moves exactly that entry to the front and changes
/// nothing else.
pub proof fn lemma_record_promotes_in_place(
    history: Seq<Seq<char>>,
    cmd: Seq<char>,
    max_len: nat,
    k: int,
)
    requires
        history.no_duplicates(),
        0 <= k < history.len(),
        history[k] == cmd,
        history.len() <= max_len,
    ensures
        spec_record(history, cmd, max_len) == seq![cmd] + history.remove(k),
{
    let pred = differs_from(cmd);
    let filtered = history.filter(pred);
    let promoted = seq![cmd] + filtered;

    lemma_filter_split(history, pred, k);
    reveal_with_fuel(Seq::<_>::filter, 2);
    assert(seq![history[k]].drop_last() =~= Seq::<Seq<char>>::empty());
    assert(seq![history[k]].filter(pred) =~= Seq::<Seq<char>>::empty());
    assert forall|i: int| 0 <= i < history.take(k).len() implies pred(
        #[trigger] history.take(k)[i],
    ) by {
        assert(history.take(k)[i] == history[i]);
    }
    assert forall|i: int| 0 <= i < history.skip(k + 1).len() implies pred(
        #[trigger] history.skip(k + 1)[i],
    ) by {
        assert(history.skip(k + 1)[i] == history[k + 1 + i]);
    }
    lemma_filter_identity(history.take(k), pred);
    lemma_filter_identity(history.skip(k + 1), pred);
    assert(filtered =~= history.remove(k));
    assert(promoted.len() == history.len());
    assert(spec_record(history, cmd, max_len) =~= promoted);
}

/// Recording keeps the history within the cap and, whenever the cap
/// admits anything at all, puts the recorded command first.
pub proof fn lemma_record_bounded(history: Seq<Seq<char>>, cmd: Seq<char>, max_len: nat)
    ensures
        spec_record(history, cmd, max_len).len() <= max_len,
        max_len >= 1 ==> spec_record(history, cmd, max_len)[0] == cmd,
{
}

/// Recording preserves freedom from duplicates.
pub proof fn lemma_record_no_duplicates(history: Seq<Seq<char>>, cmd: Seq<char>, max_len: nat)
    requires
        history.no_duplicates(),
    ensures
        spec_record(history, cmd, max_len).no_duplicates(),
{
    let pred = differs_from(cmd);
    let filtered = history.filter(pred);
    let promoted = seq![cmd] + filtered;
    let result = spec_record(history, cmd, max_len);

    lemma_filter_no_duplicates(history, pred);
    assert forall|i: int, j: int|
        0 <= i < result.len() && 0 <= j < result.len() && i != j implies result[i] != result[j] by {
        if i >= 1 {
            assert(result[i] == filtered[i - 1]);
            history.lemma_filter_pred(pred, i - 1);
        }
        if j >= 1 {
            assert(result[j] == filtered[j - 1]);
            history.lemma_filter_pred(pred, j - 1);
        }
    }
}

/// A filtered sequence of a duplicate-free sequence is duplicate-free.
proof fn lemma_filter_no_duplicates(s: Seq<Seq<char>>, pred: spec_fn(Seq<char>) -> bool)
    requires
        s.no_duplicates(),
    ensures
        s.filter(pred).no_duplicates(),
    decreases s.len(),
{
    reveal_with_fuel(Seq::<_>::filter, 1);
    if s.len() == 0 {
    } else {
        let rest = s.drop_last();
        lemma_filter_no_duplicates(rest, pred);
        if pred(s.last()) {
            assert forall|i: int|
                0 <= i < rest.filter(pred).len() implies rest.filter(pred)[i] != s.last() by {
                lemma_filter_element_in_original(rest, pred, i);
                let k = choose|k: int| 0 <= k < rest.len() && rest[k] == rest.filter(pred)[i];
                assert(s[k] == rest[k]);
                assert(s[k] != s[s.len() - 1]);
            }
            assert(s.filter(pred) =~= rest.filter(pred).push(s.last()));
        }
    }
}

/// Every element of a filtered sequence occurs in the original.
proof fn lemma_filter_element_in_original(s: Seq<Seq<char>>, pred: spec_fn(Seq<char>) -> bool, i: int)
    requires
        0 <= i < s.filter(pred).len(),
    ensures
        s.contains(s.filter(pred)[i]),
    decreases s.len(),
{
    reveal_with_fuel(Seq::<_>::filter, 1);
    let rest = s.drop_last();
    let f = s.filter(pred);
    if pred(s.last()) && i == rest.filter(pred).len() {
        assert(s[s.len() - 1] == f[i]);
    } else {
        lemma_filter_element_in_original(rest, pred, i);
        let k = choose|k: int| 0 <= k < rest.len() && rest[k] == rest.filter(pred)[i];
        assert(s[k] == f[i]);
    }
}

} // verus!
