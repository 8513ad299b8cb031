//! Results search: the text typed into the entry filters the bookmarks,
//! the history and the program index by substring match, with a fixed cap
//! on how many history and program matches are shown.

use vstd::prelude::*;
use vstd::math::min;
use crate::seqs::lemma_filter_take_step;

verus! {

/// How many matching history entries a search shows at most.
pub const HISTORY_MATCH_LIMIT: usize = 5;

/// How many matching programs a search shows at most.
pub const PROGRAM_MATCH_LIMIT: usize = 10;

/// Whether `needle` occurs contiguously inside `hay`.
pub open spec fn spec_contains_str(hay: Seq<char>, needle: Seq<char>) -> bool {
    exists|k: int|
        0 <= k <= hay.len() - needle.len() && #[trigger] hay.subrange(k, k + needle.len() as int)
            == needle
}

/// The predicate a search keeps: entries with the query as a substring.
pub open spec fn matches_query(query: Seq<char>) -> spec_fn(Seq<char>) -> bool {
    |entry: Seq<char>| spec_contains_str(entry, query)
}

/// The first `cap` entries of `list` that contain `query`, in list order.
pub open spec fn spec_matches_capped(list: Seq<Seq<char>>, query: Seq<char>, cap: nat) -> Seq<
    Seq<char>,
> {
    let matched = list.filter(matches_query(query));
    matched.take(min(cap as int, matched.len() as int))
}

/// Whether `needle` occurs contiguously inside `hay`.
pub fn contains_str(hay: &str, needle: &str) -> (r: bool)
    ensures
        r == spec_contains_str(hay@, needle@),
{
    let hay_len = hay.unicode_len();
    let needle_len = needle.unicode_len();
    if needle_len > hay_len {
        assert(!spec_contains_str(hay@, needle@));
        return false;
    }
    if needle_len == 0 {
        assert(spec_contains_str(hay@, needle@)) by {
            assert(hay@.subrange(0, 0 + needle@.len() as int) =~= needle@);
        }
        return true;
    }
    let mut k: usize = 0;
    while k <= hay_len - needle_len
        invariant
            0 <= k <= hay_len - needle_len + 1,
            1 <= needle_len <= hay_len,
            hay_len == hay@.len(),
            needle_len == needle@.len(),
            forall|k2: int|
                0 <= k2 < k ==> #[trigger] hay@.subrange(k2, k2 + needle@.len() as int)
                    != needle@,
        decreases hay_len - needle_len + 1 - k,
    {
        if match_at(hay, needle, k) {
            return true;
        }
        k = k + 1;
    }
    assert forall|k2: int|
        0 <= k2 <= hay@.len() - needle@.len() implies #[trigger] hay@.subrange(
        k2,
        k2 + needle@.len() as int,
    ) != needle@ by {}
    false
}

/// Whether `needle` matches `hay` starting at position `k`.
fn match_at(hay: &str, needle: &str, k: usize) -> (r: bool)
    requires
        k + needle@.len() <= hay@.len(),
        k + needle@.len() <= usize::MAX,
    ensures
        r == (hay@.subrange(k as int, k as int + needle@.len() as int) == needle@),
{
    let needle_len = needle.unicode_len();
    let ghost window = hay@.subrange(k as int, k as int + needle@.len() as int);
    let mut j: usize = 0;
    while j < needle_len
        invariant
            0 <= j <= needle_len,
            k + needle@.len() <= hay@.len(),
            k + needle@.len() <= usize::MAX,
            needle_len == needle@.len(),
            window == hay@.subrange(k as int, k as int + needle@.len() as int),
            forall|j2: int| 0 <= j2 < j ==> #[trigger] window[j2] == needle@[j2],
        decreases needle_len - j,
    {
        let hc = hay.get_char(k + j);
        let nc = needle.get_char(j);
        if hc != nc {
            assert(window[j as int] != needle@[j as int]);
            return false;
        }
        j = j + 1;
    }
    assert(window =~= needle@);
    true
}

/// Collect, in order, the first `cap` entries of `list` that contain
/// `query` as a substring.
pub fn filter_matching(list: &Vec<String>, query: &String, cap: usize) -> (r: Vec<String>)
    ensures
        r.deep_view() == spec_matches_capped(list.deep_view(), query.deep_view(), cap as nat),
{
    let ghost l = list.deep_view();
    let ghost q = query.deep_view();
    let ghost pred = matches_query(q);
    let ghost matched = l.filter(pred);

    let mut out: Vec<String> = Vec::new();
    let mut i: usize = 0;
    assert(l.take(0) =~= Seq::<Seq<char>>::empty());
    assert(out.deep_view() =~= l.take(0).filter(pred)) by {
        reveal_with_fuel(Seq::<_>::filter, 1);
    }
    while i < list.len() && out.len() < cap
        invariant
            i <= list.len(),
            l == list.deep_view(),
            q == query.deep_view(),
            pred == matches_query(q),
            matched == l.filter(pred),
            out@.len() <= cap,
            out.deep_view() == l.take(i as int).filter(pred),
        decreases list.len() - i,
    {
        let entry = &list[i];
        let is_match = contains_str(entry.as_str(), query.as_str());
        proof {
            lemma_filter_take_step(l, pred, i as int);
            assert(entry.deep_view() == l[i as int]);
            assert(is_match == pred(l[i as int]));
        }
        if is_match {
            let ghost before = out.deep_view();
            out.push(entry.clone());
            assert(out.deep_view() =~= before.push(l[i as int]));
        }
        i = i + 1;
    }
    proof {
        if out@.len() == cap {
            lemma_take_of_prefix(l, pred, i as int, cap as int);
        } else {
            assert(i == list.len());
            assert(l.take(l.len() as int) =~= l);
            assert(out.deep_view() == matched);
            assert(matched.take(min(cap as int, matched.len() as int)) =~= matched);
        }
    }
    out
}

/// All the entries of `list` that contain `query`, in list order.
pub open spec fn spec_matches(list: Seq<Seq<char>>, query: Seq<char>) -> Seq<Seq<char>> {
    list.filter(matches_query(query))
}

/// One search's result rows, per section: every matching bookmark, the
/// first few matching history entries, the first few matching programs.
pub struct SearchResults {
    pub bookmarks: Vec<String>,
    pub history: Vec<String>,
    pub programs: Vec<String>,
}

/// Filter the three lists by the entry text. An empty query clears the
/// results instead of matching everything.
pub fn search_all(
    bookmarks: &Vec<String>,
    history: &Vec<String>,
    programs: &Vec<String>,
    query: &String,
) -> (r: SearchResults)
    ensures
        query.deep_view().len() == 0 ==> {
            &&& r.bookmarks.deep_view() == Seq::<Seq<char>>::empty()
            &&& r.history.deep_view() == Seq::<Seq<char>>::empty()
            &&& r.programs.deep_view() == Seq::<Seq<char>>::empty()
        },
        query.deep_view().len() > 0 ==> {
            &&& r.bookmarks.deep_view() == spec_matches(bookmarks.deep_view(), query.deep_view())
            &&& r.history.deep_view() == spec_matches_capped(
                history.deep_view(),
                query.deep_view(),
                HISTORY_MATCH_LIMIT as nat,
            )
            &&& r.programs.deep_view() == spec_matches_capped(
                programs.deep_view(),
                query.deep_view(),
                PROGRAM_MATCH_LIMIT as nat,
            )
        },
{
    if query.as_str().unicode_len() == 0 {
        let r = SearchResults { bookmarks: Vec::new(), history: Vec::new(), programs: Vec::new() };
        assert(r.bookmarks.deep_view() =~= Seq::<Seq<char>>::empty());
        assert(r.history.deep_view() =~= Seq::<Seq<char>>::empty());
        assert(r.programs.deep_view() =~= Seq::<Seq<char>>::empty());
        r
    } else {
        let matched_bookmarks = filter_matching(bookmarks, query, bookmarks.len());
        proof {
            let l = bookmarks.deep_view();
            let matched = l.filter(matches_query(query.deep_view()));
            l.lemma_filter_len(matches_query(query.deep_view()));
            assert(matched.take(min(l.len() as int, matched.len() as int)) =~= matched);
        }
        SearchResults {
            bookmarks: matched_bookmarks,
            history: filter_matching(history, query, HISTORY_MATCH_LIMIT),
            programs: filter_matching(programs, query, PROGRAM_MATCH_LIMIT),
        }
    }
}

/// Once the filtered prefix has reached the cap, it is exactly the
/// capped filtered whole: the remainder of the list adds nothing.
proof fn lemma_take_of_prefix(s: Seq<Seq<char>>, pred: spec_fn(Seq<char>) -> bool, i: int, cap: int)
    requires
        0 <= i <= s.len(),
        s.take(i).filter(pred).len() == cap,
    ensures
        s.filter(pred).take(min(cap, s.filter(pred).len() as int)) == s.take(i).filter(pred),
{
    assert(s =~= s.take(i) + s.skip(i));
    Seq::filter_distributes_over_add(s.take(i), s.skip(i), pred);
    assert(s.filter(pred).len() >= cap);
    assert(min(cap, s.filter(pred).len() as int) == cap);
    assert(s.filter(pred).take(cap) =~= s.take(i).filter(pred));
}

} // verus!
