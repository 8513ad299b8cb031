//! Program index: the names of the executables found on the user's PATH,
//! deduplicated and sorted for display. Scanning the directories is the
//! caller's job; it hands the raw name list in.

use vstd::prelude::*;
use itertools::Itertools;

verus! {

/// Whether a file mode has any execute bit set, the test the PATH scan
/// applies to each directory entry.
pub fn is_executable_mode(mode: u32) -> (r: bool)
    ensures
        r == ((mode & 0o111) != 0),
{
    mode & 0o111 != 0
}

/// Code-point lexicographic order on strings: the order the sorted
/// program index is in.
pub open spec fn lex_leq(a: Seq<char>, b: Seq<char>) -> bool
    decreases a.len(),
{
    if a.len() == 0 {
        true
    } else if b.len() == 0 {
        false
    } else if (a.first() as u32) < (b.first() as u32) {
        true
    } else if (a.first() as u32) > (b.first() as u32) {
        false
    } else {
        lex_leq(a.drop_first(), b.drop_first())
    }
}

/// Relies on itertools' `unique`: elements already produced are filtered
/// out, by hash and equality, keeping the first occurrence of each in
/// order of occurrence — which is what `remove_duplicates` from an empty
/// seen-set yields.
#[verifier::external_body]
fn unique_names(names: Vec<String>) -> (r: Vec<String>)
    ensures
        r.deep_view() == names.deep_view().remove_duplicates(Seq::empty()),
{
    names.into_iter().unique().collect()
}

/// Relies on itertools' `sorted`: the same elements, in ascending `Ord`
/// order. `String` orders lexicographically by byte value, which over
/// UTF-8 text coincides with the code-point order `lex_leq` states.
#[verifier::external_body]
fn sorted_names(names: Vec<String>) -> (r: Vec<String>)
    ensures
        r.deep_view().to_multiset() == names.deep_view().to_multiset(),
        forall|i: int, j: int|
            0 <= i <= j < r.deep_view().len() ==> lex_leq(
                #[trigger] r.deep_view()[i],
                #[trigger] r.deep_view()[j],
            ),
{
    names.into_iter().sorted().collect()
}

/// Build the program index from the names a PATH scan collected: each
/// distinct name once, in ascending order.
pub fn index_programs(names: Vec<String>) -> (r: Vec<String>)
    ensures
        r.deep_view().no_duplicates(),
        forall|x: Seq<char>|
            #[trigger] r.deep_view().contains(x) <==> names.deep_view().contains(x),
        forall|i: int, j: int|
            0 <= i <= j < r.deep_view().len() ==> lex_leq(
                #[trigger] r.deep_view()[i],
                #[trigger] r.deep_view()[j],
            ),
{
    let ghost n = names.deep_view();
    let distinct = unique_names(names);
    let ghost d = distinct.deep_view();
    proof {
        n.lemma_remove_duplicates_properties(Seq::empty());
        assert(n + Seq::<Seq<char>>::empty() =~= n);
        lemma_remove_duplicates_no_duplicates(n, Seq::empty());
        d.lemma_multiset_has_no_duplicates();
    }
    let sorted = sorted_names(distinct);
    let ghost s = sorted.deep_view();
    proof {
        d.to_multiset_ensures();
        s.to_multiset_ensures();
        assert forall|x: Seq<char>| #[trigger] s.contains(x) <==> n.contains(x) by {
            assert(s.contains(x) <==> s.to_multiset().count(x) > 0);
            assert(d.contains(x) <==> d.to_multiset().count(x) > 0);
        }
        assert forall|x: Seq<char>|
            s.to_multiset().contains(x) implies s.to_multiset().count(x) == 1 by {
            assert(d.to_multiset().contains(x) ==> d.to_multiset().count(x) == 1);
        }
        s.lemma_multiset_has_no_duplicates_conv();
    }
    sorted
}

/// From an empty-or-duplicate-free seen-set, `remove_duplicates` yields
/// a duplicate-free sequence.
proof fn lemma_remove_duplicates_no_duplicates(s: Seq<Seq<char>>, seen: Seq<Seq<char>>)
    requires
        seen.no_duplicates(),
    ensures
        s.remove_duplicates(seen).no_duplicates(),
    decreases s.len(),
{
    if s.len() == 0 {
    } else if seen.contains(s[0]) {
        lemma_remove_duplicates_no_duplicates(s.skip(1), seen);
    } else {
        let extended = seen + seq![s[0]];
        assert forall|i: int, j: int|
            0 <= i < extended.len() && 0 <= j < extended.len() && i != j implies extended[i]
            != extended[j] by {
            if i < extended.len() - 1 && j < extended.len() - 1 {
                assert(extended[i] == seen[i]);
                assert(extended[j] == seen[j]);
            } else if i == extended.len() - 1 {
                assert(extended[j] == seen[j]);
                assert(seen.contains(seen[j]));
            } else {
                assert(extended[i] == seen[i]);
                assert(seen.contains(seen[i]));
            }
        }
        lemma_remove_duplicates_no_duplicates(s.skip(1), extended);
    }
}

} // verus!
