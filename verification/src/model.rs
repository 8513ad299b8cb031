//! The session model: the three lists the launcher shows and the state
//! transitions the presentation layer drives. The presentation layer
//! holds one `Model`, calls these methods on each user intent, and then
//! persists or re-renders from the returned state; nothing else mutates
//! the lists.

use vstd::prelude::*;
use crate::history::{record, spec_record, HISTORY_MAXLEN};
use crate::policy::RunOptions;
use crate::search::{search_all, SearchResults};

verus! {

/// The in-memory state of one launcher session.
pub struct Model {
    /// User-curated command list, loaded once and never written back.
    pub bookmarks: Vec<String>,
    /// Recently run commands, most recent first.
    pub history: Vec<String>,
    /// Names of the executables on the user's PATH.
    pub programs: Vec<String>,
    /// Whether the next entry edit should bring the results page forward.
    pub focus_results_page: bool,
}

impl Model {
    /// Start a session from the loaded lists. A list whose file could
    /// not be read arrives here as the empty list; that is the caller's
    /// degradation, not a failure of this constructor.
    pub fn new(bookmarks: Vec<String>, history: Vec<String>, programs: Vec<String>) -> (r: Model)
        ensures
            r.bookmarks == bookmarks,
            r.history == history,
            r.programs == programs,
            r.focus_results_page,
    {
        Model { bookmarks, history, programs, focus_results_page: true }
    }

    /// Account for a launched command: when the options ask for it, the
    /// history is re-recorded under the cap, and the caller owes a flush
    /// to the history store; otherwise nothing changes.
    ///
    /// Call this only after the launch itself succeeded: a failed launch
    /// is never recorded.
    pub fn commit_run(&mut self, cmd: &String, opts: RunOptions) -> (persist: bool)
        ensures
            persist == opts.record,
            opts.record ==> final(self).history.deep_view() == spec_record(
                old(self).history.deep_view(),
                cmd.deep_view(),
                HISTORY_MAXLEN as nat,
            ),
            !opts.record ==> final(self).history == old(self).history,
            final(self).bookmarks == old(self).bookmarks,
            final(self).programs == old(self).programs,
            final(self).focus_results_page == old(self).focus_results_page,
    {
        if opts.record {
            let new_history = record(&self.history, cmd, HISTORY_MAXLEN);
            self.history = new_history;
            true
        } else {
            false
        }
    }

    /// Drop the history entry at `index`, as the delete gesture on a
    /// history row does; the caller owes a flush to the history store.
    pub fn remove_history_entry(&mut self, index: usize)
        requires
            index < old(self).history@.len(),
        ensures
            final(self).history.deep_view() == old(self).history.deep_view().remove(index as int),
            final(self).bookmarks == old(self).bookmarks,
            final(self).programs == old(self).programs,
            final(self).focus_results_page == old(self).focus_results_page,
    {
        let ghost before = self.history.deep_view();
        self.history.remove(index);
        assert(self.history.deep_view() =~= before.remove(index as int));
    }

    /// Account for an edit of the entry text: the first edit of a
    /// session asks the caller to bring the results page forward, later
    /// ones do not.
    pub fn note_input_changed(&mut self) -> (switch_to_results: bool)
        ensures
            switch_to_results == old(self).focus_results_page,
            !final(self).focus_results_page,
            final(self).bookmarks == old(self).bookmarks,
            final(self).history == old(self).history,
            final(self).programs == old(self).programs,
    {
        let switch = self.focus_results_page;
        self.focus_results_page = false;
        switch
    }

    /// The result rows for the current entry text, filtered from the
    /// three lists.
    pub fn results_for(&self, query: &String) -> (r: SearchResults)
        ensures
            query.deep_view().len() == 0 ==> {
                &&& r.bookmarks.deep_view() == Seq::<Seq<char>>::empty()
                &&& r.history.deep_view() == Seq::<Seq<char>>::empty()
                &&& r.programs.deep_view() == Seq::<Seq<char>>::empty()
            },
            query.deep_view().len() > 0 ==> {
                &&& r.bookmarks.deep_view() == crate::search::spec_matches(
                    self.bookmarks.deep_view(),
                    query.deep_view(),
                )
                &&& r.history.deep_view() == crate::search::spec_matches_capped(
                    self.history.deep_view(),
                    query.deep_view(),
                    crate::search::HISTORY_MATCH_LIMIT as nat,
                )
                &&& r.programs.deep_view() == crate::search::spec_matches_capped(
                    self.programs.deep_view(),
                    query.deep_view(),
                    crate::search::PROGRAM_MATCH_LIMIT as nat,
                )
            },
    {
        search_all(&self.bookmarks, &self.history, &self.programs, query)
    }
}

} // verus!
