//! Command source resolution: given a run intent's source and the two
//! lookups the presentation layer provides (selected row text, entry text),
//! determine the literal command string to execute, if any.

use vstd::prelude::*;

verus! {

/// Where the command text of a run intent comes from.
#[derive(Clone, Copy, PartialEq, Eq, Structural, Debug)]
pub enum CommandSource {
    /// The currently selected, visible list row; the flag permits falling
    /// back to the entry text when no row is selected.
    ListSelection(bool),
    /// The literal entry text.
    Entry,
}

/// What the entry text resolves to: the text itself, unless it is empty.
pub open spec fn spec_resolve_entry(entry: Option<Seq<char>>) -> Option<Seq<char>> {
    match entry {
        Some(e) => if e.len() > 0 { Some(e) } else { None },
        None => None,
    }
}

/// What a source resolves to, given the selection and entry lookups:
/// a selection always wins; the entry is consulted for `Entry` and, when
/// the fallback flag is set, for a selection-less `ListSelection`.
pub open spec fn spec_resolve(
    source: CommandSource,
    selection: Option<Seq<char>>,
    entry: Option<Seq<char>>,
) -> Option<Seq<char>> {
    match source {
        CommandSource::ListSelection(fallback) => match selection {
            Some(s) => Some(s),
            None => if fallback { spec_resolve_entry(entry) } else { None },
        },
        CommandSource::Entry => spec_resolve_entry(entry),
    }
}

/// Resolve a run intent's source to the command string to execute, or
/// `None` when nothing is selected and no fallback applies: that is a
/// quiescent outcome, not an error.
pub fn resolve(
    source: CommandSource,
    selection: &Option<String>,
    entry: &Option<String>,
) -> (r: Option<String>)
    ensures
        r.deep_view() == spec_resolve(source, selection.deep_view(), entry.deep_view()),
{
    match source {
        CommandSource::ListSelection(fallback) => match selection {
            Some(s) => Some(s.clone()),
            None => if fallback { resolve_entry(entry) } else { None },
        },
        CommandSource::Entry => resolve_entry(entry),
    }
}

/// Resolve the entry text alone: its contents, unless empty.
fn resolve_entry(entry: &Option<String>) -> (r: Option<String>)
    ensures
        r.deep_view() == spec_resolve_entry(entry.deep_view()),
{
    match entry {
        Some(e) => {
            if e.as_str().unicode_len() > 0 {
                Some(e.clone())
            } else {
                None
            }
        },
        None => None,
    }
}

} // verus!
