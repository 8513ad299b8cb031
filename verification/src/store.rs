//! Persisted list store, minus the file system: the codec between a list
//! of command strings and the newline-terminated text kept on disk, and
//! the identity of the two stores. Reading and writing the files is the
//! caller's job; it hands the raw text in and takes the encoded text out.

use vstd::prelude::*;

verus! {

/// The two persisted lists: bookmarks are read-only for the application,
/// history is read-write.
#[derive(Clone, Copy, PartialEq, Eq, Structural, Debug)]
pub enum FileStore {
    Bookmarks,
    History,
}

impl FileStore {
    /// Path of this store's file, relative to the user's home directory.
    pub fn rel_path(&self) -> (r: &'static str)
        ensures
            *self == FileStore::Bookmarks ==> r@ == ".config/influence/bookmarks.txt"@,
            *self == FileStore::History ==> r@ == ".config/influence/history.txt"@,
    {
        match self {
            FileStore::Bookmarks => ".config/influence/bookmarks.txt",
            FileStore::History => ".config/influence/history.txt",
        }
    }
}

/// The text that a list is persisted as: each entry followed by a
/// newline, in list order, with no trailing ambiguity.
pub open spec fn spec_encode(list: Seq<Seq<char>>) -> Seq<char>
    decreases list.len(),
{
    if list.len() == 0 {
        Seq::empty()
    } else {
        list.first() + seq!['\n'] + spec_encode(list.drop_first())
    }
}

/// Index of the first newline in `text`, or -1 if there is none.
pub open spec fn spec_first_newline(text: Seq<char>) -> int
    decreases text.len(),
{
    if text.len() == 0 {
        -1
    } else if text.first() == '\n' {
        0
    } else {
        let rest = spec_first_newline(text.drop_first());
        if rest < 0 {
            -1
        } else {
            rest + 1
        }
    }
}

/// The list a persisted text decodes to: split at each newline, in text
/// order; a final newline terminates the last entry rather than opening
/// an empty one.
pub open spec fn spec_decode(text: Seq<char>) -> Seq<Seq<char>>
    decreases text.len(),
    via spec_decode_decreases
{
    if text.len() == 0 {
        Seq::empty()
    } else {
        let nl = spec_first_newline(text);
        if nl < 0 {
            seq![text]
        } else {
            seq![text.take(nl)] + spec_decode(text.skip(nl + 1))
        }
    }
}

#[via_fn]
proof fn spec_decode_decreases(text: Seq<char>) {
    lemma_first_newline_bounds(text);
}

/// `spec_first_newline` finds a newline wherever one exists.
pub proof fn lemma_first_newline_bounds(text: Seq<char>)
    ensures
        -1 <= spec_first_newline(text) < text.len(),
        spec_first_newline(text) >= 0 ==> text[spec_first_newline(text)] == '\n',
        forall|j: int|
            0 <= j < text.len() && #[trigger] text[j] == '\n' ==> 0 <= spec_first_newline(text)
                <= j,
    decreases text.len(),
{
    if text.len() == 0 {
    } else if text.first() == '\n' {
    } else {
        lemma_first_newline_bounds(text.drop_first());
        let rest = spec_first_newline(text.drop_first());
        assert forall|j: int|
            0 <= j < text.len() && #[trigger] text[j] == '\n' implies 0 <= spec_first_newline(text)
            <= j by {
            assert(j != 0);
            assert(text.drop_first()[j - 1] == '\n');
        }
    }
}

/// Encode a list as newline-terminated text, one entry per line.
pub fn encode_list(list: &Vec<String>) -> (r: String)
    ensures
        r@ == spec_encode(list.deep_view()),
{
    let ghost l = list.deep_view();
    let mut out = String::new();
    let mut i: usize = 0;
    assert(l.take(0) =~= Seq::<Seq<char>>::empty());
    while i < list.len()
        invariant
            i <= list.len(),
            l == list.deep_view(),
            out@ == spec_encode(l.take(i as int)),
        decreases list.len() - i,
    {
        proof {
            reveal_strlit("\n");
            lemma_encode_append(l.take(i as int), l[i as int]);
            assert(l.take(i as int).push(l[i as int]) =~= l.take(i + 1));
        }
        out.append(list[i].as_str());
        out.append("\n");
        i = i + 1;
    }
    assert(l.take(l.len() as int) =~= l);
    out
}

/// Appending one entry to a list appends its line to the encoding.
proof fn lemma_encode_append(list: Seq<Seq<char>>, entry: Seq<char>)
    ensures
        spec_encode(list.push(entry)) == spec_encode(list) + entry + seq!['\n'],
    decreases list.len(),
{
    reveal_with_fuel(spec_encode, 3);
    if list.len() == 0 {
        assert(list.push(entry).drop_first() =~= Seq::<Seq<char>>::empty());
        assert(spec_encode(list.push(entry)) =~= spec_encode(list) + entry + seq!['\n']);
    } else {
        lemma_encode_append(list.drop_first(), entry);
        assert(list.push(entry).drop_first() =~= list.drop_first().push(entry));
        assert(list.push(entry).first() == list.first());
        assert(spec_encode(list.push(entry)) =~= spec_encode(list) + entry + seq!['\n']);
    }
}

/// Decode persisted text into its list of entries, splitting at each
/// newline; read failure is the caller's concern, not this function's.
pub fn decode_list(text: &str) -> (r: Vec<String>)
    ensures
        r.deep_view() == spec_decode(text@),
{
    let ghost t = text@;
    let mut out: Vec<String> = Vec::new();
    let len = text.unicode_len();
    let mut start: usize = 0;
    let mut i: usize = 0;
    assert(out.deep_view() =~= Seq::<Seq<char>>::empty());
    assert(t.skip(0) =~= t);
    assert(out.deep_view() + spec_decode(t) =~= spec_decode(t));
    while i < len
        invariant
            0 <= start <= i <= len,
            t == text@,
            len == t.len(),
            forall|j: int| start <= j < i ==> t[j] != '\n',
            spec_decode(t) == out.deep_view() + spec_decode(t.skip(start as int)),
        decreases len - i,
    {
        let c = text.get_char(i);
        if c == '\n' {
            let line = text.substring_char(start, i).to_owned();
            proof {
                lemma_decode_head(t, start as int, i as int);
            }
            let ghost before = out.deep_view();
            out.push(line);
            assert(out.deep_view() =~= before.push(t.subrange(start as int, i as int)));
            start = i + 1;
        }
        i = i + 1;
    }
    if start < len {
        let line = text.substring_char(start, len).to_owned();
        proof {
            lemma_decode_tail(t, start as int);
        }
        let ghost before = out.deep_view();
        out.push(line);
        assert(out.deep_view() =~= before.push(t.subrange(start as int, len as int)));
        assert(t.subrange(start as int, len as int) =~= t.skip(start as int));
    } else {
        assert(t.skip(start as int) =~= Seq::<char>::empty());
    }
    out
}

/// When the scan reaches a newline, the first pending line is exactly
/// the text between `start` and that newline.
proof fn lemma_decode_head(t: Seq<char>, start: int, i: int)
    requires
        0 <= start <= i < t.len(),
        t[i] == '\n',
        forall|j: int| start <= j < i ==> t[j] != '\n',
    ensures
        spec_decode(t.skip(start)) == seq![t.subrange(start, i)] + spec_decode(t.skip(i + 1)),
{
    let rest = t.skip(start);
    lemma_first_newline_bounds(rest);
    assert(rest[i - start] == '\n');
    assert forall|j: int| 0 <= j < i - start implies rest[j] != '\n' by {
        assert(t[start + j] != '\n');
    }
    let nl = spec_first_newline(rest);
    assert(0 <= nl <= i - start);
    assert(nl == i - start) by {
        if nl < i - start {
            assert(rest[nl] == '\n');
            assert(t[start + nl] == '\n');
        }
    }
    assert(rest.len() > 0);
    assert(rest.take(nl) =~= t.subrange(start, i));
    assert(rest.skip(nl + 1) =~= t.skip(i + 1));
}

/// A non-empty tail without newlines decodes to a single entry.
proof fn lemma_decode_tail(t: Seq<char>, start: int)
    requires
        0 <= start < t.len(),
        forall|j: int| start <= j < t.len() ==> t[j] != '\n',
    ensures
        spec_decode(t.skip(start)) == seq![t.skip(start)],
{
    let rest = t.skip(start);
    lemma_first_newline_bounds(rest);
    let nl = spec_first_newline(rest);
    if nl >= 0 {
        assert(rest[nl] == '\n');
        assert(t[start + nl] == '\n');
    }
}

/// Round trip: encoding a list and decoding the text gives the list
/// back, for any list whose entries contain no newline characters.
pub proof fn lemma_round_trip(list: Seq<Seq<char>>)
    requires
        forall|i: int, j: int|
            0 <= i < list.len() && 0 <= j < list[i].len() ==> #[trigger] list[i][j] != '\n',
    ensures
        spec_decode(spec_encode(list)) == list,
    decreases list.len(),
{
    if list.len() == 0 {
    } else {
        let head = list.first();
        let rest = list.drop_first();
        let encoded = spec_encode(list);
        assert(encoded == head + seq!['\n'] + spec_encode(rest));
        assert(encoded.len() > 0);

        lemma_first_newline_bounds(encoded);
        assert(encoded[head.len() as int] == '\n');
        assert forall|j: int| 0 <= j < head.len() implies encoded[j] != '\n' by {
            assert(encoded[j] == head[j]);
            assert(list[0] == head);
        }
        let nl = spec_first_newline(encoded);
        assert(0 <= nl <= head.len());
        assert(nl == head.len()) by {
            if nl < head.len() {
                assert(encoded[nl] == '\n');
            }
        }
        assert(encoded.take(nl) =~= head);
        assert(encoded.skip(nl + 1) =~= spec_encode(rest));

        assert forall|i: int, j: int|
            0 <= i < rest.len() && 0 <= j < rest[i].len() implies #[trigger] rest[i][j]
            != '\n' by {
            assert(rest[i] == list[i + 1]);
        }
        lemma_round_trip(rest);
        assert(seq![head] + rest =~= list);
    }
}

} // verus!
