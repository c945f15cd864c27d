//! The persisted input history: one entry per accepted line, in order.
//!
//! The store itself is plain data; reading and writing the history file is
//! the session runner's business. At session start the runner loads the
//! file's lines (a missing file is simply an empty history), every accepted
//! input line is appended, and at session end the entries are written back,
//! so a reloaded history holds exactly the lines that were saved, in entry
//! order and without duplication.

use vstd::prelude::*;

verus! {

/// The history of accepted input lines, oldest first.
pub struct HistoryStore {
    entries: Vec<String>,
}

impl HistoryStore {
    /// The entries, oldest first.
    pub closed spec fn entries_view(self) -> Seq<Seq<char>> {
        self.entries.deep_view()
    }

    /// An empty history, for a first session with no persisted file.
    pub fn new() -> (h: HistoryStore)
        ensures
            h.entries_view() == Seq::<Seq<char>>::empty(),
    {
        let h = HistoryStore { entries: Vec::new() };
        proof {
            assert(h.entries_view() =~= Seq::<Seq<char>>::empty());
        }
        h
    }

    /// Loads a persisted history: the saved lines become the entries,
    /// exactly and in order, so reloading what `lines` handed out restores
    /// the history without duplicating anything.
    pub fn from_lines(lines: Vec<String>) -> (h: HistoryStore)
        ensures
            h.entries_view() == lines.deep_view(),
    {
        HistoryStore { entries: lines }
    }

    /// Appends one accepted input line as the newest entry.
    pub fn append(&mut self, line: String)
        ensures
            final(self).entries_view() == old(self).entries_view().push(line@),
    {
        let ghost l = line@;
        self.entries.push(line);
        proof {
            assert(final(self).entries_view() =~= old(self).entries_view().push(l));
        }
    }

    /// The entries to persist, oldest first.
    pub fn lines(&self) -> (r: &Vec<String>)
        ensures
            r.deep_view() == self.entries_view(),
    {
        &self.entries
    }

    /// How many entries the history holds.
    pub fn len(&self) -> (n: usize)
        ensures
            n == self.entries_view().len(),
    {
        self.entries.len()
    }
}

/// The fixed location of the history file under the user's home directory.
pub fn history_path_for(home: &str) -> (r: String)
    ensures
        r@ == home@ + "/.dbase-sql/history.txt"@,
{
    String::from_str(home).concat("/.dbase-sql/history.txt")
}

} // verus!
