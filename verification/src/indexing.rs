//! The decisions of an indexing run over the change history.
use vstd::prelude::*;

use crate::text::{decimal, decimal_string};

verus! {

/// Whether a change must be embedded: always when re-indexing is forced,
/// else only when it is not indexed yet.
pub fn needs_embedding(force: bool, already_indexed: bool) -> (r: bool)
    ensures
        r == (force || !already_indexed),
{
    force || !already_indexed
}

/// The counts of an indexing run.
#[derive(Debug)]
pub struct IndexTally {
    /// Changes embedded and stored in this run.
    pub indexed: usize,
    /// Changes that were already indexed.
    pub skipped: usize,
    /// Changes whose embedding failed.
    pub errors: usize,
}

impl IndexTally {
    /// How many changes the run has gone through.
    pub open spec fn seen(&self) -> int {
        self.indexed + self.skipped + self.errors
    }

    /// A run that has gone through no change yet.
    pub fn new() -> (t: IndexTally)
        ensures
            t.indexed == 0 && t.skipped == 0 && t.errors == 0,
    {
        IndexTally { indexed: 0, skipped: 0, errors: 0 }
    }

    /// Counts a change that was embedded and stored.
    pub fn count_indexed(&mut self)
        requires
            old(self).seen() < usize::MAX,
        ensures
            final(self).indexed == old(self).indexed + 1,
            final(self).skipped == old(self).skipped,
            final(self).errors == old(self).errors,
    {
        self.indexed = self.indexed + 1;
    }

    /// Counts a change that was already indexed.
    pub fn count_skipped(&mut self)
        requires
            old(self).seen() < usize::MAX,
        ensures
            final(self).indexed == old(self).indexed,
            final(self).skipped == old(self).skipped + 1,
            final(self).errors == old(self).errors,
    {
        self.skipped = self.skipped + 1;
    }

    /// Counts a change whose embedding failed.
    pub fn count_error(&mut self)
        requires
            old(self).seen() < usize::MAX,
        ensures
            final(self).indexed == old(self).indexed,
            final(self).skipped == old(self).skipped,
            final(self).errors == old(self).errors + 1,
    {
        self.errors = self.errors + 1;
    }

    /// The closing line of a run.
    pub open spec fn summary_text(&self) -> Seq<char> {
        "Done. "@ + decimal(self.indexed as nat) + " indexed, "@ + decimal(self.skipped as nat)
            + " already up to date"@ + (if self.errors > 0 {
            ", "@ + decimal(self.errors as nat) + " errors"@
        } else {
            seq![]
        }) + "."@
    }

    /// The closing line of a run: what was indexed, what was up to date and,
    /// if any, how many changes failed.
    pub fn summary(&self) -> (s: String)
        ensures
            s@ == self.summary_text(),
    {
        let mut s = String::new();
        s.append("Done. ");
        s.append(decimal_string(self.indexed).as_str());
        s.append(" indexed, ");
        s.append(decimal_string(self.skipped).as_str());
        s.append(" already up to date");
        if self.errors > 0 {
            s.append(", ");
            s.append(decimal_string(self.errors).as_str());
            s.append(" errors");
        }
        s.append(".");
        assert(s@ =~= self.summary_text());
        s
    }
}

} // verus!
