//! The errors of the library.
use vstd::prelude::*;

use crate::text::{decimal, decimal_string};

verus! {

/// Why an operation of the library failed.
#[derive(Debug)]
pub enum RecallError {
    /// SQLite or `rusqlite` reported an error.
    Database(rusqlite::Error),
    /// The index was built with another model or dimension than the current
    /// one; re-indexing with `force` replaces its embeddings.
    ModelMismatch { stored_model: String, stored_dims: usize, model: String, dims: usize },
}

/// The explanation of a refused model check: the recorded and the current
/// model and dimension, and how to re-index.
pub open spec fn mismatch_text(
    stored_model: Seq<char>,
    stored_dims: usize,
    model: Seq<char>,
    dims: usize,
) -> Seq<char> {
    "Index was built with model '"@ + stored_model + "' ("@ + decimal(stored_dims as nat)
        + "d) but you're using '"@ + model + "' ("@ + decimal(dims as nat)
        + "d).\nRun `atomic-recall index --force` to re-embed with the new model."@
}

/// Writes the explanation of a refused model check.
pub fn mismatch_message(stored_model: &str, stored_dims: usize, model: &str, dims: usize) -> (s:
    String)
    ensures
        s@ == mismatch_text(stored_model@, stored_dims, model@, dims),
{
    let mut s = String::new();
    s.append("Index was built with model '");
    s.append(stored_model);
    s.append("' (");
    s.append(decimal_string(stored_dims).as_str());
    s.append("d) but you're using '");
    s.append(model);
    s.append("' (");
    s.append(decimal_string(dims).as_str());
    s.append("d).\nRun `atomic-recall index --force` to re-embed with the new model.");
    proof {
        assert(s@ =~= mismatch_text(stored_model@, stored_dims, model@, dims));
    }
    s
}

} // verus!
