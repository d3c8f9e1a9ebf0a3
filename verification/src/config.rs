use vstd::prelude::*;

verus! {

use vstd::string::StringExecFns;

/// Name of the database holding the quiz collection.
pub const DB_NAME: &'static str = "quizzbuzz";

/// Name of the single collection the repository targets.
pub const COLL: &'static str = "quiz";

/// Application name reported to the store for server-side observability.
pub const APP_NAME: &'static str = "quizzbuzz";

/// How many entries a listing of the most recently added quizzes returns.
pub const RECENT_LIMIT: usize = 8;

/// The fixed literal tag whose documents the bulk maintenance delete removes.
pub const MAINTENANCE_TAG: &'static str = "funner";

/// Query options appended to every connection string: retryable writes and
/// majority write concern.
pub const URI_OPTIONS: &'static str = "?retryWrites=true&w=majority";

/// The full connection string for a base URI: the base with the fixed
/// options appended.
pub fn connection_string(base: &str) -> (r: String)
    ensures
        r@ == base@ + URI_OPTIONS@,
{
    String::from_str(base).concat(URI_OPTIONS)
}

} // verus!
