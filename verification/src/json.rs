//! Lists of names in JSON.
use vstd::prelude::*;

#[allow(unused_imports)]
use crate::geometry_types::plain;
#[allow(unused_imports)]
use crate::text::{join, string_views};

verus! {

/// A text in double quotes.
pub open spec fn in_quotes(s: Seq<char>) -> Seq<char> {
    "\""@ + s + "\""@
}

/// A list of texts as JSON without spaces: `["a","b"]`.
pub open spec fn list_text(names: Seq<Seq<char>>) -> Seq<char> {
    "["@ + join(names.map_values(|n: Seq<char>| in_quotes(n)), ","@) + "]"@
}

/// Whether every text can stand in a JSON string as it is.
pub open spec fn all_plain(names: Seq<Seq<char>>) -> bool {
    forall|i: int| 0 <= i < names.len() ==> plain(#[trigger] names[i])
}

/// Calls `serde_json::to_string` on a list of strings. The contract claims
/// that texts which need no escaping are written in quotes, with commas
/// between them and brackets around them, and that this does not fail.
#[verifier::external_body]
pub(crate) fn write_list(names: &Vec<String>) -> (r: Result<String, String>)
    requires
        all_plain(string_views(names@)),
    ensures
        r is Ok,
        r->Ok_0@ == list_text(string_views(names@)),
{
    serde_json::to_string(names).map_err(|e| e.to_string())
}

/// What `serde_json` reads a text as that should be a list of strings, or what
/// it says is wrong with it.
pub uninterp spec fn json_list(text: Seq<char>) -> Result<Seq<Seq<char>>, Seq<char>>;

/// Calls `serde_json::from_str` for a list of strings. The contract claims
/// that the outcome depends on the text alone, and that the list of texts that
/// need no escaping is read back as it was written. What other texts are read
/// as is left unsaid.
#[verifier::external_body]
pub(crate) fn read_list(text: &str) -> (r: Result<Vec<String>, String>)
    ensures
        match r {
            Ok(names) => json_list(text@) == Ok::<Seq<Seq<char>>, Seq<char>>(
                string_views(names@),
            ),
            Err(e) => json_list(text@) == Err::<Seq<Seq<char>>, Seq<char>>(e@),
        },
        forall|names: Seq<Seq<char>>|
            all_plain(names) && text@ == #[trigger] list_text(names) ==> r is Ok && string_views(
                r->Ok_0@,
            ) == names,
{
    serde_json::from_str::<Vec<String>>(text).map_err(|e| e.to_string())
}

} // verus!
