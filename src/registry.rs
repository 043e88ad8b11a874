use vstd::prelude::*;
use crate::text::{chars_of, eq_chars};

verus! {

/// The MIME subtype registered for a content kind, if any. Lookup is exact and
/// case-sensitive.
pub open spec fn subtype_of(kind: Seq<char>) -> Option<Seq<char>> {
    if kind == "jinja2"@ {
        Some("text/jinja2; charset=\"utf8\""@)
    } else {
        None
    }
}

/// Looks up the MIME subtype of a content kind.
pub fn resolve_subtype(kind: &str) -> (r: Option<&'static str>)
    ensures
        r is None <==> subtype_of(kind@) is None,
        r is Some ==> subtype_of(kind@) == Some(r->0@),
{
    let k = chars_of(kind);
    let jinja2 = chars_of("jinja2");
    if eq_chars(&k, &jinja2) {
        Some("text/jinja2; charset=\"utf8\"")
    } else {
        None
    }
}

} // verus!
