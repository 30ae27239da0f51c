use vstd::prelude::*;

verus! {

/// The characters that HTML escaping replaces, each with its entity, in the
/// order in which they are replaced.
pub const HTML_ESCAPES: [(&'static str, &'static str); 5] = [
    ("&", "&amp;"),
    ("<", "&lt;"),
    (">", "&gt;"),
    ("\"", "&quot;"),
    ("\'", "&#x27;"),
];

} // verus!
