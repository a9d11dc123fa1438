//! Identifier casing: Rust type names and module names for protobuf names.

use crate::text::{
    is_segment, lemma_each_segment_is_plain, path_segments, same_text, split_path, texts,
};
use heck::ToUpperCamelCase;
use vstd::prelude::*;

verus! {

/// What `heck`'s `to_upper_camel_case` makes of a string.
pub uninterp spec fn upper_camel_case(s: Seq<char>) -> Seq<char>;

/// The Rust module name that `prost-build` gives to one segment of a
/// protobuf package name: its snake case, escaped where that is a keyword.
pub uninterp spec fn snake_case_ident(segment: Seq<char>) -> Seq<char>;

/// A type name made safe to use: `Self`, which Rust reserves for the
/// enclosing type, gets an underscore appended.
pub open spec fn guarded(ident: Seq<char>) -> Seq<char> {
    if ident == "Self"@ {
        ident + "_"@
    } else {
        ident
    }
}

/// Calls `heck::ToUpperCamelCase::to_upper_camel_case` on `s`. The result is
/// a function of `s` alone, named `upper_camel_case`.
#[verifier::external_body]
fn heck_upper_camel(s: &str) -> (out: String)
    ensures
        out@ == upper_camel_case(s@),
{
    s.to_upper_camel_case()
}

/// Calls `prost_build::Module::from_protobuf_package_name` on a name of one
/// segment and writes the module out. That function splits the name at dots,
/// drops empty pieces and converts each piece, so for one segment the module
/// has one part: the converted segment, named `snake_case_ident`.
#[verifier::external_body]
fn prost_module_ident(segment: &str) -> (out: String)
    requires
        is_segment(segment@),
    ensures
        out@ == snake_case_ident(segment@),
{
    prost_build::Module::from_protobuf_package_name(segment).to_string()
}

/// Appends an underscore to `ident` if it is `Self`.
pub fn guard_reserved(ident: String) -> (out: String)
    ensures
        out@ == guarded(ident@),
{
    let mut out = ident;
    if same_text(out.as_str(), "Self") {
        out.push('_');
        proof {
            reveal_strlit("_");
            assert(ident@ + "_"@ =~= ident@.push('_'));
        }
    }
    out
}

/// The module name for a protobuf name that has exactly one segment.
pub fn to_snake(s: &str) -> (out: String)
    requires
        path_segments(s@).len() == 1,
    ensures
        out@ == snake_case_ident(path_segments(s@)[0]),
{
    let segments = split_path(s);
    proof {
        lemma_each_segment_is_plain(s@);
        assert(texts(segments@)[0] == segments@[0]@);
    }
    prost_module_ident(segments[0].as_str())
}

/// The module name for one segment of a dotted path.
pub fn segment_to_snake(segment: &str) -> (out: String)
    requires
        is_segment(segment@),
    ensures
        out@ == snake_case_ident(segment@),
{
    prost_module_ident(segment)
}

/// The Rust type name for a protobuf name: its upper camel case, guarded
/// against `Self`.
pub fn to_upper_camel(s: &str) -> (out: String)
    ensures
        out@ == guarded(upper_camel_case(s@)),
{
    guard_reserved(heck_upper_camel(s))
}

} // verus!
