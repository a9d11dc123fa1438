//! Rust module paths for protobuf packages.

use crate::text::{
    is_segment, lemma_each_segment_is_plain, path_segments, same_texts, split_path, texts,
};
use crate::util::{segment_to_snake, snake_case_ident};
use vstd::prelude::*;

verus! {

/// The Rust module path that generated code for one protobuf package lives
/// in. Two modules are the same module when their parts are the same texts.
#[derive(Clone, Debug, PartialEq, Eq)]
pub struct Module {
    pub parts: Vec<String>,
}

impl View for Module {
    type V = Seq<Seq<char>>;

    open spec fn view(&self) -> Seq<Seq<char>> {
        texts(self.parts@)
    }
}

/// The module names of the segments of a dotted path, in order.
pub open spec fn module_idents(path: Seq<Seq<char>>) -> Seq<Seq<char>> {
    path.map_values(|segment: Seq<char>| snake_case_ident(segment))
}

/// The module path of a protobuf package name: the module name of each of
/// its segments.
pub open spec fn module_of_package(name: Seq<char>) -> Seq<Seq<char>> {
    module_idents(path_segments(name))
}

/// Converts each segment of a dotted path to its module name.
pub fn idents_of(path: &Vec<String>) -> (out: Vec<String>)
    requires
        forall|i: int| 0 <= i < path.len() ==> is_segment(#[trigger] path@[i]@),
    ensures
        texts(out@) == module_idents(texts(path@)),
{
    let mut out: Vec<String> = Vec::new();
    let mut i: usize = 0;
    while i < path.len()
        invariant
            i <= path.len(),
            forall|i: int| 0 <= i < path.len() ==> is_segment(#[trigger] path@[i]@),
            texts(out@) == module_idents(texts(path@)).take(i as int),
        decreases path.len() - i,
    {
        let ghost before = out@;
        let ident = segment_to_snake(path[i].as_str());
        out.push(ident);
        assert(texts(out@) =~= texts(before).push(ident@));
        assert(module_idents(texts(path@)).take(i + 1) =~= module_idents(texts(path@)).take(
            i as int,
        ).push(snake_case_ident(path@[i as int]@)));
        i += 1;
    }
    assert(module_idents(texts(path@)).take(path.len() as int) =~= module_idents(texts(path@)));
    out
}

impl Module {
    /// The module with the given parts.
    pub fn from_parts(parts: Vec<String>) -> (m: Module)
        ensures
            m@ == texts(parts@),
    {
        Module { parts }
    }

    /// The module for a protobuf package name.
    pub fn from_protobuf_package_name(name: &str) -> (m: Module)
        ensures
            m@ == module_of_package(name@),
    {
        let path = split_path(name);
        proof {
            lemma_each_segment_is_plain(name@);
            assert forall|i: int| 0 <= i < path.len() implies is_segment(
                #[trigger] path@[i]@,
            ) by {
                assert(path@[i]@ == texts(path@)[i]);
            }
        }
        Module { parts: idents_of(&path) }
    }

    /// The number of parts.
    pub fn len(&self) -> (n: usize)
        ensures
            n == self@.len(),
    {
        self.parts.len()
    }

    /// Whether the module is the root module.
    pub fn is_empty(&self) -> (r: bool)
        ensures
            r == (self@.len() == 0),
    {
        self.parts.len() == 0
    }

    /// Whether `self` and `other` are the same module.
    pub fn same_as(&self, other: &Module) -> (r: bool)
        ensures
            r == (self@ == other@),
    {
        same_texts(&self.parts, &other.parts)
    }
}

} // verus!
