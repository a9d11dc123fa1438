//! Resolving a protobuf type name, as a method signature gives it, to the
//! Rust reference that generated code in some module can use for it.

use crate::module::{module_idents, Module};
use crate::text::{
    is_segment, join, join_strings, lemma_each_segment_is_plain, path_segments, same_text,
    split_path, starts_with, texts,
};
use crate::util::{
    guarded, segment_to_snake, snake_case_ident, to_upper_camel, upper_camel_case,
};
use vstd::prelude::*;

verus! {

/// An override table as texts: pairs of a protobuf path prefix and the Rust
/// namespace that stands for it.
pub open spec fn overrides_view(table: Seq<(String, String)>) -> Seq<(Seq<char>, Seq<char>)> {
    table.map_values(|entry: (String, String)| (entry.0@, entry.1@))
}

/// Whether an override with the protobuf prefix `prefix` applies to the type
/// at `path`: the segments of the prefix are the first segments of the path.
/// The prefix may name a package above the type, the type's own package, or
/// the type itself.
pub open spec fn applies(prefix: Seq<char>, path: Seq<Seq<char>>) -> bool {
    path_segments(prefix).is_prefix_of(path)
}

/// The override chosen for `path` among the first `n` entries of `table`,
/// going through them in order and keeping an entry only if it applies and
/// matches more segments than the one kept so far.
pub open spec fn best_among(
    table: Seq<(Seq<char>, Seq<char>)>,
    path: Seq<Seq<char>>,
    n: int,
) -> Option<int>
    decreases n,
{
    if n <= 0 {
        None
    } else {
        let kept = best_among(table, path, n - 1);
        let last = n - 1;
        if applies(table[last].0, path) && (kept is None || path_segments(table[kept->0].0).len()
            < path_segments(table[last].0).len()) {
            Some(last)
        } else {
            kept
        }
    }
}

/// The override chosen for `path`: the one that applies and matches the most
/// segments. Where several match as many, this library takes the earliest
/// in the table.
pub open spec fn best_override(table: Seq<(Seq<char>, Seq<char>)>, path: Seq<Seq<char>>) -> Option<
    int,
> {
    best_among(table, path, table.len() as int)
}

/// The Rust names for the segments that remain of a type's path: module
/// names for all but the last, the guarded type name for the last.
pub open spec fn converted(rest: Seq<Seq<char>>) -> Seq<Seq<char>> {
    Seq::new(
        rest.len(),
        |i: int|
            if i + 1 < rest.len() {
                snake_case_ident(rest[i])
            } else {
                guarded(upper_camel_case(rest[i]))
            },
    )
}

/// The reference for a type under an override: the override's namespace,
/// then the converted segments that the override's prefix did not match.
pub open spec fn extern_reference(target: Seq<char>, rest: Seq<Seq<char>>) -> Seq<char> {
    join(seq![target] + converted(rest), "::"@)
}

/// The first index at or after `k` at which `a` and `b` differ or one of
/// them ends.
pub open spec fn common_from(a: Seq<Seq<char>>, b: Seq<Seq<char>>, k: nat) -> nat
    decreases a.len() - k,
{
    if k < a.len() && k < b.len() && a[k as int] == b[k as int] {
        common_from(a, b, k + 1)
    } else {
        k
    }
}

/// The length of the longest common leading run of `a` and `b`.
pub open spec fn common_len(a: Seq<Seq<char>>, b: Seq<Seq<char>>) -> nat {
    common_from(a, b, 0)
}

/// `n` steps up to the enclosing module.
pub open spec fn ascents(n: int) -> Seq<Seq<char>> {
    Seq::new(n as nat, |i: int| "super"@)
}

/// The package part of a type's path: all segments but the last.
pub open spec fn package_of(path: Seq<Seq<char>>) -> Seq<Seq<char>> {
    if path.len() == 0 {
        path
    } else {
        path.drop_last()
    }
}

/// The reference for a type without an override, relative to `module`: one
/// step up for each part of `module` below the modules that it shares with
/// the type's package, then the rest of the type's path, converted.
pub open spec fn local_reference(module: Seq<Seq<char>>, path: Seq<Seq<char>>) -> Seq<char> {
    let shared = common_len(module, module_idents(package_of(path)));
    join(ascents(module.len() - shared) + converted(path.skip(shared as int)), "::"@)
}

/// The Rust reference for the protobuf type `name` in code of `module`.
pub open spec fn type_reference(
    table: Seq<(Seq<char>, Seq<char>)>,
    module: Seq<Seq<char>>,
    name: Seq<char>,
) -> Seq<char> {
    let path = path_segments(name);
    match best_override(table, path) {
        Some(chosen) => extern_reference(
            table[chosen].1,
            path.skip(path_segments(table[chosen].0).len() as int),
        ),
        None => local_reference(module, path),
    }
}

/// Resolves protobuf type names against a table of overrides.
pub struct Resolver {
    extern_path: Vec<(String, String)>,
}

impl View for Resolver {
    type V = Seq<(Seq<char>, Seq<char>)>;

    closed spec fn view(&self) -> Seq<(Seq<char>, Seq<char>)> {
        overrides_view(self.extern_path@)
    }
}

/// Appends to `parts` the Rust names for the segments of `path` from index
/// `from` on.
fn push_converted(parts: &mut Vec<String>, path: &Vec<String>, from: usize)
    requires
        from <= path.len(),
        forall|i: int| 0 <= i < path.len() ==> is_segment(#[trigger] path@[i]@),
    ensures
        texts(final(parts)@) == texts(old(parts)@) + converted(texts(path@).skip(from as int)),
{
    let ghost rest = texts(path@).skip(from as int);
    let mut j: usize = from;
    assert(texts(parts@) =~= texts(old(parts)@) + converted(rest).take(0));
    while j < path.len()
        invariant
            from <= j <= path.len(),
            rest == texts(path@).skip(from as int),
            forall|i: int| 0 <= i < path.len() ==> is_segment(#[trigger] path@[i]@),
            texts(parts@) == texts(old(parts)@) + converted(rest).take(j - from),
        decreases path.len() - j,
    {
        let ghost before = parts@;
        let name = if j + 1 < path.len() {
            segment_to_snake(path[j].as_str())
        } else {
            to_upper_camel(path[j].as_str())
        };
        assert(rest[j - from] == path@[j as int]@);
        assert(name@ == converted(rest)[j - from]);
        parts.push(name);
        assert(texts(parts@) =~= texts(before).push(name@));
        assert(converted(rest).take(j + 1 - from) =~= converted(rest).take(j - from).push(
            name@,
        ));
        assert(texts(parts@) =~= texts(old(parts)@) + converted(rest).take(j + 1 - from));
        j += 1;
    }
    assert(converted(rest).take(path.len() - from) =~= converted(rest));
}

impl Resolver {
    /// A resolver with the given overrides, in the order in which they are
    /// tried.
    pub fn new(extern_path: Vec<(String, String)>) -> (r: Resolver)
        ensures
            r@ == overrides_view(extern_path@),
    {
        Resolver { extern_path }
    }

    /// The index of the override chosen for `path`, with the number of
    /// segments that its prefix matches.
    fn resolve_extern(&self, path: &Vec<String>) -> (r: Option<(usize, usize)>)
        ensures
            match r {
                Some((chosen, matched)) => {
                    &&& best_override(self@, texts(path@)) == Some(chosen as int)
                    &&& chosen < self@.len()
                    &&& matched == path_segments(self@[chosen as int].0).len()
                    &&& matched <= path.len()
                },
                None => best_override(self@, texts(path@)) is None,
            },
    {
        let mut best: Option<(usize, usize)> = None;
        let mut i: usize = 0;
        while i < self.extern_path.len()
            invariant
                i <= self.extern_path.len(),
                self@.len() == self.extern_path.len(),
                match best {
                    Some((chosen, matched)) => {
                        &&& best_among(self@, texts(path@), i as int) == Some(chosen as int)
                        &&& chosen < i
                        &&& matched == path_segments(self@[chosen as int].0).len()
                        &&& matched <= path.len()
                    },
                    None => best_among(self@, texts(path@), i as int) is None,
                },
            decreases self.extern_path.len() - i,
        {
            let prefix = split_path(self.extern_path[i].0.as_str());
            assert(self@[i as int].0 == self.extern_path@[i as int].0@);
            assert(texts(prefix@).len() == prefix.len());
            assert(texts(path@).len() == path.len());
            if starts_with(path, &prefix) {
                let longer = match best {
                    Some((_, matched)) => matched < prefix.len(),
                    None => true,
                };
                if longer {
                    best = Some((i, prefix.len()));
                }
            }
            i += 1;
        }
        best
    }

    /// The number of leading parts that `module` shares with the modules of
    /// the package of the type at `path`.
    fn shared_modules(module: &Module, path: &Vec<String>) -> (shared: usize)
        requires
            forall|i: int| 0 <= i < path.len() ==> is_segment(#[trigger] path@[i]@),
        ensures
            shared == common_len(module@, module_idents(package_of(texts(path@)))),
            shared <= module@.len(),
            shared <= path.len(),
    {
        let package_len: usize = if path.len() == 0 {
            0
        } else {
            path.len() - 1
        };
        let ghost idents = module_idents(package_of(texts(path@)));
        assert(idents.len() == package_len);
        let mut k: usize = 0;
        while k < module.parts.len() && k < package_len
            invariant
                k <= module.parts.len(),
                k <= package_len,
                package_len < path.len() || package_len == 0,
                idents == module_idents(package_of(texts(path@))),
                idents.len() == package_len,
                module@.len() == module.parts.len(),
                forall|i: int| 0 <= i < path.len() ==> is_segment(#[trigger] path@[i]@),
                common_from(module@, idents, k as nat) == common_len(module@, idents),
            decreases package_len - k,
        {
            let ident = segment_to_snake(path[k].as_str());
            assert(idents[k as int] == snake_case_ident(path@[k as int]@));
            assert(module@[k as int] == module.parts@[k as int]@);
            if !same_text(module.parts[k].as_str(), ident.as_str()) {
                return k;
            }
            k += 1;
        }
        k
    }

    /// The Rust reference for the protobuf type `pb_ident` in code of
    /// `module`. Every name resolves: to the namespace of the override that
    /// matches most of its path, or else relative to `module`.
    pub fn resolve_ident(&self, module: &Module, pb_ident: &str) -> (out: String)
        ensures
            out@ == type_reference(self@, module@, pb_ident@),
    {
        let path = split_path(pb_ident);
        proof {
            lemma_each_segment_is_plain(pb_ident@);
            assert forall|i: int| 0 <= i < path.len() implies is_segment(#[trigger] path@[i]@) by {
                assert(path@[i]@ == texts(path@)[i]);
            }
        }
        let mut parts: Vec<String> = Vec::new();
        let from: usize;
        match self.resolve_extern(&path) {
            Some((chosen, matched)) => {
                let target = self.extern_path[chosen].1.clone();
                assert(target@ == self@[chosen as int].1);
                parts.push(target);
                assert(texts(parts@) =~= seq![target@]);
                from = matched;
            },
            None => {
                let shared = Self::shared_modules(module, &path);
                let mut up: usize = shared;
                assert(texts(parts@) =~= ascents(0));
                while up < module.parts.len()
                    invariant
                        shared <= up <= module.parts.len(),
                        texts(parts@) == ascents(up - shared),
                    decreases module.parts.len() - up,
                {
                    let ghost before = parts@;
                    let step = "super".to_owned();
                    parts.push(step);
                    assert(texts(parts@) =~= texts(before).push("super"@));
                    assert(ascents(up + 1 - shared) =~= ascents(up - shared).push("super"@));
                    up += 1;
                }
                assert(module@.len() == module.parts.len());
                from = shared;
            },
        }
        push_converted(&mut parts, &path, from);
        join_strings(&parts, "::")
    }
}


/// The chosen override applies, no override that applies matches more
/// segments, and none that matches as many stands before it in the table.
/// Where none is chosen, none applies.
pub proof fn lemma_best_override_is_longest(
    table: Seq<(Seq<char>, Seq<char>)>,
    path: Seq<Seq<char>>,
)
    ensures
        match best_override(table, path) {
            Some(chosen) => {
                &&& 0 <= chosen < table.len()
                &&& applies(table[chosen].0, path)
                &&& forall|i: int|
                    0 <= i < table.len() && applies(#[trigger] table[i].0, path) ==> {
                        ||| path_segments(table[i].0).len() < path_segments(table[chosen].0).len()
                        ||| (path_segments(table[i].0).len() == path_segments(
                            table[chosen].0,
                        ).len() && chosen <= i)
                    }
            },
            None => forall|i: int| 0 <= i < table.len() ==> !applies(#[trigger] table[i].0, path),
        },
{
    lemma_best_among(table, path, table.len() as int);
}

proof fn lemma_best_among(table: Seq<(Seq<char>, Seq<char>)>, path: Seq<Seq<char>>, n: int)
    requires
        0 <= n <= table.len(),
    ensures
        match best_among(table, path, n) {
            Some(chosen) => {
                &&& 0 <= chosen < n
                &&& applies(table[chosen].0, path)
                &&& forall|i: int|
                    0 <= i < n && applies(#[trigger] table[i].0, path) ==> {
                        ||| path_segments(table[i].0).len() < path_segments(table[chosen].0).len()
                        ||| (path_segments(table[i].0).len() == path_segments(
                            table[chosen].0,
                        ).len() && chosen <= i)
                    }
            },
            None => forall|i: int| 0 <= i < n ==> !applies(#[trigger] table[i].0, path),
        },
    decreases n,
{
    if n > 0 {
        lemma_best_among(table, path, n - 1);
    }
}

/// The reference for a name depends on the overrides, the module and the
/// name alone: two resolutions of the same name against the same overrides
/// from the same module give the same text.
pub proof fn lemma_resolution_is_repeatable(
    first: Resolver,
    second: Resolver,
    module: Module,
    again: Module,
    name: Seq<char>,
    reference: String,
    repeated: String,
)
    requires
        first@ == second@,
        module@ == again@,
        reference@ == type_reference(first@, module@, name),
        repeated@ == type_reference(second@, again@, name),
    ensures
        reference@ == repeated@,
{
}

proof fn lemma_common_of_prefix(a: Seq<Seq<char>>, b: Seq<Seq<char>>, k: nat)
    requires
        b.is_prefix_of(a),
        k <= b.len(),
    ensures
        common_from(a, b, k) == b.len(),
    decreases b.len() - k,
{
    if k < b.len() {
        assert(a.subrange(0, b.len() as int)[k as int] == a[k as int]);
        lemma_common_of_prefix(a, b, k + 1);
    }
}

/// A type without an override that is declared in the referencing module,
/// or in a module that encloses it, is referred to by one step up for each
/// module between the two and then by its name, with no step down.
pub proof fn lemma_reference_to_enclosing_module(
    table: Seq<(Seq<char>, Seq<char>)>,
    module: Seq<Seq<char>>,
    name: Seq<char>,
)
    requires
        path_segments(name).len() > 0,
        best_override(table, path_segments(name)) is None,
        module_idents(path_segments(name).drop_last()).is_prefix_of(module),
    ensures
        type_reference(table, module, name) == join(
            ascents(module.len() - (path_segments(name).len() - 1)).push(
                guarded(upper_camel_case(path_segments(name).last())),
            ),
            "::"@,
        ),
{
    let path = path_segments(name);
    let idents = module_idents(path.drop_last());
    lemma_common_of_prefix(module, idents, 0);
    let shared = common_len(module, idents);
    assert(shared == path.len() - 1);
    assert(converted(path.skip(shared as int)) =~= seq![guarded(upper_camel_case(path.last()))]);
    assert(ascents(module.len() - shared) + seq![guarded(upper_camel_case(path.last()))]
        =~= ascents(module.len() - shared).push(guarded(upper_camel_case(path.last()))));
}

/// Under an override, the reference is the override's namespace followed by
/// the names of the segments that its prefix did not match.
pub proof fn lemma_reference_under_override(
    table: Seq<(Seq<char>, Seq<char>)>,
    module: Seq<Seq<char>>,
    name: Seq<char>,
    chosen: int,
)
    requires
        best_override(table, path_segments(name)) == Some(chosen),
    ensures
        type_reference(table, module, name) == join(
            seq![table[chosen].1] + converted(
                path_segments(name).skip(path_segments(table[chosen].0).len() as int),
            ),
            "::"@,
        ),
{
}

} // verus!
