//! The serde stage: it appends the JSON code that the JSON code generator
//! wrote for each package to the main file of the package's module, with
//! the namespaces of the supporting libraries rewritten to their re-exports.

use crate::module::{module_of_package, Module};
use crate::request::{
    appended_fragment, file_views, outcome_view, starts_with_marker, ErrorView, FileView,
    GenerateError, GeneratedFile, ModuleRequestSet, GENERATED_HEADER,
};
use crate::text::{
    absent_from, distinct_heads, end_line, lemma_qualified_after_prefix, line_ended,
    lemma_qualified_before_char, lemma_replace_keeps_qualified, lemma_replace_qualifies, lemma_replace_without_occurrence, occurs_in, qualified, replace,
    replace_all,
};
use vstd::prelude::*;
use vstd::string::*;
use vstd::utf8::{decode_utf8, valid_utf8};

verus! {

/// The namespace of the JSON support library, as generated code names it.
pub const PBJSON_NAMESPACE: &'static str = "pbjson::";

/// The namespace of the message support library, as generated code names it.
pub const PROST_NAMESPACE: &'static str = "prost::";

/// The namespace of the serialization framework, as generated code names it.
pub const SERDE_NAMESPACE: &'static str = "serde::";

/// The namespace that re-exports all three.
pub const EXPORT_NAMESPACE: &'static str = "axum_connect::";

/// The re-export of the JSON support library.
pub const PBJSON_EXPORT: &'static str = "axum_connect::pbjson::";

/// The re-export of the message support library.
pub const PROST_EXPORT: &'static str = "axum_connect::prost::";

/// The re-export of the serialization framework.
pub const SERDE_EXPORT: &'static str = "axum_connect::serde::";

/// The package prefix that takes in every package: the JSON code generator
/// is asked for the code of all packages.
pub const EVERY_PACKAGE: &'static str = ".";

/// The prefix that marks a raw identifier.
pub const RAW_IDENT_PREFIX: &'static str = "r#";

/// The JSON code of each package, as texts and bytes.
pub open spec fn outputs_view(outputs: Seq<(String, Vec<u8>)>) -> Seq<(Seq<char>, Seq<u8>)> {
    outputs.map_values(|entry: (String, Vec<u8>)| (entry.0@, entry.1@))
}

/// `body` with each of the three library namespaces replaced by its
/// re-export, one namespace after the other over the whole text.
pub open spec fn rewritten(body: Seq<char>) -> Seq<char> {
    replace_all(
        replace_all(
            replace_all(body, PBJSON_NAMESPACE@, PBJSON_EXPORT@),
            PROST_NAMESPACE@,
            PROST_EXPORT@,
        ),
        SERDE_NAMESPACE@,
        SERDE_EXPORT@,
    )
}

/// What is appended for the JSON code `body`: the generation marker, then
/// the rewritten code, ended by a line break.
pub open spec fn serde_fragment(body: Seq<char>) -> Seq<char> {
    line_ended(GENERATED_HEADER@ + rewritten(body))
}

/// The module of a package as the JSON code generator names it: with the
/// marks of raw identifiers taken out.
pub open spec fn serde_module(package: Seq<char>) -> Seq<Seq<char>> {
    module_of_package(replace_all(package, RAW_IDENT_PREFIX@, Seq::empty()))
}

/// Whether the code of `package` is looked at: `set` has a request for the
/// package's module.
pub open spec fn is_placed(set: ModuleRequestSet, package: Seq<char>) -> bool {
    set.position(serde_module(package)) is Some
}

/// What is appended for the JSON code `bytes` of `package`, if `set` has a
/// request for the package's module and the module was asked for.
pub open spec fn serde_output(set: ModuleRequestSet, package: Seq<char>, bytes: Seq<u8>) -> Option<
    FileView,
> {
    match set.position(serde_module(package)) {
        Some(i) => match set.requests@[i].filepath() {
            Some(path) => Some(appended_fragment(path, serde_fragment(decode_utf8(bytes)))),
            None => None,
        },
        None => None,
    }
}

/// What is appended for the first `n` outputs, in order.
pub open spec fn serde_files(set: ModuleRequestSet, outputs: Seq<(Seq<char>, Seq<u8>)>, n: int)
    -> Seq<FileView>
    decreases n,
{
    if n <= 0 {
        Seq::empty()
    } else {
        serde_files(set, outputs, n - 1) + match serde_output(
            set,
            outputs[n - 1].0,
            outputs[n - 1].1,
        ) {
            Some(file) => seq![file],
            None => Seq::empty(),
        }
    }
}

/// Whether each of the first `n` outputs that is looked at is UTF-8.
pub open spec fn all_text(set: ModuleRequestSet, outputs: Seq<(Seq<char>, Seq<u8>)>, n: int)
    -> bool {
    forall|i: int|
        0 <= i < n && is_placed(set, (#[trigger] outputs[i]).0) ==> valid_utf8(outputs[i].1)
}

/// What the stage hands back for the outputs of the JSON code generator:
/// an error where an output that is looked at is not UTF-8, else what is
/// appended for each.
pub open spec fn assembled(set: ModuleRequestSet, outputs: Seq<(Seq<char>, Seq<u8>)>) -> Result<
    Seq<FileView>,
    ErrorView,
> {
    if all_text(set, outputs, outputs.len() as int) {
        Ok(serde_files(set, outputs, outputs.len() as int))
    } else {
        Err(ErrorView::Encoding)
    }
}

/// What the stage hands back for `set`, given the outcome of the JSON code
/// generator: the generator's error, or what the stage makes of its outputs.
pub open spec fn serde_stage_output(
    outcome: Result<Vec<(String, Vec<u8>)>, String>,
    set: ModuleRequestSet,
) -> Result<Seq<FileView>, ErrorView> {
    match outcome {
        Ok(outputs) => assembled(set, outputs_view(outputs@)),
        Err(message) => Err(ErrorView::Codegen(message@)),
    }
}

/// Calls `std::str::from_utf8` on `bytes`: the text that the bytes encode,
/// or `None` where they are not UTF-8.
#[verifier::external_body]
fn text_of_bytes(bytes: &Vec<u8>) -> (out: Option<String>)
    ensures
        match out {
            Some(text) => valid_utf8(bytes@) && text@ == decode_utf8(bytes@),
            None => !valid_utf8(bytes@),
        },
{
    std::str::from_utf8(bytes).ok().map(|text| text.to_owned())
}

/// Rewrites the three library namespaces in `body` to their re-exports.
pub fn rewrite_namespaces(body: &str) -> (out: String)
    ensures
        out@ == rewritten(body@),
{
    let first = replace(body, PBJSON_NAMESPACE, PBJSON_EXPORT);
    let second = replace(first.as_str(), PROST_NAMESPACE, PROST_EXPORT);
    replace(second.as_str(), SERDE_NAMESPACE, SERDE_EXPORT)
}

/// The module of a package as the JSON code generator names it.
pub fn module_of_serde_package(package: &str) -> (module: Module)
    ensures
        module@ == serde_module(package@),
{
    proof {
        reveal_strlit("");
    }
    let plain = replace(package, RAW_IDENT_PREFIX, "");
    assert(""@ =~= Seq::<char>::empty());
    Module::from_protobuf_package_name(plain.as_str())
}

/// What is appended for the JSON code `bytes` of `package`. Code for a
/// module without a request is passed over unread; code that is read must
/// be UTF-8.
pub fn place_output(set: &ModuleRequestSet, package: &str, bytes: &Vec<u8>) -> (out: Result<
    Option<GeneratedFile>,
    GenerateError,
>)
    ensures
        match out {
            Ok(Some(file)) => {
                &&& is_placed(*set, package@) ==> valid_utf8(bytes@)
                &&& serde_output(*set, package@, bytes@) == Some(file@)
            },
            Ok(None) => {
                &&& is_placed(*set, package@) ==> valid_utf8(bytes@)
                &&& serde_output(*set, package@, bytes@) is None
            },
            Err(error) => error@ == ErrorView::Encoding && is_placed(*set, package@) && !valid_utf8(
                bytes@,
            ),
        },
{
    let module = module_of_serde_package(package);
    let request = match set.for_module(&module) {
        Some(request) => request,
        None => {
            return Ok(None);
        },
    };
    let body = match text_of_bytes(bytes) {
        Some(body) => body,
        None => {
            return Err(GenerateError::Encoding);
        },
    };
    let mut content = GENERATED_HEADER.to_owned();
    let body = rewrite_namespaces(body.as_str());
    content.append(body.as_str());
    Ok(request.append_to_file(end_line(content)))
}

/// What the stage hands back for the outputs of the JSON code generator.
pub fn assemble(set: &ModuleRequestSet, outputs: &Vec<(String, Vec<u8>)>) -> (out: Result<
    Vec<GeneratedFile>,
    GenerateError,
>)
    ensures
        outcome_view(out) == assembled(*set, outputs_view(outputs@)),
{
    let mut out: Vec<GeneratedFile> = Vec::new();
    let mut i: usize = 0;
    assert(file_views(out@) =~= Seq::empty());
    while i < outputs.len()
        invariant
            i <= outputs.len(),
            all_text(*set, outputs_view(outputs@), i as int),
            file_views(out@) == serde_files(*set, outputs_view(outputs@), i as int),
        decreases outputs.len() - i,
    {
        let ghost before = out@;
        assert(outputs_view(outputs@)[i as int] == (outputs@[i as int].0@, outputs@[i as int].1@));
        match place_output(set, outputs[i].0.as_str(), &outputs[i].1) {
            Ok(Some(file)) => {
                out.push(file);
                assert(file_views(out@) =~= file_views(before) + seq![file@]);
            },
            Ok(None) => {
                assert(file_views(out@) + Seq::<FileView>::empty() =~= file_views(out@));
            },
            Err(error) => {
                return Err(error);
            },
        }
        i += 1;
    }
    Ok(out)
}

/// The serde stage, with what the JSON code generator made of the
/// registered files: the code for each package, or the message of its error.
pub struct AxumConnectSerdeGenerator {
    outcome: Result<Vec<(String, Vec<u8>)>, String>,
}

impl AxumConnectSerdeGenerator {
    /// The stage for the given outcome of the JSON code generator.
    pub fn new(outcome: Result<Vec<(String, Vec<u8>)>, String>) -> (generator:
        AxumConnectSerdeGenerator)
        ensures
            generator.delegated() == outcome,
    {
        AxumConnectSerdeGenerator { outcome }
    }

    /// The outcome of the JSON code generator that the stage works on.
    pub closed spec fn delegated(&self) -> Result<Vec<(String, Vec<u8>)>, String> {
        self.outcome
    }

    /// What the stage hands back for `set`: the error of the JSON code
    /// generator, or what it makes of the generator's outputs.
    pub open spec fn output(&self, set: ModuleRequestSet) -> Result<Seq<FileView>, ErrorView> {
        serde_stage_output(self.delegated(), set)
    }

    /// Appends the rewritten JSON code of each package to the main file of
    /// its module, or hands on the error of the JSON code generator.
    pub fn generate(&self, set: &ModuleRequestSet) -> (out: Result<
        Vec<GeneratedFile>,
        GenerateError,
    >)
        ensures
            outcome_view(out) == self.output(*set),
    {
        match &self.outcome {
            Ok(outputs) => assemble(set, outputs),
            Err(message) => Err(GenerateError::Codegen(message.clone())),
        }
    }
}

/// What the three namespaces and their re-exports are made of.
proof fn lemma_namespaces()
    ensures
        PBJSON_EXPORT@ == EXPORT_NAMESPACE@ + PBJSON_NAMESPACE@,
        PROST_EXPORT@ == EXPORT_NAMESPACE@ + PROST_NAMESPACE@,
        SERDE_EXPORT@ == EXPORT_NAMESPACE@ + SERDE_NAMESPACE@,
        distinct_heads(PBJSON_NAMESPACE@, EXPORT_NAMESPACE@),
        distinct_heads(PROST_NAMESPACE@, EXPORT_NAMESPACE@),
        distinct_heads(SERDE_NAMESPACE@, EXPORT_NAMESPACE@),
{
    reveal_strlit("pbjson::");
    reveal_strlit("prost::");
    reveal_strlit("serde::");
    reveal_strlit("axum_connect::");
    reveal_strlit("axum_connect::pbjson::");
    reveal_strlit("axum_connect::prost::");
    reveal_strlit("axum_connect::serde::");
    assert(PBJSON_EXPORT@ =~= EXPORT_NAMESPACE@ + PBJSON_NAMESPACE@);
    assert(PROST_EXPORT@ =~= EXPORT_NAMESPACE@ + PROST_NAMESPACE@);
    assert(SERDE_EXPORT@ =~= EXPORT_NAMESPACE@ + SERDE_NAMESPACE@);
}

/// After the rewriting no reference to one of the three library namespaces
/// is left as it was: wherever `pbjson::`, `prost::` or `serde::` stands in
/// the rewritten text, `axum_connect::` stands directly before it.
pub proof fn lemma_rewritten_names_only_exports(body: Seq<char>)
    ensures
        qualified(rewritten(body), PBJSON_NAMESPACE@, EXPORT_NAMESPACE@),
        qualified(rewritten(body), PROST_NAMESPACE@, EXPORT_NAMESPACE@),
        qualified(rewritten(body), SERDE_NAMESPACE@, EXPORT_NAMESPACE@),
{
    lemma_namespaces();
    let export = EXPORT_NAMESPACE@;
    let first = replace_all(body, PBJSON_NAMESPACE@, PBJSON_EXPORT@);
    let second = replace_all(first, PROST_NAMESPACE@, PROST_EXPORT@);
    lemma_replace_qualifies(body, PBJSON_NAMESPACE@, export);
    lemma_replace_qualifies(first, PROST_NAMESPACE@, export);
    lemma_replace_keeps_qualified(first, PROST_NAMESPACE@, export, PBJSON_NAMESPACE@);
    lemma_replace_qualifies(second, SERDE_NAMESPACE@, export);
    lemma_replace_keeps_qualified(second, SERDE_NAMESPACE@, export, PBJSON_NAMESPACE@);
    lemma_replace_keeps_qualified(second, SERDE_NAMESPACE@, export, PROST_NAMESPACE@);
}

/// A text that names none of the three library namespaces is left as it
/// is, and so names none of them after the rewriting.
pub proof fn lemma_rewritten_without_namespaces(body: Seq<char>)
    requires
        !occurs_in(body, PBJSON_NAMESPACE@),
        !occurs_in(body, PROST_NAMESPACE@),
        !occurs_in(body, SERDE_NAMESPACE@),
    ensures
        rewritten(body) == body,
        !occurs_in(rewritten(body), PBJSON_NAMESPACE@),
        !occurs_in(rewritten(body), PROST_NAMESPACE@),
        !occurs_in(rewritten(body), SERDE_NAMESPACE@),
{
    lemma_namespaces();
    lemma_replace_without_occurrence(body, PBJSON_NAMESPACE@, PBJSON_EXPORT@);
    lemma_replace_without_occurrence(body, PROST_NAMESPACE@, PROST_EXPORT@);
    lemma_replace_without_occurrence(body, SERDE_NAMESPACE@, SERDE_EXPORT@);
}

/// Neither the generation marker nor a line break holds a piece of one of
/// the three namespaces that could begin or end an occurrence.
proof fn lemma_frame_is_neutral()
    ensures
        absent_from(GENERATED_HEADER@, PBJSON_NAMESPACE@[0], 0),
        absent_from(GENERATED_HEADER@, PROST_NAMESPACE@[0], 0),
        absent_from(GENERATED_HEADER@, SERDE_NAMESPACE@[0], 0),
        absent_from(PBJSON_NAMESPACE@, '\n', 0),
        absent_from(PROST_NAMESPACE@, '\n', 0),
        absent_from(SERDE_NAMESPACE@, '\n', 0),
{
    reveal_strlit("pbjson::");
    reveal_strlit("prost::");
    reveal_strlit("serde::");
    reveal_strlit("// @generated\n");
}

/// What the serde stage appends names the three library namespaces only
/// through their re-exports: wherever `pbjson::`, `prost::` or `serde::`
/// stands in an appended fragment, `axum_connect::` stands directly before
/// it.
pub proof fn lemma_fragment_names_only_exports(body: Seq<char>)
    ensures
        qualified(serde_fragment(body), PBJSON_NAMESPACE@, EXPORT_NAMESPACE@),
        qualified(serde_fragment(body), PROST_NAMESPACE@, EXPORT_NAMESPACE@),
        qualified(serde_fragment(body), SERDE_NAMESPACE@, EXPORT_NAMESPACE@),
{
    lemma_namespaces();
    lemma_frame_is_neutral();
    lemma_rewritten_names_only_exports(body);
    let export = EXPORT_NAMESPACE@;
    let text = GENERATED_HEADER@ + rewritten(body);
    lemma_qualified_after_prefix(GENERATED_HEADER@, rewritten(body), PBJSON_NAMESPACE@, export);
    lemma_qualified_after_prefix(GENERATED_HEADER@, rewritten(body), PROST_NAMESPACE@, export);
    lemma_qualified_after_prefix(GENERATED_HEADER@, rewritten(body), SERDE_NAMESPACE@, export);
    lemma_qualified_before_char(text, '\n', PBJSON_NAMESPACE@, export);
    lemma_qualified_before_char(text, '\n', PROST_NAMESPACE@, export);
    lemma_qualified_before_char(text, '\n', SERDE_NAMESPACE@, export);
}

/// Every file of the serde stage is a fragment appended to a module's main
/// file, and starts with the generation marker.
pub proof fn lemma_serde_files_are_marked_fragments(
    set: ModuleRequestSet,
    outputs: Seq<(Seq<char>, Seq<u8>)>,
    n: int,
    i: int,
)
    requires
        0 <= i < serde_files(set, outputs, n).len(),
    ensures
        serde_files(set, outputs, n)[i].insertion_point is Some,
        starts_with_marker(serde_files(set, outputs, n)[i].content),
    decreases n,
{
    if n > 0 {
        let before = serde_files(set, outputs, n - 1);
        if i < before.len() {
            lemma_serde_files_are_marked_fragments(set, outputs, n - 1, i);
        } else {
            let file = serde_output(set, outputs[n - 1].0, outputs[n - 1].1)->0;
            assert(serde_files(set, outputs, n)[i] == file);
            let text = GENERATED_HEADER@ + rewritten(decode_utf8(outputs[n - 1].1));
            assert(text.subrange(0, GENERATED_HEADER@.len() as int) =~= GENERATED_HEADER@);
            assert(line_ended(text).subrange(0, GENERATED_HEADER@.len() as int)
                =~= GENERATED_HEADER@);
        }
    }
}

} // verus!
