//! Verified generator of axum-connect route bindings from protobuf service
//! descriptors: it resolves the types that methods name, writes one route
//! file per module, and appends the JSON code of each package to the
//! module's main file.

use vstd::prelude::*;

pub mod base;
pub mod chain;
pub mod descriptor;
pub mod generator;
pub mod module;
pub mod params;
pub mod request;
pub mod resolver;
pub mod serde_gen;
pub mod text;
pub mod util;

use crate::base::{
    base_stage_output, contents_view, lemma_base_files_keep_apart, CoreProstGenerator,
};
use crate::chain::{chained, Generator};
use crate::generator::{lemma_route_files_keep_apart, route_files, AxumConnectGenerator};
use crate::module::Module;
use crate::params::Parameters;
use crate::request::{
    file_views, is_main_path, outcome_view, whole_names_distinct, ErrorView, FileView,
    GenerateError, GeneratedFile, ModuleRequestSet,
};
use crate::resolver::overrides_view;
use crate::serde_gen::{
    lemma_serde_files_are_marked_fragments, outputs_view, serde_stage_output,
    AxumConnectSerdeGenerator,
};

verus! {

/// The protobuf package of the well-known types.
pub const WELL_KNOWN_PACKAGE: &'static str = ".google.protobuf";

/// The namespace that stands for the well-known types.
pub const WELL_KNOWN_NAMESPACE: &'static str = "::axum_connect::pbjson_types";

/// The overrides of a run: the one for the well-known types first, then the
/// configured ones in their order.
pub open spec fn with_well_known(configured: Seq<(Seq<char>, Seq<char>)>) -> Seq<
    (Seq<char>, Seq<char>),
> {
    seq![(WELL_KNOWN_PACKAGE@, WELL_KNOWN_NAMESPACE@)] + configured
}

/// The overrides of a run with the configured overrides `configured`.
pub fn extern_paths(configured: &Vec<(String, String)>) -> (out: Vec<(String, String)>)
    ensures
        overrides_view(out@) == with_well_known(overrides_view(configured@)),
{
    let mut out: Vec<(String, String)> = Vec::new();
    out.push((WELL_KNOWN_PACKAGE.to_owned(), WELL_KNOWN_NAMESPACE.to_owned()));
    let mut i: usize = 0;
    assert(overrides_view(out@) =~= with_well_known(overrides_view(configured@).take(0)));
    while i < configured.len()
        invariant
            i <= configured.len(),
            overrides_view(out@) == with_well_known(overrides_view(configured@).take(i as int)),
        decreases configured.len() - i,
    {
        let ghost before = out@;
        let entry = (configured[i].0.clone(), configured[i].1.clone());
        out.push(entry);
        assert(overrides_view(out@) =~= overrides_view(before).push(
            (configured@[i as int].0@, configured@[i as int].1@),
        ));
        assert(overrides_view(configured@).take(i + 1) =~= overrides_view(configured@).take(
            i as int,
        ).push((configured@[i as int].0@, configured@[i as int].1@)));
        assert(overrides_view(out@) =~= with_well_known(
            overrides_view(configured@).take(i + 1),
        ));
        i += 1;
    }
    assert(overrides_view(configured@).take(configured.len() as int) =~= overrides_view(
        configured@,
    ));
    out
}

/// What a full run hands back: the outcomes of the base-type stage, the
/// route stage with the overrides of the run, and the serde stage, chained in
/// that order.
pub open spec fn pipeline_output(
    configured: Seq<(Seq<char>, Seq<char>)>,
    set: ModuleRequestSet,
    messages: Result<Vec<(Module, String)>, String>,
    json: Result<Vec<(String, Vec<u8>)>, String>,
) -> Result<Seq<FileView>, ErrorView> {
    chained(
        chained(
            base_stage_output(messages, set),
            Ok(route_files(with_well_known(configured), set.requests@, set.requests@.len() as int)),
        ),
        serde_stage_output(json, set),
    )
}

/// A full run on the requests `set`: the base-type stage, the route stage
/// and the serde stage, chained in that order. `messages` is the outcome of
/// the message code generator and `json` that of the JSON code generator.
/// The files are the main file of each module, then the route files with
/// the lines that include them, then what is appended of the JSON code.
/// Where a code generator failed, or the JSON code that is read is not
/// UTF-8, there are no files at all, and the error is that of the first
/// stage that fails.
pub fn execute(
    parameters: &Parameters,
    set: &ModuleRequestSet,
    messages: Result<Vec<(Module, String)>, String>,
    json: Result<Vec<(String, Vec<u8>)>, String>,
) -> (out: Result<Vec<GeneratedFile>, GenerateError>)
    requires
        set.well_formed(),
    ensures
        outcome_view(out) == pipeline_output(parameters@.extern_path, *set, messages, json),
        out is Ok ==> whole_names_distinct(file_views(out->Ok_0@)),
{
    let extern_path = extern_paths(&parameters.extern_path);
    let base = Generator::Base(CoreProstGenerator::new(messages));
    let route = Generator::Route(AxumConnectGenerator::new(extern_path));
    let serde = Generator::Serde(AxumConnectSerdeGenerator::new(json));
    let generator = base.chain(route).chain(serde);
    assert(generator.output(*set) == chained(
        chained(base.output(*set), route.output(*set)),
        serde.output(*set),
    )) by {
        reveal_with_fuel(Generator::output, 3);
    }
    proof {
        lemma_created_files_have_their_own_names(parameters@.extern_path, *set, messages, json);
    }
    generator.generate(set)
}

/// In a full run on requests that keep apart, no two files that are
/// created have the same name: the main files differ from one another, the
/// route files differ from one another and from the main files, and the
/// serde stage creates none. What else is written to a path is appended.
pub proof fn lemma_created_files_have_their_own_names(
    configured: Seq<(Seq<char>, Seq<char>)>,
    set: ModuleRequestSet,
    messages: Result<Vec<(Module, String)>, String>,
    json: Result<Vec<(String, Vec<u8>)>, String>,
)
    requires
        set.distinct(),
    ensures
        pipeline_output(configured, set, messages, json) is Ok ==> whole_names_distinct(
            pipeline_output(configured, set, messages, json)->Ok_0,
        ),
{
    if pipeline_output(configured, set, messages, json) is Ok {
        let n = set.requests@.len() as int;
        let table = with_well_known(configured);
        let base = base_stage_output(messages, set)->Ok_0;
        let route = route_files(table, set.requests@, n);
        let serde = serde_stage_output(json, set)->Ok_0;
        let files = pipeline_output(configured, set, messages, json)->Ok_0;
        assert(files == base + route + serde);
        lemma_base_files_keep_apart(set, contents_view(messages->Ok_0@), n);
        lemma_route_files_keep_apart(table, set, n);
        assert forall|i: int| base.len() + route.len() <= i < files.len() implies (
        #[trigger] files[i]).insertion_point is Some by {
            lemma_serde_files_are_marked_fragments(
                set,
                outputs_view(json->Ok_0@),
                json->Ok_0@.len() as int,
                i - base.len() - route.len(),
            );
        }
        assert forall|i: int, j: int|
            0 <= i < j < files.len() && (#[trigger] files[i]).insertion_point is None && (
            #[trigger] files[j]).insertion_point is None implies files[i].name
            != files[j].name by {
            if j < base.len() {
                assert(files[i] == base[i] && files[j] == base[j]);
            } else if i >= base.len() {
                assert(files[i] == route[i - base.len()] && files[j] == route[j - base.len()]);
            } else {
                assert(files[i] == base[i] && files[j] == route[j - base.len()]);
                assert(is_main_path(set, base[i].name));
                let k = choose|k: int|
                    0 <= k < set.requests@.len() && (#[trigger] set.requests@[k]).filepath()
                        == Some(base[i].name);
                assert(set.requests@[k].filepath() != Some(route[j - base.len()].name));
            }
        }
    }
}

/// A full run is repeatable: two runs with the same overrides on the same
/// requests, to which the code generators hand the same output, give the
/// same files with the same content in the same order, or the same error.
pub proof fn lemma_execute_is_repeatable(
    parameters: Parameters,
    again: Parameters,
    set: ModuleRequestSet,
    messages: Result<Vec<(Module, String)>, String>,
    json: Result<Vec<(String, Vec<u8>)>, String>,
    first: Result<Vec<GeneratedFile>, GenerateError>,
    second: Result<Vec<GeneratedFile>, GenerateError>,
)
    requires
        parameters@.extern_path == again@.extern_path,
        outcome_view(first) == pipeline_output(parameters@.extern_path, set, messages, json),
        outcome_view(second) == pipeline_output(again@.extern_path, set, messages, json),
    ensures
        outcome_view(first) == outcome_view(second),
{
}

/// A full run hands back all of its files or none: where it fails, the
/// error is that of the first stage that failed, and where it succeeds,
/// the files of the base-type stage come first, then those of the route
/// stage, then those of the serde stage.
pub proof fn lemma_execute_is_all_or_nothing(
    configured: Seq<(Seq<char>, Seq<char>)>,
    set: ModuleRequestSet,
    messages: Result<Vec<(Module, String)>, String>,
    json: Result<Vec<(String, Vec<u8>)>, String>,
)
    ensures
        base_stage_output(messages, set) is Err ==> pipeline_output(configured, set, messages, json)
            == base_stage_output(messages, set),
        base_stage_output(messages, set) is Ok && serde_stage_output(json, set) is Err
            ==> pipeline_output(configured, set, messages, json) == serde_stage_output(json, set),
        base_stage_output(messages, set) is Ok && serde_stage_output(json, set) is Ok
            ==> pipeline_output(configured, set, messages, json) == Ok::<Seq<FileView>, ErrorView>(
            base_stage_output(messages, set)->Ok_0 + route_files(
                with_well_known(configured),
                set.requests@,
                set.requests@.len() as int,
            ) + serde_stage_output(json, set)->Ok_0,
        ),
{
}

} // verus!
