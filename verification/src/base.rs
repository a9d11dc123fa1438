//! The base-type stage: it puts the message definitions that the message
//! code generator wrote for each module into that module's main file.

use crate::module::Module;
use crate::request::{
    ends_with_insertion_point, file_views, is_main_path, lemma_own_position, outcome_view,
    starts_with_marker, whole_file, whole_names_distinct, ErrorView, FileView, GenerateError,
    GeneratedFile, ModuleRequestSet, GENERATED_HEADER, INSERTION_POINT_MARKER,
};
use vstd::prelude::*;
use vstd::string::*;

verus! {

/// The message definitions of each module, as texts.
pub open spec fn contents_view(contents: Seq<(Module, String)>) -> Seq<
    (Seq<Seq<char>>, Seq<char>),
> {
    contents.map_values(|entry: (Module, String)| (entry.0@, entry.1@))
}

/// The content of a module's main file: the generation marker, the message
/// definitions, and the marker of the point at which other stages insert.
pub open spec fn enveloped(content: Seq<char>) -> Seq<char> {
    GENERATED_HEADER@ + content + INSERTION_POINT_MARKER@
}

/// The definitions written for `module`, looking from entry `from` on: those
/// of the first entry for it, and nothing where there is none.
pub open spec fn content_from(
    contents: Seq<(Seq<Seq<char>>, Seq<char>)>,
    module: Seq<Seq<char>>,
    from: int,
) -> Seq<char>
    decreases contents.len() - from,
{
    if from < 0 || from >= contents.len() {
        Seq::empty()
    } else if contents[from].0 == module {
        contents[from].1
    } else {
        content_from(contents, module, from + 1)
    }
}

/// The definitions written for `module`.
pub open spec fn content_for(
    contents: Seq<(Seq<Seq<char>>, Seq<char>)>,
    module: Seq<Seq<char>>,
) -> Seq<char> {
    content_from(contents, module, 0)
}

/// The main file of `module` with `content` in its envelope, if `set` has a
/// request for the module and the module was asked for.
pub open spec fn base_output(set: ModuleRequestSet, module: Seq<Seq<char>>, content: Seq<char>)
    -> Option<FileView> {
    match set.position(module) {
        Some(i) => match set.requests@[i].filepath() {
            Some(path) => Some(whole_file(path, enveloped(content))),
            None => None,
        },
        None => None,
    }
}

/// The main files of the first `n` requests of `set`: one for each request
/// that has protobuf files and was asked for.
pub open spec fn base_files(
    set: ModuleRequestSet,
    contents: Seq<(Seq<Seq<char>>, Seq<char>)>,
    n: int,
) -> Seq<FileView>
    decreases n,
{
    if n <= 0 {
        Seq::empty()
    } else {
        let request = set.requests@[n - 1];
        base_files(set, contents, n - 1) + (if request.files@.len() > 0 {
            match base_output(set, request.module@, content_for(contents, request.module@)) {
                Some(file) => seq![file],
                None => Seq::empty(),
            }
        } else {
            Seq::empty()
        })
    }
}

/// What the stage hands back for `set`, given the outcome of the message
/// code generator: the generator's error, or the main files of the requests.
pub open spec fn base_stage_output(
    outcome: Result<Vec<(Module, String)>, String>,
    set: ModuleRequestSet,
) -> Result<Seq<FileView>, ErrorView> {
    match outcome {
        Ok(contents) => Ok(base_files(set, contents_view(contents@), set.requests@.len() as int)),
        Err(message) => Err(ErrorView::Codegen(message@)),
    }
}

/// The base-type stage, with what the message code generator made of the
/// requests: the definitions for each module, or the message of its error.
pub struct CoreProstGenerator {
    outcome: Result<Vec<(Module, String)>, String>,
}

impl CoreProstGenerator {
    /// The stage for the given outcome of the message code generator.
    pub fn new(outcome: Result<Vec<(Module, String)>, String>) -> (generator: CoreProstGenerator)
        ensures
            generator.delegated() == outcome,
    {
        CoreProstGenerator { outcome }
    }

    /// The outcome of the message code generator that the stage works on.
    pub closed spec fn delegated(&self) -> Result<Vec<(Module, String)>, String> {
        self.outcome
    }

    /// What the stage hands back for `set`: the error of the message code
    /// generator, or the main files of the requests.
    pub open spec fn output(&self, set: ModuleRequestSet) -> Result<
        Seq<FileView>,
        ErrorView,
    > {
        base_stage_output(self.delegated(), set)
    }

    /// The definitions written for `module`.
    fn content_of(contents: &Vec<(Module, String)>, module: &Module) -> (out: String)
        ensures
            out@ == content_for(contents_view(contents@), module@),
    {
        let mut i: usize = 0;
        while i < contents.len()
            invariant
                i <= contents.len(),
                content_from(contents_view(contents@), module@, i as int) == content_for(
                    contents_view(contents@),
                    module@,
                ),
            decreases contents.len() - i,
        {
            assert(contents_view(contents@)[i as int] == (contents@[i as int].0@, contents@[i as int].1@));
            if contents[i].0.same_as(module) {
                return contents[i].1.clone();
            }
            i += 1;
        }
        String::new()
    }

    /// The main file of `module` with `content` in its envelope.
    pub fn content_to_file(module: &Module, content: String, module_requests: &ModuleRequestSet) -> (out:
        Option<GeneratedFile>)
        ensures
            match out {
                Some(file) => base_output(*module_requests, module@, content@) == Some(file@),
                None => base_output(*module_requests, module@, content@) is None,
            },
    {
        let request = match module_requests.for_module(module) {
            Some(request) => request,
            None => {
                return None;
            },
        };
        let mut buffer = GENERATED_HEADER.to_owned();
        buffer.append(content.as_str());
        buffer.append(INSERTION_POINT_MARKER);
        request.write_to_file(buffer)
    }

    /// Writes the main file of each request of `set` that has protobuf files
    /// and was asked for, or hands on the error of the message code
    /// generator.
    pub fn generate(&self, set: &ModuleRequestSet) -> (out: Result<Vec<GeneratedFile>, GenerateError>)
        ensures
            outcome_view(out) == self.output(*set),
            out is Ok && set.distinct() ==> whole_names_distinct(file_views(out->Ok_0@)),
    {
        let contents = match &self.outcome {
            Ok(contents) => contents,
            Err(message) => {
                return Err(GenerateError::Codegen(message.clone()));
            },
        };
        let mut out: Vec<GeneratedFile> = Vec::new();
        let mut i: usize = 0;
        assert(file_views(out@) =~= Seq::empty());
        while i < set.requests.len()
            invariant
                i <= set.requests.len(),
                file_views(out@) == base_files(*set, contents_view(contents@), i as int),
            decreases set.requests.len() - i,
        {
            let request = &set.requests[i];
            let ghost before = out@;
            if request.files.len() > 0 {
                let content = Self::content_of(contents, &request.module);
                match Self::content_to_file(&request.module, content, set) {
                    Some(file) => {
                        out.push(file);
                        assert(file_views(out@) =~= file_views(before) + seq![file@]);
                    },
                    None => {
                        assert(file_views(out@) + Seq::<FileView>::empty() =~= file_views(out@));
                    },
                }
            } else {
                assert(file_views(out@) + Seq::<FileView>::empty() =~= file_views(out@));
            }
            i += 1;
        }
        proof {
            if set.distinct() {
                lemma_base_files_keep_apart(
                    *set,
                    contents_view(contents@),
                    set.requests@.len() as int,
                );
            }
        }
        Ok(out)
    }
}

/// Every file of the base-type stage is a whole file in the envelope: it
/// starts with the generation marker and ends with the marker of the
/// insertion point.
pub proof fn lemma_base_files_are_enveloped(
    set: ModuleRequestSet,
    contents: Seq<(Seq<Seq<char>>, Seq<char>)>,
    n: int,
    i: int,
)
    requires
        0 <= i < base_files(set, contents, n).len(),
    ensures
        base_files(set, contents, n)[i].insertion_point is None,
        starts_with_marker(base_files(set, contents, n)[i].content),
        ends_with_insertion_point(base_files(set, contents, n)[i].content),
    decreases n,
{
    if n > 0 {
        let before = base_files(set, contents, n - 1);
        if i < before.len() {
            lemma_base_files_are_enveloped(set, contents, n - 1, i);
        } else {
            let request = set.requests@[n - 1];
            let content = content_for(contents, request.module@);
            let file = base_output(set, request.module@, content)->0;
            assert(base_files(set, contents, n)[i] == file);
            let text = enveloped(content);
            assert(text.subrange(0, GENERATED_HEADER@.len() as int) =~= GENERATED_HEADER@);
            assert(text.subrange(text.len() - INSERTION_POINT_MARKER@.len(), text.len() as int)
                =~= INSERTION_POINT_MARKER@);
        }
    }
}

/// In a set whose requests keep apart, no two main files that the
/// base-type stage creates have the same name: each has the path of the
/// main file of its own request, and no later request has that path.
pub proof fn lemma_base_files_keep_apart(
    set: ModuleRequestSet,
    contents: Seq<(Seq<Seq<char>>, Seq<char>)>,
    n: int,
)
    requires
        set.distinct(),
        0 <= n <= set.requests@.len(),
    ensures
        whole_names_distinct(base_files(set, contents, n)),
        forall|i: int|
            0 <= i < base_files(set, contents, n).len() ==> is_main_path(
                set,
                (#[trigger] base_files(set, contents, n)[i]).name,
            ),
        forall|i: int, k: int|
            0 <= i < base_files(set, contents, n).len() && n <= k < set.requests@.len() ==> (
            #[trigger] set.requests@[k]).filepath() != Some(
                (#[trigger] base_files(set, contents, n)[i]).name,
            ),
    decreases n,
{
    if n > 0 {
        lemma_base_files_keep_apart(set, contents, n - 1);
        let before = base_files(set, contents, n - 1);
        let files = base_files(set, contents, n);
        let request = set.requests@[n - 1];
        lemma_own_position(set, n - 1);
        assert forall|i: int| 0 <= i < files.len() implies is_main_path(
            set,
            (#[trigger] files[i]).name,
        ) by {
            if i < before.len() {
                assert(files[i] == before[i]);
            } else {
                assert(set.requests@[n - 1].filepath() == Some(files[i].name));
            }
        }
        assert forall|i: int, k: int|
            0 <= i < files.len() && n <= k < set.requests@.len() implies (
        #[trigger] set.requests@[k]).filepath() != Some((#[trigger] files[i]).name) by {
            if i < before.len() {
                assert(files[i] == before[i]);
            } else {
                assert(!set.requests@[n - 1].clashes_with(set.requests@[k]));
            }
        }
        assert forall|i: int, j: int|
            0 <= i < j < files.len() && (#[trigger] files[i]).insertion_point is None && (
            #[trigger] files[j]).insertion_point is None implies files[i].name
            != files[j].name by {
            assert(files[i] == before[i]);
            if j < before.len() {
                assert(files[j] == before[j]);
            } else {
                assert(set.requests@[n - 1].filepath() != Some(before[i].name));
            }
        }
    }
}

proof fn lemma_main_file_stays(
    set: ModuleRequestSet,
    contents: Seq<(Seq<Seq<char>>, Seq<char>)>,
    k: int,
    n: int,
)
    requires
        set.distinct(),
        0 <= k < n <= set.requests@.len(),
        set.requests@[k].files@.len() > 0,
        set.requests@[k].filepath() is Some,
    ensures
        base_files(set, contents, n).contains(
            whole_file(
                set.requests@[k].filepath()->0,
                enveloped(content_for(contents, set.requests@[k].module@)),
            ),
        ),
    decreases n,
{
    let file = whole_file(
        set.requests@[k].filepath()->0,
        enveloped(content_for(contents, set.requests@[k].module@)),
    );
    let before = base_files(set, contents, n - 1);
    let files = base_files(set, contents, n);
    if n == k + 1 {
        lemma_own_position(set, k);
        assert(files[before.len() as int] == file);
    } else {
        lemma_main_file_stays(set, contents, k, n - 1);
        let i = choose|i: int| 0 <= i < before.len() && before[i] == file;
        assert(files[i] == file);
    }
}

/// In a set whose requests keep apart, the base-type stage creates the
/// main file of every request that has protobuf files and was asked for:
/// under the request's path, with the definitions of the request's module
/// in the envelope. No other file that it creates has that name.
pub proof fn lemma_each_module_has_its_main_file(
    set: ModuleRequestSet,
    contents: Seq<(Seq<Seq<char>>, Seq<char>)>,
    k: int,
)
    requires
        set.distinct(),
        0 <= k < set.requests@.len(),
        set.requests@[k].files@.len() > 0,
        set.requests@[k].filepath() is Some,
    ensures
        base_files(set, contents, set.requests@.len() as int).contains(
            whole_file(
                set.requests@[k].filepath()->0,
                enveloped(content_for(contents, set.requests@[k].module@)),
            ),
        ),
        whole_names_distinct(base_files(set, contents, set.requests@.len() as int)),
{
    lemma_main_file_stays(set, contents, k, set.requests@.len() as int);
    lemma_base_files_keep_apart(set, contents, set.requests@.len() as int);
}

} // verus!
