//! Requests to generate code, one per module, and the files that come out.

use crate::descriptor::FileDescriptor;
use crate::module::Module;
use crate::text::same_text;
use vstd::prelude::*;
use vstd::string::*;

verus! {

/// The line that every generated file starts with.
pub const GENERATED_HEADER: &'static str = "// @generated\n";

/// The line that ends a module's main file and marks where other stages
/// insert what they append.
pub const INSERTION_POINT_MARKER: &'static str = "// @@protoc_insertion_point(module)\n";

/// What the name of a route file ends with, after the package name.
pub const SIBLING_SUFFIX: &'static str = ".axum.connect.rs";

/// The name of the route file of a package.
pub open spec fn sibling_name(package: Seq<char>) -> Seq<char> {
    package + SIBLING_SUFFIX@
}

/// The insertion point of a module's main file, into which other stages
/// append.
pub const MODULE_INSERTION_POINT: &'static str = "module";

/// Why a stage produced no files.
#[derive(Clone, Debug, PartialEq, Eq)]
pub enum GenerateError {
    /// A code generation library reported an error, with this message.
    Codegen(String),
    /// A code generation library handed back text that is not UTF-8.
    Encoding,
}

/// An error as texts.
pub ghost enum ErrorView {
    Codegen(Seq<char>),
    Encoding,
}

impl View for GenerateError {
    type V = ErrorView;

    open spec fn view(&self) -> ErrorView {
        match self {
            GenerateError::Codegen(message) => ErrorView::Codegen(message@),
            GenerateError::Encoding => ErrorView::Encoding,
        }
    }
}

/// What a stage hands back: the files it wrote, or why it wrote none.
pub open spec fn outcome_view(outcome: Result<Vec<GeneratedFile>, GenerateError>) -> Result<
    Seq<FileView>,
    ErrorView,
> {
    match outcome {
        Ok(files) => Ok(file_views(files@)),
        Err(error) => Err(error@),
    }
}

/// One file of generated output. With an insertion point the content is a
/// fragment to insert into the file of that name, which another stage
/// creates; without one the content is the whole file.
#[derive(Clone, Debug, PartialEq, Eq)]
pub struct GeneratedFile {
    pub name: String,
    pub content: String,
    pub insertion_point: Option<String>,
}

/// A generated file as texts.
pub ghost struct FileView {
    pub name: Seq<char>,
    pub content: Seq<char>,
    pub insertion_point: Option<Seq<char>>,
}

impl View for GeneratedFile {
    type V = FileView;

    open spec fn view(&self) -> FileView {
        FileView {
            name: self.name@,
            content: self.content@,
            insertion_point: match self.insertion_point {
                Some(point) => Some(point@),
                None => None,
            },
        }
    }
}

/// The generated files held by a sequence, as texts.
pub open spec fn file_views(files: Seq<GeneratedFile>) -> Seq<FileView> {
    files.map_values(|file: GeneratedFile| file@)
}

/// A whole new file with the given name and content.
pub open spec fn whole_file(name: Seq<char>, content: Seq<char>) -> FileView {
    FileView { name, content, insertion_point: None }
}

/// A fragment to append to the module file of the given name.
pub open spec fn appended_fragment(name: Seq<char>, content: Seq<char>) -> FileView {
    FileView { name, content, insertion_point: Some(MODULE_INSERTION_POINT@) }
}

/// What is to be generated for one module: the protobuf files of one
/// package, and where the module's main file goes. A module that was not
/// asked for has no output file name, and nothing is written for it.
#[derive(Clone, Debug, PartialEq, Eq)]
pub struct ModuleRequest {
    pub proto_package_name: String,
    pub module: Module,
    /// The directory of the module's files, empty or ending in a slash.
    pub output_dir: String,
    /// The name of the module's main file within `output_dir`.
    pub output_filename: Option<String>,
    pub files: Vec<FileDescriptor>,
}

impl ModuleRequest {
    /// The path of the module's main file, if the module was asked for.
    pub open spec fn filepath(&self) -> Option<Seq<char>> {
        match self.output_filename {
            Some(name) => Some(self.output_dir@ + name@),
            None => None,
        }
    }

    /// The path of the module's route file: the file beside the main file
    /// that is named after the package.
    pub open spec fn route_filepath(&self) -> Seq<char> {
        self.output_dir@ + sibling_name(self.proto_package_name@)
    }

    /// Whether the module's route file would take the place of its own main
    /// file.
    pub open spec fn overwrites_itself(&self) -> bool {
        self.filepath() == Some(self.route_filepath())
    }

    /// Whether two requests cannot stand in one set: they are for the same
    /// module, or a file that is created for one has the path of a file that
    /// is created for the other.
    pub open spec fn clashes_with(&self, other: ModuleRequest) -> bool {
        ||| self.module@ == other.module@
        ||| self.route_filepath() == other.route_filepath()
        ||| (self.filepath() is Some && self.filepath() == other.filepath())
        ||| self.filepath() == Some(other.route_filepath())
        ||| other.filepath() == Some(self.route_filepath())
    }

    /// A request is well formed when each of its files is.
    pub open spec fn well_formed(&self) -> bool {
        forall|i: int| 0 <= i < self.files@.len() ==> (#[trigger] self.files@[i]).well_formed()
    }

    /// The path of the module's route file.
    pub fn route_output_filepath(&self) -> (path: String)
        ensures
            path@ == self.route_filepath(),
    {
        let mut name = self.proto_package_name.clone();
        name.append(SIBLING_SUFFIX);
        let mut path = self.output_dir.clone();
        path.append(name.as_str());
        path
    }

    /// Whether the module's route file would take the place of its own main
    /// file.
    pub fn is_overwriting_itself(&self) -> (r: bool)
        ensures
            r == self.overwrites_itself(),
    {
        let route = self.route_output_filepath();
        match self.output_filepath() {
            Some(path) => same_text(path.as_str(), route.as_str()),
            None => false,
        }
    }

    /// Whether the two requests cannot stand in one set.
    pub fn is_clashing_with(&self, other: &ModuleRequest) -> (r: bool)
        ensures
            r == self.clashes_with(*other),
    {
        let route = self.route_output_filepath();
        let other_route = other.route_output_filepath();
        if self.module.same_as(&other.module) || same_text(route.as_str(), other_route.as_str()) {
            return true;
        }
        let main = self.output_filepath();
        let other_main = other.output_filepath();
        let taken = match &main {
            Some(path) => same_text(path.as_str(), other_route.as_str()) || match &other_main {
                Some(other_path) => same_text(path.as_str(), other_path.as_str()),
                None => false,
            },
            None => false,
        };
        let taking = match &other_main {
            Some(other_path) => same_text(other_path.as_str(), route.as_str()),
            None => false,
        };
        taken || taking
    }

    /// Whether each file of the request is well formed.
    pub fn is_well_formed(&self) -> (r: bool)
        ensures
            r == self.well_formed(),
    {
        let mut i: usize = 0;
        while i < self.files.len()
            invariant
                i <= self.files.len(),
                forall|j: int| 0 <= j < i ==> (#[trigger] self.files@[j]).well_formed(),
            decreases self.files.len() - i,
        {
            if !self.files[i].is_well_formed() {
                return false;
            }
            i += 1;
        }
        true
    }

    /// The path of the module's main file, if the module was asked for.
    pub fn output_filepath(&self) -> (path: Option<String>)
        ensures
            match path {
                Some(p) => self.filepath() == Some(p@),
                None => self.filepath() is None,
            },
    {
        match &self.output_filename {
            Some(name) => {
                let mut path = self.output_dir.clone();
                path.append(name.as_str());
                Some(path)
            },
            None => None,
        }
    }

    /// The module's main file with `content` as its whole content, if the
    /// module was asked for.
    pub fn write_to_file(&self, content: String) -> (file: Option<GeneratedFile>)
        ensures
            match file {
                Some(f) => self.filepath() matches Some(path) && f@ == whole_file(path, content@),
                None => self.filepath() is None,
            },
    {
        match self.output_filepath() {
            Some(name) => Some(GeneratedFile { name, content, insertion_point: None }),
            None => None,
        }
    }

    /// A fragment that appends `content` to the module's main file, if the
    /// module was asked for. Nothing is appended to a file that no one asked
    /// for.
    pub fn append_to_file(&self, content: String) -> (file: Option<GeneratedFile>)
        ensures
            match file {
                Some(f) => self.filepath() matches Some(path) && f@ == appended_fragment(
                    path,
                    content@,
                ),
                None => self.filepath() is None,
            },
    {
        match self.output_filepath() {
            Some(name) => Some(
                GeneratedFile {
                    name,
                    content,
                    insertion_point: Some(MODULE_INSERTION_POINT.to_owned()),
                },
            ),
            None => None,
        }
    }
}

/// The requests of one run, in the order in which their output is written.
/// A well-formed set holds each module once and gives every file that is
/// created for it, main file or route file, a path of its own; then a path
/// is created at most once in a run, and what else goes to it is appended.
#[derive(Clone, Debug, PartialEq, Eq)]
pub struct ModuleRequestSet {
    pub requests: Vec<ModuleRequest>,
}

/// The index of the first request for `module` among the first `n`.
pub open spec fn index_for(requests: Seq<ModuleRequest>, module: Seq<Seq<char>>, n: int) -> Option<
    int,
>
    decreases n,
{
    if n <= 0 {
        None
    } else {
        match index_for(requests, module, n - 1) {
            Some(i) => Some(i),
            None => if requests[n - 1].module@ == module {
                Some(n - 1)
            } else {
                None
            },
        }
    }
}

impl ModuleRequestSet {
    /// The set of the given requests.
    pub fn new(requests: Vec<ModuleRequest>) -> (set: ModuleRequestSet)
        ensures
            set.requests == requests,
    {
        ModuleRequestSet { requests }
    }

    /// Whether every method of the set can be bound: each request is well
    /// formed.
    pub open spec fn bindable(&self) -> bool {
        forall|i: int|
            0 <= i < self.requests@.len() ==> (#[trigger] self.requests@[i]).well_formed()
    }

    /// Whether the requests keep apart: no two are for the same module, and
    /// no two of the files that are created for them, main files and route
    /// files, have the same path.
    pub open spec fn distinct(&self) -> bool {
        &&& forall|i: int|
            0 <= i < self.requests@.len() ==> !(#[trigger] self.requests@[i]).overwrites_itself()
        &&& forall|i: int, j: int|
            0 <= i < j < self.requests@.len() ==> !(#[trigger] self.requests@[i]).clashes_with(
                #[trigger] self.requests@[j],
            )
    }

    /// A set is well formed when every method in it can be bound and its
    /// requests keep apart.
    pub open spec fn well_formed(&self) -> bool {
        self.bindable() && self.distinct()
    }

    /// The index of the first request for `module`.
    pub open spec fn position(&self, module: Seq<Seq<char>>) -> Option<int> {
        index_for(self.requests@, module, self.requests@.len() as int)
    }

    /// Whether the set is well formed.
    pub fn is_well_formed(&self) -> (r: bool)
        ensures
            r == self.well_formed(),
    {
        self.is_bindable() && self.is_distinct()
    }

    /// Whether the requests keep apart.
    pub fn is_distinct(&self) -> (r: bool)
        ensures
            r == self.distinct(),
    {
        let mut i: usize = 0;
        while i < self.requests.len()
            invariant
                i <= self.requests.len(),
                forall|a: int| 0 <= a < i ==> !(#[trigger] self.requests@[a]).overwrites_itself(),
                forall|a: int, b: int|
                    0 <= a < i && a < b < self.requests@.len() ==> !(
                    #[trigger] self.requests@[a]).clashes_with(#[trigger] self.requests@[b]),
            decreases self.requests.len() - i,
        {
            if self.requests[i].is_overwriting_itself() {
                return false;
            }
            let mut j: usize = i + 1;
            while j < self.requests.len()
                invariant
                    i < j <= self.requests.len(),
                    forall|b: int|
                        i < b < j ==> !self.requests@[i as int].clashes_with(
                            #[trigger] self.requests@[b],
                        ),
                decreases self.requests.len() - j,
            {
                if self.requests[i].is_clashing_with(&self.requests[j]) {
                    return false;
                }
                j += 1;
            }
            i += 1;
        }
        true
    }

    /// Whether every method of the set can be bound.
    pub fn is_bindable(&self) -> (r: bool)
        ensures
            r == self.bindable(),
    {
        let mut i: usize = 0;
        while i < self.requests.len()
            invariant
                i <= self.requests.len(),
                forall|j: int| 0 <= j < i ==> (#[trigger] self.requests@[j]).well_formed(),
            decreases self.requests.len() - i,
        {
            if !self.requests[i].is_well_formed() {
                return false;
            }
            i += 1;
        }
        true
    }

    /// The first request for `module`, if there is one.
    pub fn for_module(&self, module: &Module) -> (found: Option<&ModuleRequest>)
        ensures
            match found {
                Some(request) => self.position(module@) matches Some(i) && 0 <= i
                    < self.requests@.len() && *request == self.requests@[i],
                None => self.position(module@) is None,
            },
    {
        let mut i: usize = 0;
        while i < self.requests.len()
            invariant
                i <= self.requests.len(),
                index_for(self.requests@, module@, i as int) is None,
            decreases self.requests.len() - i,
        {
            if self.requests[i].module.same_as(module) {
                proof {
                    lemma_index_found(self.requests@, module@, i as int, self.requests@.len() as int);
                }
                return Some(&self.requests[i]);
            }
            i += 1;
        }
        None
    }
}

/// Once the first request for a module is found, later requests do not
/// change the answer.
proof fn lemma_index_found(requests: Seq<ModuleRequest>, module: Seq<Seq<char>>, i: int, n: int)
    requires
        0 <= i < n <= requests.len(),
        index_for(requests, module, i) is None,
        requests[i].module@ == module,
    ensures
        index_for(requests, module, n) == Some(i),
    decreases n,
{
    if n > i + 1 {
        lemma_index_found(requests, module, i, n - 1);
    }
}

/// Whether a file content starts with the line that marks generated code.
pub open spec fn starts_with_marker(content: Seq<char>) -> bool {
    GENERATED_HEADER@.is_prefix_of(content)
}

/// Whether a file content ends with the line that marks the insertion
/// point.
pub open spec fn ends_with_insertion_point(content: Seq<char>) -> bool {
    INSERTION_POINT_MARKER@.is_suffix_of(content)
}

/// The request found for a module is the first one for it: no request
/// before it is for the module. Where none is found, none is for the
/// module.
pub proof fn lemma_position_is_first(set: ModuleRequestSet, module: Seq<Seq<char>>)
    ensures
        match set.position(module) {
            Some(i) => {
                &&& 0 <= i < set.requests@.len()
                &&& set.requests@[i].module@ == module
                &&& forall|j: int| 0 <= j < i ==> (#[trigger] set.requests@[j]).module@ != module
            },
            None => forall|j: int|
                0 <= j < set.requests@.len() ==> (#[trigger] set.requests@[j]).module@ != module,
        },
{
    lemma_index_is_first(set.requests@, module, set.requests@.len() as int);
}

proof fn lemma_index_is_first(requests: Seq<ModuleRequest>, module: Seq<Seq<char>>, n: int)
    requires
        0 <= n <= requests.len(),
    ensures
        match index_for(requests, module, n) {
            Some(i) => {
                &&& 0 <= i < n
                &&& requests[i].module@ == module
                &&& forall|j: int| 0 <= j < i ==> (#[trigger] requests[j]).module@ != module
            },
            None => forall|j: int| 0 <= j < n ==> (#[trigger] requests[j]).module@ != module,
        },
    decreases n,
{
    if n > 0 {
        lemma_index_is_first(requests, module, n - 1);
    }
}

/// Whether no two whole files among `files` have the same name.
pub open spec fn whole_names_distinct(files: Seq<FileView>) -> bool {
    forall|i: int, j: int|
        0 <= i < j < files.len() && (#[trigger] files[i]).insertion_point is None && (
        #[trigger] files[j]).insertion_point is None ==> files[i].name != files[j].name
}

/// Whether `name` is the path of the main file of a request of `set`.
pub open spec fn is_main_path(set: ModuleRequestSet, name: Seq<char>) -> bool {
    exists|k: int|
        0 <= k < set.requests@.len() && (#[trigger] set.requests@[k]).filepath() == Some(name)
}

/// In a set whose requests keep apart, the request found for the module of
/// a request is that request.
pub proof fn lemma_own_position(set: ModuleRequestSet, k: int)
    requires
        set.distinct(),
        0 <= k < set.requests@.len(),
    ensures
        set.position(set.requests@[k].module@) == Some(k),
{
    let module = set.requests@[k].module@;
    lemma_position_is_first(set, module);
    let found = set.position(module);
    assert(found is Some) by {
        if found is None {
            assert(set.requests@[k].module@ != module);
        }
    }
    let i = found->0;
    if i < k {
        assert(set.requests@[i].clashes_with(set.requests@[k]));
    } else if k < i {
        assert(set.requests@[k].module@ != module);
    }
}

} // verus!
