//! The route stage: for each service, a namespace with one entry point per
//! binding of each method, written as Rust source into the route file of the
//! service's module, between the generation marker and the marker of the
//! insertion point.

use crate::descriptor::{FileDescriptor, MethodDescriptor, ServiceDescriptor};
use crate::module::Module;
use crate::request::{
    appended_fragment, ends_with_insertion_point, file_views, outcome_view, sibling_name,
    starts_with_marker, whole_file, whole_names_distinct, ErrorView, FileView, GenerateError,
    GeneratedFile, ModuleRequest, ModuleRequestSet, GENERATED_HEADER, INSERTION_POINT_MARKER,
    SIBLING_SUFFIX,
};
use crate::resolver::{overrides_view, type_reference, Resolver};
use crate::text::{end_line, line_ended, path_segments};
use crate::util::{guarded, snake_case_ident, to_snake, to_upper_camel, upper_camel_case};
use vstd::prelude::*;
use vstd::string::*;

verus! {

/// How a bound route is invoked: with the message in the request body, or
/// with the message in the query string.
#[derive(Clone, Copy, Debug, PartialEq, Eq, Structural)]
pub enum Verb {
    Post,
    Get,
}

/// One route: an entry point that registers a handler under a path and an
/// invocation verb.
#[derive(Clone, Debug, PartialEq, Eq)]
pub struct Binding {
    /// The name of the generated entry point.
    pub name: String,
    pub verb: Verb,
    /// The route path, `/package.Service/Method`.
    pub path: String,
    /// The Rust reference to the request message.
    pub input_type: String,
    /// The Rust reference to the response message.
    pub output_type: String,
    /// Whether the handler answers with a stream of messages.
    pub streaming: bool,
}

/// A binding as texts.
pub ghost struct BindingView {
    pub name: Seq<char>,
    pub verb: Verb,
    pub path: Seq<char>,
    pub input_type: Seq<char>,
    pub output_type: Seq<char>,
    pub streaming: bool,
}

impl View for Binding {
    type V = BindingView;

    open spec fn view(&self) -> BindingView {
        BindingView {
            name: self.name@,
            verb: self.verb,
            path: self.path@,
            input_type: self.input_type@,
            output_type: self.output_type@,
            streaming: self.streaming,
        }
    }
}

/// The bindings held by a sequence, as texts.
pub open spec fn binding_views(bindings: Seq<Binding>) -> Seq<BindingView> {
    bindings.map_values(|binding: Binding| binding@)
}

/// What the name of the entry point by query string ends with.
pub const UNARY_GET_SUFFIX: &'static str = "_unary_get";

/// The line that includes a route file, before the file name.
pub const INCLUDE_OPEN: &'static str = "include!(\"";

/// The line that includes a route file, after the file name.
pub const INCLUDE_CLOSE: &'static str = "\");\n";

/// An entry point, up to its name.
pub const ENTRY_OPEN: &'static str = "pub fn ";

/// An entry point, from its name to the name of the handler capability.
pub const ENTRY_SIGNATURE: &'static str =
    "<T, H, S>(handler: H) -> impl FnOnce(axum::Router<S>) -> axum_connect::router::RpcRouter<S>\nwhere\n    H: axum_connect::handler::";

/// The capability of a handler that answers with one message.
pub const UNARY_HANDLER: &'static str = "RpcHandlerUnary";

/// The capability of a handler that answers with a stream of messages.
pub const STREAM_HANDLER: &'static str = "RpcHandlerStream";

/// An entry point, between the handler capability and the request type.
pub const TYPES_OPEN: &'static str = "<";

/// An entry point, between the request type and the response type.
pub const TYPES_BETWEEN: &'static str = ", ";

/// An entry point, from the response type to the route path.
pub const ENTRY_BOUNDS: &'static str =
    ", T, S>,\n    T: 'static,\n    S: Clone + Send + Sync + 'static,\n{\n    move |router: axum::Router<S>| {\n        router.route(\n            ";

/// An entry point, between the route path and the verb.
pub const ROUTE_VERB: &'static str = ",\n            axum::routing::";

/// The routing function for requests that carry the message in the body.
pub const POST_VERB: &'static str = "post";

/// The routing function for requests that carry the message in the query.
pub const GET_VERB: &'static str = "get";

/// An entry point, from the verb to its end: the adapter that takes the
/// server state and the request and passes both to the handler.
pub const ENTRY_CLOSE: &'static str =
    "(|\n                axum::extract::State(state): axum::extract::State<S>,\n                request: axum::http::Request<axum::body::Body>\n            | async move {\n                handler.call(request, state).await\n            }),\n        )\n    }\n}\n";

/// A namespace, up to its name.
pub const NAMESPACE_OPEN: &'static str = "pub struct ";

/// A namespace, between its declaration and the block of its entry points.
pub const NAMESPACE_IMPL: &'static str = ";\n\n#[allow(dead_code)]\nimpl ";

/// A namespace, between its name and its entry points.
pub const NAMESPACE_BODY: &'static str = " {\n";

/// A namespace, after its entry points.
pub const NAMESPACE_CLOSE: &'static str = "}\n";

/// How `proc_macro2` writes out the tokens of a piece of Rust source, or
/// `None` where the source cannot be split into tokens.
pub uninterp spec fn token_text(source: Seq<char>) -> Option<Seq<char>>;

/// The Rust string literal that `proc_macro2` writes for a text.
pub uninterp spec fn string_literal(text: Seq<char>) -> Seq<char>;

/// The path under which a method is served.
pub open spec fn route_path(package: Seq<char>, service: Seq<char>, method: Seq<char>) -> Seq<
    char,
> {
    "/"@ + package + "."@ + service + "/"@ + method
}

/// The bindings of a method, given the name of its entry point, its route
/// path, the references to its message types and its two streaming flags. A
/// method whose requests are a stream has none. One whose responses are a
/// stream has one, by request body. Any other has two, under the same path
/// and with the same handler: one by request body and one by query string.
pub open spec fn policy_bindings(
    name: Seq<char>,
    path: Seq<char>,
    input_type: Seq<char>,
    output_type: Seq<char>,
    client_streaming: bool,
    server_streaming: bool,
) -> Seq<BindingView> {
    let by_body = BindingView {
        name,
        verb: Verb::Post,
        path,
        input_type,
        output_type,
        streaming: server_streaming,
    };
    if client_streaming {
        Seq::empty()
    } else if server_streaming {
        seq![by_body]
    } else {
        seq![by_body, BindingView { name: name + UNARY_GET_SUFFIX@, verb: Verb::Get, ..by_body }]
    }
}

/// The bindings of one method of the service `service` in `package`, for
/// code in `module`: the entry point is named after the method, the path is
/// the method's route path, and the message types are resolved against the
/// overrides `table`.
pub open spec fn method_bindings(
    table: Seq<(Seq<char>, Seq<char>)>,
    module: Seq<Seq<char>>,
    package: Seq<char>,
    service: Seq<char>,
    method: MethodDescriptor,
) -> Seq<BindingView> {
    policy_bindings(
        snake_case_ident(path_segments(method.name@)[0]),
        route_path(package, service, method.name@),
        type_reference(table, module, method.input_type@),
        type_reference(table, module, method.output_type@),
        method.client_streaming,
        method.server_streaming,
    )
}

/// The bindings of the first `n` methods of a service, in order.
pub open spec fn service_bindings(
    table: Seq<(Seq<char>, Seq<char>)>,
    module: Seq<Seq<char>>,
    package: Seq<char>,
    service: ServiceDescriptor,
    n: int,
) -> Seq<BindingView>
    decreases n,
{
    if n <= 0 {
        Seq::empty()
    } else {
        service_bindings(table, module, package, service, n - 1) + method_bindings(
            table,
            module,
            package,
            service.name@,
            service.methods@[n - 1],
        )
    }
}

/// The name of the handler capability that a binding asks for.
pub open spec fn handler_name(streaming: bool) -> Seq<char> {
    if streaming {
        STREAM_HANDLER@
    } else {
        UNARY_HANDLER@
    }
}

/// The name of the routing function for a verb.
pub open spec fn verb_name(verb: Verb) -> Seq<char> {
    match verb {
        Verb::Post => POST_VERB@,
        Verb::Get => GET_VERB@,
    }
}

/// The source of the entry point for one binding, with `literal` as the
/// string literal of its path: a function that takes a handler and returns
/// what installs, on a router, the route from the path to that handler.
pub open spec fn entry_source(binding: BindingView, literal: Seq<char>) -> Seq<char> {
    ENTRY_OPEN@ + binding.name + ENTRY_SIGNATURE@ + handler_name(binding.streaming) + TYPES_OPEN@
        + binding.input_type + TYPES_BETWEEN@ + binding.output_type + ENTRY_BOUNDS@ + literal
        + ROUTE_VERB@ + verb_name(binding.verb) + ENTRY_CLOSE@
}

/// The source of the entry point for one binding.
pub open spec fn binding_source(binding: BindingView) -> Seq<char> {
    entry_source(binding, string_literal(binding.path))
}

/// The sources of the entry points for `bindings`, one after another.
pub open spec fn bindings_source(bindings: Seq<BindingView>) -> Seq<char>
    decreases bindings.len(),
{
    if bindings.len() == 0 {
        Seq::empty()
    } else {
        bindings_source(bindings.drop_last()) + binding_source(bindings.last())
    }
}

/// The source of a namespace called `name` that holds the entry points for
/// `bindings`.
pub open spec fn namespace_source(name: Seq<char>, bindings: Seq<BindingView>) -> Seq<char> {
    NAMESPACE_OPEN@ + name + NAMESPACE_IMPL@ + name + NAMESPACE_BODY@ + bindings_source(bindings)
        + NAMESPACE_CLOSE@
}

/// The source of the namespace for a service, or `None` for a service
/// without bindings.
pub open spec fn service_source(
    table: Seq<(Seq<char>, Seq<char>)>,
    module: Seq<Seq<char>>,
    package: Seq<char>,
    service: ServiceDescriptor,
) -> Option<Seq<char>> {
    let bindings = service_bindings(table, module, package, service, service.methods@.len() as int);
    if bindings.len() == 0 {
        None
    } else {
        Some(namespace_source(guarded(upper_camel_case(service.name@)), bindings))
    }
}

/// The sources of the namespaces for the first `n` services of a file.
pub open spec fn file_source(
    table: Seq<(Seq<char>, Seq<char>)>,
    module: Seq<Seq<char>>,
    file: FileDescriptor,
    n: int,
) -> Seq<char>
    decreases n,
{
    if n <= 0 {
        Seq::empty()
    } else {
        file_source(table, module, file, n - 1) + match service_source(
            table,
            module,
            file.package@,
            file.services@[n - 1],
        ) {
            Some(source) => source,
            None => Seq::empty(),
        }
    }
}

/// The sources of the namespaces for the services of the first `n` files.
pub open spec fn files_source(
    table: Seq<(Seq<char>, Seq<char>)>,
    module: Seq<Seq<char>>,
    files: Seq<FileDescriptor>,
    n: int,
) -> Seq<char>
    decreases n,
{
    if n <= 0 {
        Seq::empty()
    } else {
        files_source(table, module, files, n - 1) + file_source(
            table,
            module,
            files[n - 1],
            files[n - 1].services@.len() as int,
        )
    }
}

/// The tokens of `source` as `rendering` gives them, or `source` itself
/// where it could not be split into tokens.
pub open spec fn rendered(source: Seq<char>, rendering: Option<Seq<char>>) -> Seq<char> {
    match rendering {
        Some(tokens) => tokens,
        None => source,
    }
}

/// The content of a route file for the namespaces `source`, of which
/// `rendering` holds the written tokens, if it has any: the generation
/// marker, then the namespaces, ended by a line break, then the marker of
/// the insertion point.
pub open spec fn route_file_text(source: Seq<char>, rendering: Option<Seq<char>>) -> Seq<char> {
    line_ended(GENERATED_HEADER@ + rendered(source, rendering)) + INSERTION_POINT_MARKER@
}

/// The content of a route file for the namespaces `source`.
pub open spec fn route_content(source: Seq<char>) -> Seq<char> {
    route_file_text(source, token_text(source))
}

/// The line that includes the file `filename`.
pub open spec fn include_directive(filename: Seq<char>) -> Seq<char> {
    INCLUDE_OPEN@ + filename + INCLUDE_CLOSE@
}

/// What the route stage writes for one request: nothing where no service
/// has a binding or the module was not asked for; else a line appended to
/// the module's main file that includes the route file, and the route file.
pub open spec fn route_output(
    table: Seq<(Seq<char>, Seq<char>)>,
    module: Seq<Seq<char>>,
    request: ModuleRequest,
) -> Option<Seq<FileView>> {
    let source = files_source(table, module, request.files@, request.files@.len() as int);
    let sibling = sibling_name(request.proto_package_name@);
    if source.len() == 0 {
        None
    } else {
        match request.filepath() {
            None => None,
            Some(path) => Some(
                seq![
                    appended_fragment(path, include_directive(sibling)),
                    whole_file(request.route_filepath(), route_content(source)),
                ],
            ),
        }
    }
}

/// What the route stage writes for the first `n` requests, in order.
pub open spec fn route_files(
    table: Seq<(Seq<char>, Seq<char>)>,
    requests: Seq<ModuleRequest>,
    n: int,
) -> Seq<FileView>
    decreases n,
{
    if n <= 0 {
        Seq::empty()
    } else {
        route_files(table, requests, n - 1) + match route_output(
            table,
            requests[n - 1].module@,
            requests[n - 1],
        ) {
            Some(files) => files,
            None => Seq::empty(),
        }
    }
}

/// Parses `source` with `proc_macro2::TokenStream`'s `from_str` and writes
/// the tokens out with its `to_string`. Outside a procedural macro, both
/// depend on `source` alone; the result is named `token_text`.
#[verifier::external_body]
fn render_tokens(source: &str) -> (out: Option<String>)
    ensures
        match out {
            Some(tokens) => token_text(source@) == Some(tokens@),
            None => token_text(source@) is None,
        },
{
    source.parse::<proc_macro2::TokenStream>().ok().map(|tokens| tokens.to_string())
}

/// Writes `text` as a Rust string literal with `proc_macro2::Literal::string`
/// and its `to_string`: the text between double quotes, escaped. The result
/// is named `string_literal`.
#[verifier::external_body]
fn quote_string(text: &str) -> (out: String)
    ensures
        out@ == string_literal(text@),
{
    proc_macro2::Literal::string(text).to_string()
}

/// The sources of several entry points follow one another.
pub proof fn lemma_bindings_source_concat(a: Seq<BindingView>, b: Seq<BindingView>)
    ensures
        bindings_source(a + b) == bindings_source(a) + bindings_source(b),
    decreases b.len(),
{
    if b.len() == 0 {
        assert(a + b =~= a);
        assert(bindings_source(a) + bindings_source(b) =~= bindings_source(a));
    } else {
        lemma_bindings_source_concat(a, b.drop_last());
        assert((a + b).drop_last() =~= a + b.drop_last());
        assert((a + b).last() == b.last());
        assert(bindings_source(a) + (bindings_source(b.drop_last()) + binding_source(b.last()))
            =~= bindings_source(a) + bindings_source(b.drop_last()) + binding_source(b.last()));
    }
}

/// Chooses between the written tokens of a source and the source itself.
pub fn rendered_or_source(source: String, rendering: Option<String>) -> (out: String)
    ensures
        out@ == rendered(
            source@,
            match rendering {
                Some(tokens) => Some(tokens@),
                None => None,
            },
        ),
{
    match rendering {
        Some(tokens) => tokens,
        None => source,
    }
}

/// The content of the route file for the namespaces `source`, of which
/// `rendering` holds the written tokens, if it has any.
pub fn route_file_content(source: String, rendering: Option<String>) -> (out: String)
    ensures
        out@ == route_file_text(
            source@,
            match rendering {
                Some(tokens) => Some(tokens@),
                None => None,
            },
        ),
{
    let body = rendered_or_source(source, rendering);
    let mut content = GENERATED_HEADER.to_owned();
    content.append(body.as_str());
    let mut content = end_line(content);
    content.append(INSERTION_POINT_MARKER);
    content
}

/// The source of the entry point for one binding, with `literal` as the
/// string literal of its path.
pub fn render_entry(binding: &Binding, literal: &str) -> (out: String)
    ensures
        out@ == entry_source(binding@, literal@),
{
    let mut out = ENTRY_OPEN.to_owned();
    out.append(binding.name.as_str());
    out.append(ENTRY_SIGNATURE);
    out.append(
        if binding.streaming {
            STREAM_HANDLER
        } else {
            UNARY_HANDLER
        },
    );
    out.append(TYPES_OPEN);
    out.append(binding.input_type.as_str());
    out.append(TYPES_BETWEEN);
    out.append(binding.output_type.as_str());
    out.append(ENTRY_BOUNDS);
    out.append(literal);
    out.append(ROUTE_VERB);
    out.append(
        match binding.verb {
            Verb::Post => POST_VERB,
            Verb::Get => GET_VERB,
        },
    );
    out.append(ENTRY_CLOSE);
    out
}

/// The source of the entry point for one binding.
pub fn render_binding(binding: &Binding) -> (out: String)
    ensures
        out@ == binding_source(binding@),
{
    let literal = quote_string(binding.path.as_str());
    render_entry(binding, literal.as_str())
}

/// The sources of the entry points for `bindings`, one after another.
pub fn render_bindings(bindings: &Vec<Binding>) -> (out: String)
    ensures
        out@ == bindings_source(binding_views(bindings@)),
{
    let mut out = String::new();
    let mut i: usize = 0;
    while i < bindings.len()
        invariant
            i <= bindings.len(),
            out@ == bindings_source(binding_views(bindings@).take(i as int)),
        decreases bindings.len() - i,
    {
        let entry = render_binding(&bindings[i]);
        assert(binding_views(bindings@).take(i + 1).drop_last() =~= binding_views(bindings@).take(
            i as int,
        ));
        assert(binding_views(bindings@).take(i + 1).last() == bindings@[i as int]@);
        out.append(entry.as_str());
        i += 1;
    }
    assert(binding_views(bindings@).take(bindings.len() as int) =~= binding_views(bindings@));
    out
}

/// The bindings of a method, given the name of its entry point, its route
/// path, the references to its message types and its two streaming flags.
pub fn bindings_for(
    name: String,
    path: String,
    input_type: String,
    output_type: String,
    client_streaming: bool,
    server_streaming: bool,
) -> (out: Vec<Binding>)
    ensures
        binding_views(out@) == policy_bindings(
            name@,
            path@,
            input_type@,
            output_type@,
            client_streaming,
            server_streaming,
        ),
{
    let mut out: Vec<Binding> = Vec::new();
    if client_streaming {
        assert(binding_views(out@) =~= Seq::empty());
    } else if server_streaming {
        let by_body = Binding {
            name,
            verb: Verb::Post,
            path,
            input_type,
            output_type,
            streaming: true,
        };
        out.push(by_body);
        assert(binding_views(out@) =~= seq![by_body@]);
    } else {
        let mut get_name = name.clone();
        get_name.append(UNARY_GET_SUFFIX);
        let by_query = Binding {
            name: get_name,
            verb: Verb::Get,
            path: path.clone(),
            input_type: input_type.clone(),
            output_type: output_type.clone(),
            streaming: false,
        };
        let by_body = Binding {
            name,
            verb: Verb::Post,
            path,
            input_type,
            output_type,
            streaming: false,
        };
        out.push(by_body);
        out.push(by_query);
        assert(binding_views(out@) =~= seq![by_body@, by_query@]);
    }
    out
}

/// The route stage, with the resolver for the types that methods name.
pub struct AxumConnectGenerator {
    resolver: Resolver,
}

impl View for AxumConnectGenerator {
    type V = Seq<(Seq<char>, Seq<char>)>;

    closed spec fn view(&self) -> Seq<(Seq<char>, Seq<char>)> {
        self.resolver@
    }
}

impl AxumConnectGenerator {
    /// The route stage that resolves types against the overrides
    /// `extern_path`, in the order in which they are tried.
    pub fn new(extern_path: Vec<(String, String)>) -> (generator: AxumConnectGenerator)
        ensures
            generator@ == overrides_view(extern_path@),
    {
        let resolver = Resolver::new(extern_path);
        AxumConnectGenerator { resolver }
    }

    /// What the stage hands back for `set`: the files for each request, in
    /// the order of the requests.
    pub open spec fn output(&self, set: ModuleRequestSet) -> Result<
        Seq<FileView>,
        ErrorView,
    > {
        Ok(route_files(self@, set.requests@, set.requests@.len() as int))
    }

    /// The bindings of one method of the service `service` in `package`,
    /// for code in `module`.
    pub fn bind_method(
        &self,
        module: &Module,
        package: &str,
        service: &str,
        method: &MethodDescriptor,
    ) -> (out: Vec<Binding>)
        requires
            method.well_formed(),
        ensures
            binding_views(out@) == method_bindings(self@, module@, package@, service@, *method),
    {
        let name = to_snake(method.name.as_str());
        let input_type = self.resolver.resolve_ident(module, method.input_type.as_str());
        let output_type = self.resolver.resolve_ident(module, method.output_type.as_str());
        let mut path = "/".to_owned();
        path.append(package);
        path.append(".");
        path.append(service);
        path.append("/");
        path.append(method.name.as_str());
        bindings_for(
            name,
            path,
            input_type,
            output_type,
            method.client_streaming,
            method.server_streaming,
        )
    }

    /// The source of the namespace for one service of `file`, for code in
    /// `module`; `None` for a service without bindings.
    pub fn generate_service(
        &self,
        module: &Module,
        file: &FileDescriptor,
        descriptor: &ServiceDescriptor,
    ) -> (out: Option<String>)
        requires
            descriptor.well_formed(),
        ensures
            match out {
                Some(source) => service_source(self@, module@, file.package@, *descriptor) == Some(
                    source@,
                ),
                None => service_source(self@, module@, file.package@, *descriptor) is None,
            },
    {
        let mut entries = String::new();
        let mut any = false;
        let mut i: usize = 0;
        while i < descriptor.methods.len()
            invariant
                i <= descriptor.methods.len(),
                descriptor.well_formed(),
                entries@ == bindings_source(
                    service_bindings(self@, module@, file.package@, *descriptor, i as int),
                ),
                any == (service_bindings(self@, module@, file.package@, *descriptor, i as int).len()
                    > 0),
            decreases descriptor.methods.len() - i,
        {
            let bindings = self.bind_method(
                module,
                file.package.as_str(),
                descriptor.name.as_str(),
                &descriptor.methods[i],
            );
            proof {
                lemma_bindings_source_concat(
                    service_bindings(self@, module@, file.package@, *descriptor, i as int),
                    binding_views(bindings@),
                );
            }
            let rendered = render_bindings(&bindings);
            entries.append(rendered.as_str());
            if bindings.len() > 0 {
                any = true;
            }
            i += 1;
        }
        if !any {
            return None;
        }
        let name = to_upper_camel(descriptor.name.as_str());
        let mut out = NAMESPACE_OPEN.to_owned();
        out.append(name.as_str());
        out.append(NAMESPACE_IMPL);
        out.append(name.as_str());
        out.append(NAMESPACE_BODY);
        out.append(entries.as_str());
        out.append(NAMESPACE_CLOSE);
        Some(out)
    }

    /// The sources of the namespaces for the services of one file.
    fn generate_file(&self, module: &Module, file: &FileDescriptor) -> (out: String)
        requires
            file.well_formed(),
        ensures
            out@ == file_source(self@, module@, *file, file.services@.len() as int),
    {
        let mut out = String::new();
        let mut i: usize = 0;
        while i < file.services.len()
            invariant
                i <= file.services.len(),
                file.well_formed(),
                out@ == file_source(self@, module@, *file, i as int),
            decreases file.services.len() - i,
        {
            match self.generate_service(module, file, &file.services[i]) {
                Some(source) => {
                    out.append(source.as_str());
                },
                None => {
                    assert(out@ + Seq::<char>::empty() =~= out@);
                },
            }
            i += 1;
        }
        out
    }

    /// What the route stage writes for one request.
    pub fn handle_module_request(&self, module: &Module, request: &ModuleRequest) -> (out: Option<
        Vec<GeneratedFile>,
    >)
        requires
            request.well_formed(),
        ensures
            match out {
                Some(files) => route_output(self@, module@, *request) == Some(file_views(files@)),
                None => route_output(self@, module@, *request) is None,
            },
    {
        let mut output_filename = request.proto_package_name.clone();
        output_filename.append(SIBLING_SUFFIX);

        let mut services = String::new();
        let mut i: usize = 0;
        while i < request.files.len()
            invariant
                i <= request.files.len(),
                request.well_formed(),
                services@ == files_source(self@, module@, request.files@, i as int),
            decreases request.files.len() - i,
        {
            let source = self.generate_file(module, &request.files[i]);
            services.append(source.as_str());
            i += 1;
        }
        if services.as_str().is_empty() {
            return None;
        }
        let mut directive = INCLUDE_OPEN.to_owned();
        directive.append(output_filename.as_str());
        directive.append(INCLUDE_CLOSE);
        let fragment = match request.append_to_file(directive) {
            Some(file) => file,
            None => {
                return None;
            },
        };

        let rendering = render_tokens(services.as_str());
        let content = route_file_content(services, rendering);
        let name = request.route_output_filepath();
        let sibling = GeneratedFile { name, content, insertion_point: None };

        let mut out: Vec<GeneratedFile> = Vec::new();
        out.push(fragment);
        out.push(sibling);
        assert(file_views(out@) =~= seq![fragment@, sibling@]);
        Some(out)
    }

    /// What the route stage writes for all requests of `set`, in their
    /// order. The stage has no way to fail.
    pub fn generate(&self, set: &ModuleRequestSet) -> (out: Result<
        Vec<GeneratedFile>,
        GenerateError,
    >)
        requires
            set.well_formed(),
        ensures
            out is Ok,
            outcome_view(out) == self.output(*set),
            whole_names_distinct(file_views(out->Ok_0@)),
    {
        let mut out: Vec<GeneratedFile> = Vec::new();
        let mut i: usize = 0;
        assert(file_views(out@) =~= Seq::empty());
        while i < set.requests.len()
            invariant
                i <= set.requests.len(),
                set.well_formed(),
                file_views(out@) == route_files(self@, set.requests@, i as int),
            decreases set.requests.len() - i,
        {
            let request = &set.requests[i];
            let ghost before = out@;
            match self.handle_module_request(&request.module, request) {
                Some(mut files) => {
                    let ghost added = files@;
                    out.append(&mut files);
                    assert(file_views(out@) =~= file_views(before) + file_views(added));
                },
                None => {
                    assert(file_views(out@) + Seq::<FileView>::empty() =~= file_views(out@));
                },
            }
            i += 1;
        }
        proof {
            lemma_route_files_keep_apart(self@, *set, set.requests@.len() as int);
        }
        Ok(out)
    }
}

/// The streaming policy. A method whose requests are a stream is not bound,
/// whatever its responses are. A method with single requests and a stream
/// of responses is bound once, by request body, to a streaming handler. A
/// method with single requests and single responses is bound twice, by
/// request body and by query string, to a unary handler.
pub proof fn lemma_streaming_policy(
    name: Seq<char>,
    path: Seq<char>,
    input_type: Seq<char>,
    output_type: Seq<char>,
    client_streaming: bool,
    server_streaming: bool,
)
    ensures
        ({
            let bindings = policy_bindings(
                name,
                path,
                input_type,
                output_type,
                client_streaming,
                server_streaming,
            );
            &&& client_streaming ==> bindings.len() == 0
            &&& !client_streaming && server_streaming ==> {
                &&& bindings.len() == 1
                &&& bindings[0].verb == Verb::Post
                &&& bindings[0].streaming
            }
            &&& !client_streaming && !server_streaming ==> {
                &&& bindings.len() == 2
                &&& bindings[0].verb == Verb::Post
                &&& bindings[1].verb == Verb::Get
                &&& !bindings[0].streaming
                &&& !bindings[1].streaming
            }
        }),
{
}

/// A method whose requests are a stream has no binding, whatever else is
/// true of it, and so no entry point in what is generated.
pub proof fn lemma_client_streaming_is_dropped(
    table: Seq<(Seq<char>, Seq<char>)>,
    module: Seq<Seq<char>>,
    package: Seq<char>,
    service: Seq<char>,
    method: MethodDescriptor,
)
    requires
        method.client_streaming,
    ensures
        method_bindings(table, module, package, service, method).len() == 0,
{
}

/// Every binding of a method is served under `/package.Service/Method`.
pub proof fn lemma_bindings_share_the_route_path(
    table: Seq<(Seq<char>, Seq<char>)>,
    module: Seq<Seq<char>>,
    package: Seq<char>,
    service: Seq<char>,
    method: MethodDescriptor,
    i: int,
)
    requires
        0 <= i < method_bindings(table, module, package, service, method).len(),
    ensures
        method_bindings(table, module, package, service, method)[i].path == "/"@ + package + "."@
            + service + "/"@ + method.name@,
{
}

/// A method without streams has exactly two bindings. They differ in the
/// verb, and so are two routes; the path, the handler capability and the
/// message types are the same in both.
pub proof fn lemma_dual_binding(
    table: Seq<(Seq<char>, Seq<char>)>,
    module: Seq<Seq<char>>,
    package: Seq<char>,
    service: Seq<char>,
    method: MethodDescriptor,
)
    requires
        !method.client_streaming,
        !method.server_streaming,
    ensures
        ({
            let bindings = method_bindings(table, module, package, service, method);
            &&& bindings.len() == 2
            &&& bindings[0].verb != bindings[1].verb
            &&& bindings[0].path == route_path(package, service, method.name@)
            &&& bindings[1].path == route_path(package, service, method.name@)
            &&& bindings[0].streaming == bindings[1].streaming
            &&& bindings[0].input_type == bindings[1].input_type
            &&& bindings[0].output_type == bindings[1].output_type
        }),
{
}

/// Whether every method of the service takes a stream of requests.
pub open spec fn only_client_streaming(service: ServiceDescriptor) -> bool {
    forall|i: int| 0 <= i < service.methods@.len() ==> (#[trigger] service.methods@[i]).client_streaming
}

/// Whether a request holds no method that can be bound: every method of
/// every service of its files takes a stream of requests.
pub open spec fn nothing_to_bind(request: ModuleRequest) -> bool {
    forall|i: int, j: int|
        0 <= i < request.files@.len() && 0 <= j < request.files@[i].services@.len()
            ==> only_client_streaming(#[trigger] request.files@[i].services@[j])
}

proof fn lemma_no_bindings(
    table: Seq<(Seq<char>, Seq<char>)>,
    module: Seq<Seq<char>>,
    package: Seq<char>,
    service: ServiceDescriptor,
    n: int,
)
    requires
        only_client_streaming(service),
        n <= service.methods@.len(),
    ensures
        service_bindings(table, module, package, service, n).len() == 0,
    decreases n,
{
    if n > 0 {
        lemma_no_bindings(table, module, package, service, n - 1);
        assert(service.methods@[n - 1].client_streaming);
    }
}

/// A service of which every method takes a stream of requests has no
/// namespace.
pub proof fn lemma_service_without_bindings_is_pruned(
    table: Seq<(Seq<char>, Seq<char>)>,
    module: Seq<Seq<char>>,
    package: Seq<char>,
    service: ServiceDescriptor,
)
    requires
        only_client_streaming(service),
    ensures
        service_source(table, module, package, service) is None,
{
    lemma_no_bindings(table, module, package, service, service.methods@.len() as int);
}

proof fn lemma_file_without_bindings(
    table: Seq<(Seq<char>, Seq<char>)>,
    module: Seq<Seq<char>>,
    file: FileDescriptor,
    n: int,
)
    requires
        n <= file.services@.len(),
        forall|j: int|
            0 <= j < file.services@.len() ==> only_client_streaming(#[trigger] file.services@[j]),
    ensures
        file_source(table, module, file, n).len() == 0,
    decreases n,
{
    if n > 0 {
        lemma_file_without_bindings(table, module, file, n - 1);
        lemma_service_without_bindings_is_pruned(
            table,
            module,
            file.package@,
            file.services@[n - 1],
        );
    }
}

proof fn lemma_files_without_bindings(
    table: Seq<(Seq<char>, Seq<char>)>,
    module: Seq<Seq<char>>,
    request: ModuleRequest,
    n: int,
)
    requires
        n <= request.files@.len(),
        nothing_to_bind(request),
    ensures
        files_source(table, module, request.files@, n).len() == 0,
    decreases n,
{
    if n > 0 {
        lemma_files_without_bindings(table, module, request, n - 1);
        let file = request.files@[n - 1];
        assert forall|j: int| 0 <= j < file.services@.len() implies only_client_streaming(
            #[trigger] file.services@[j],
        ) by {
            assert(only_client_streaming(request.files@[n - 1].services@[j]));
        }
        lemma_file_without_bindings(table, module, file, file.services@.len() as int);
    }
}

/// For a request without a method that can be bound the route stage writes
/// nothing: no route file, and no line that includes one.
pub proof fn lemma_module_without_bindings_is_pruned(
    table: Seq<(Seq<char>, Seq<char>)>,
    module: Seq<Seq<char>>,
    request: ModuleRequest,
)
    requires
        nothing_to_bind(request),
    ensures
        route_output(table, module, request) is None,
{
    lemma_files_without_bindings(table, module, request, request.files@.len() as int);
}

/// A route file starts with the generation marker and ends with the marker
/// of the insertion point.
pub proof fn lemma_route_file_text_is_marked(source: Seq<char>, rendering: Option<Seq<char>>)
    ensures
        starts_with_marker(route_file_text(source, rendering)),
        ends_with_insertion_point(route_file_text(source, rendering)),
{
    let body = GENERATED_HEADER@ + rendered(source, rendering);
    let text = route_file_text(source, rendering);
    assert(body.subrange(0, GENERATED_HEADER@.len() as int) =~= GENERATED_HEADER@);
    assert(text.subrange(0, GENERATED_HEADER@.len() as int) =~= GENERATED_HEADER@);
    assert(text.subrange(text.len() - INSERTION_POINT_MARKER@.len(), text.len() as int)
        =~= INSERTION_POINT_MARKER@);
}

/// Every whole file of the route stage starts with the generation marker
/// and ends with the marker of the insertion point. Its other files are
/// lines appended to a module's main file.
pub proof fn lemma_route_files_are_marked(
    table: Seq<(Seq<char>, Seq<char>)>,
    requests: Seq<ModuleRequest>,
    n: int,
    i: int,
)
    requires
        0 <= i < route_files(table, requests, n).len(),
        route_files(table, requests, n)[i].insertion_point is None,
    ensures
        starts_with_marker(route_files(table, requests, n)[i].content),
        ends_with_insertion_point(route_files(table, requests, n)[i].content),
    decreases n,
{
    if n > 0 {
        let before = route_files(table, requests, n - 1);
        if i < before.len() {
            lemma_route_files_are_marked(table, requests, n - 1, i);
        } else {
            let request = requests[n - 1];
            let files = route_output(table, request.module@, request)->0;
            assert(route_files(table, requests, n)[i] == files[i - before.len()]);
            let source = files_source(
                table,
                request.module@,
                request.files@,
                request.files@.len() as int,
            );
            lemma_route_file_text_is_marked(source, token_text(source));
        }
    }
}

/// In a set whose requests keep apart, no two route files have the same
/// name, and none has the name of a main file: each has the path of the
/// route file of its own request, which no main file and no later route
/// file has.
pub proof fn lemma_route_files_keep_apart(
    table: Seq<(Seq<char>, Seq<char>)>,
    set: ModuleRequestSet,
    n: int,
)
    requires
        set.distinct(),
        0 <= n <= set.requests@.len(),
    ensures
        whole_names_distinct(route_files(table, set.requests@, n)),
        forall|i: int, k: int|
            0 <= i < route_files(table, set.requests@, n).len() && (#[trigger] route_files(
                table,
                set.requests@,
                n,
            )[i]).insertion_point is None && 0 <= k < set.requests@.len() ==> (
            #[trigger] set.requests@[k]).filepath() != Some(
                route_files(table, set.requests@, n)[i].name,
            ),
        forall|i: int, k: int|
            0 <= i < route_files(table, set.requests@, n).len() && (#[trigger] route_files(
                table,
                set.requests@,
                n,
            )[i]).insertion_point is None && n <= k < set.requests@.len() ==> (
            #[trigger] set.requests@[k]).route_filepath() != route_files(
                table,
                set.requests@,
                n,
            )[i].name,
    decreases n,
{
    if n > 0 {
        lemma_route_files_keep_apart(table, set, n - 1);
        let before = route_files(table, set.requests@, n - 1);
        let files = route_files(table, set.requests@, n);
        let request = set.requests@[n - 1];
        let own = request.route_filepath();
        assert forall|k: int| 0 <= k < set.requests@.len() implies (
        #[trigger] set.requests@[k]).filepath() != Some(own) by {
            if k < n - 1 {
                assert(!set.requests@[k].clashes_with(set.requests@[n - 1]));
            } else if k == n - 1 {
                assert(!set.requests@[n - 1].overwrites_itself());
            } else {
                assert(!set.requests@[n - 1].clashes_with(set.requests@[k]));
            }
        }
        assert forall|k: int| n <= k < set.requests@.len() implies (
        #[trigger] set.requests@[k]).route_filepath() != own by {
            assert(!set.requests@[n - 1].clashes_with(set.requests@[k]));
        }
        assert forall|i: int| before.len() <= i < files.len() && (
        #[trigger] files[i]).insertion_point is None implies files[i].name == own by {
            let added = route_output(table, request.module@, request)->0;
            assert(files[i] == added[i - before.len()]);
        }
        assert forall|i: int, k: int|
            0 <= i < files.len() && (#[trigger] files[i]).insertion_point is None && 0 <= k
                < set.requests@.len() implies (#[trigger] set.requests@[k]).filepath() != Some(
            files[i].name,
        ) by {
            if i < before.len() {
                assert(files[i] == before[i]);
            }
        }
        assert forall|i: int, k: int|
            0 <= i < files.len() && (#[trigger] files[i]).insertion_point is None && n <= k
                < set.requests@.len() implies (#[trigger] set.requests@[k]).route_filepath()
            != files[i].name by {
            if i < before.len() {
                assert(files[i] == before[i]);
            }
        }
        assert forall|i: int, j: int|
            0 <= i < j < files.len() && (#[trigger] files[i]).insertion_point is None && (
            #[trigger] files[j]).insertion_point is None implies files[i].name
            != files[j].name by {
            if j < before.len() {
                assert(files[i] == before[i]);
                assert(files[j] == before[j]);
            } else if i < before.len() {
                assert(files[i] == before[i]);
                assert(set.requests@[n - 1].route_filepath() != before[i].name);
            } else {
                let added = route_output(table, request.module@, request)->0;
                assert(files[i] == added[i - before.len()]);
                assert(files[j] == added[j - before.len()]);
            }
        }
    }
}

} // verus!
