//! The options that the compiler passes to the plugin.

use crate::resolver::overrides_view;
use crate::text::same_text;
use vstd::prelude::*;

verus! {

/// `protoc_gen_prost::InvalidParameter`, the error with which the option
/// parser rejects an option string.
#[verifier::external_type_specification]
#[verifier::external_body]
pub struct ExInvalidParameter(protoc_gen_prost::InvalidParameter);

/// One option: a bare name, a name with a value, or a name with a key and a
/// value.
#[derive(Debug, PartialEq, Eq)]
pub enum Param {
    Parameter { param: String },
    Value { param: String, value: String },
    KeyValue { param: String, key: String, value: String },
}

/// An option as texts.
pub ghost enum ParamView {
    Parameter { param: Seq<char> },
    Value { param: Seq<char>, value: Seq<char> },
    KeyValue { param: Seq<char>, key: Seq<char>, value: Seq<char> },
}

impl View for Param {
    type V = ParamView;

    open spec fn view(&self) -> ParamView {
        match self {
            Param::Parameter { param } => ParamView::Parameter { param: param@ },
            Param::Value { param, value } => ParamView::Value { param: param@, value: value@ },
            Param::KeyValue { param, key, value } => ParamView::KeyValue {
                param: param@,
                key: key@,
                value: value@,
            },
        }
    }
}

/// The options held by a sequence, as texts.
pub open spec fn param_views(params: Seq<Param>) -> Seq<ParamView> {
    params.map_values(|param: Param| param@)
}

/// The options that `protoc_gen_prost`'s parser reads from an option
/// string, or `None` where it rejects the string.
pub uninterp spec fn plugin_params(options: Seq<char>) -> Option<Seq<ParamView>>;

/// What the plugin is configured with.
#[derive(Debug, PartialEq, Eq)]
pub struct Parameters {
    /// The name of the main file of the module without a package.
    pub default_package_filename: Option<String>,
    /// The overrides, in the order in which they were given.
    pub extern_path: Vec<(String, String)>,
    /// Whether all files go to one directory.
    pub flat_output_dir: bool,
}

/// A configuration as texts.
pub ghost struct ParametersView {
    pub default_package_filename: Option<Seq<char>>,
    pub extern_path: Seq<(Seq<char>, Seq<char>)>,
    pub flat_output_dir: bool,
}

impl View for Parameters {
    type V = ParametersView;

    open spec fn view(&self) -> ParametersView {
        ParametersView {
            default_package_filename: match self.default_package_filename {
                Some(name) => Some(name@),
                None => None,
            },
            extern_path: overrides_view(self.extern_path@),
            flat_output_dir: self.flat_output_dir,
        }
    }
}

/// Why an option string gives no configuration.
#[derive(Debug)]
pub enum ParameterError {
    /// The parser rejected the option string.
    Malformed(protoc_gen_prost::InvalidParameter),
    /// The plugin does not know this option.
    Unrecognized(Param),
}

/// The option that names the main file of the module without a package.
pub const DEFAULT_PACKAGE_FILENAME: &'static str = "default_package_filename";

/// The option that gives one override.
pub const EXTERN_PATH: &'static str = "extern_path";

/// The option that puts all files into one directory.
pub const FLAT_OUTPUT_DIR: &'static str = "flat_output_dir";

/// The value that switches an option on.
pub const TRUE: &'static str = "true";

/// The value that leaves an option off.
pub const FALSE: &'static str = "false";

/// The configuration before any option is read.
pub open spec fn unconfigured() -> ParametersView {
    ParametersView {
        default_package_filename: None,
        extern_path: Seq::empty(),
        flat_output_dir: false,
    }
}

/// Whether the plugin knows the option: a default file name, bare or with a
/// value; an override with the protobuf prefix as key and the Rust namespace
/// as value; or the flat output directory, bare or with `true` or `false`.
pub open spec fn recognized(param: ParamView) -> bool {
    match param {
        ParamView::Parameter { param } => param == DEFAULT_PACKAGE_FILENAME@ || param
            == FLAT_OUTPUT_DIR@,
        ParamView::Value { param, value } => param == DEFAULT_PACKAGE_FILENAME@ || (param
            == FLAT_OUTPUT_DIR@ && (value == TRUE@ || value == FALSE@)),
        ParamView::KeyValue { param, key, value } => param == EXTERN_PATH@,
    }
}

/// The configuration `state` after the option `param`. An option that is
/// not recognized changes nothing.
pub open spec fn applied(state: ParametersView, param: ParamView) -> ParametersView {
    match param {
        ParamView::Parameter { param } => if param == DEFAULT_PACKAGE_FILENAME@ {
            ParametersView { default_package_filename: None, ..state }
        } else if param == FLAT_OUTPUT_DIR@ {
            ParametersView { flat_output_dir: true, ..state }
        } else {
            state
        },
        ParamView::Value { param, value } => if param == DEFAULT_PACKAGE_FILENAME@ {
            ParametersView { default_package_filename: Some(value), ..state }
        } else if param == FLAT_OUTPUT_DIR@ && value == TRUE@ {
            ParametersView { flat_output_dir: true, ..state }
        } else {
            state
        },
        ParamView::KeyValue { param, key, value } => if param == EXTERN_PATH@ {
            ParametersView { extern_path: state.extern_path.push((key, value)), ..state }
        } else {
            state
        },
    }
}

/// The configuration after the first `n` options.
pub open spec fn configured(params: Seq<ParamView>, n: int) -> ParametersView
    decreases n,
{
    if n <= 0 {
        unconfigured()
    } else {
        applied(configured(params, n - 1), params[n - 1])
    }
}

/// The index of the first option among the first `n` that the plugin does
/// not know.
pub open spec fn first_unrecognized(params: Seq<ParamView>, n: int) -> Option<int>
    decreases n,
{
    if n <= 0 {
        None
    } else {
        match first_unrecognized(params, n - 1) {
            Some(i) => Some(i),
            None => if recognized(params[n - 1]) {
                None
            } else {
                Some(n - 1)
            },
        }
    }
}

/// The configuration that a list of options gives, or the first option
/// that the plugin does not know.
pub open spec fn parameters_of(params: Seq<ParamView>) -> Result<ParametersView, ParamView> {
    match first_unrecognized(params, params.len() as int) {
        Some(i) => Err(params[i]),
        None => Ok(configured(params, params.len() as int)),
    }
}

/// Calls `protoc_gen_prost::Params::from_protoc_plugin_opts` on `options`
/// and copies the options it reads, variant for variant. What it reads is a
/// function of `options` alone, named `plugin_params`.
#[verifier::external_body]
fn read_plugin_params(options: &str) -> (out: Result<
    Vec<Param>,
    protoc_gen_prost::InvalidParameter,
>)
    ensures
        match out {
            Ok(params) => plugin_params(options@) == Some(param_views(params@)),
            Err(_) => plugin_params(options@) is None,
        },
{
    protoc_gen_prost::Params::from_protoc_plugin_opts(options).map(|params| {
        params.into_iter().map(|param| match param {
            protoc_gen_prost::Param::Parameter { param } => Param::Parameter { param: param.to_owned() },
            protoc_gen_prost::Param::Value { param, value } => {
                Param::Value { param: param.to_owned(), value: value.to_owned() }
            },
            protoc_gen_prost::Param::KeyValue { param, key, value } => {
                Param::KeyValue { param: param.to_owned(), key: key.to_owned(), value }
            },
        }).collect()
    })
}

impl Param {
    /// A copy of the option.
    pub fn duplicate(&self) -> (copy: Param)
        ensures
            copy@ == self@,
    {
        match self {
            Param::Parameter { param } => Param::Parameter { param: param.clone() },
            Param::Value { param, value } => Param::Value {
                param: param.clone(),
                value: value.clone(),
            },
            Param::KeyValue { param, key, value } => Param::KeyValue {
                param: param.clone(),
                key: key.clone(),
                value: value.clone(),
            },
        }
    }
}

impl Parameters {
    /// The configuration before any option is read.
    pub fn new() -> (parameters: Parameters)
        ensures
            parameters@ == unconfigured(),
    {
        let parameters = Parameters {
            default_package_filename: None,
            extern_path: Vec::new(),
            flat_output_dir: false,
        };
        assert(parameters@.extern_path =~= Seq::empty());
        parameters
    }

    /// Takes the option `param` into the configuration, if the plugin knows
    /// it, and says whether it does.
    pub fn handle(&mut self, param: &Param) -> (known: bool)
        ensures
            known == recognized(param@),
            final(self)@ == applied(old(self)@, param@),
    {
        match param {
            Param::Parameter { param } => {
                if same_text(param.as_str(), DEFAULT_PACKAGE_FILENAME) {
                    self.default_package_filename = None;
                    true
                } else if same_text(param.as_str(), FLAT_OUTPUT_DIR) {
                    self.flat_output_dir = true;
                    true
                } else {
                    false
                }
            },
            Param::Value { param, value } => {
                if same_text(param.as_str(), DEFAULT_PACKAGE_FILENAME) {
                    self.default_package_filename = Some(value.clone());
                    true
                } else if same_text(param.as_str(), FLAT_OUTPUT_DIR) {
                    if same_text(value.as_str(), TRUE) {
                        self.flat_output_dir = true;
                        true
                    } else {
                        same_text(value.as_str(), FALSE)
                    }
                } else {
                    false
                }
            },
            Param::KeyValue { param, key, value } => {
                if same_text(param.as_str(), EXTERN_PATH) {
                    let ghost before = self.extern_path@;
                    self.extern_path.push((key.clone(), value.clone()));
                    assert(overrides_view(self.extern_path@)
                        =~= overrides_view(before).push((key@, value@)));
                    true
                } else {
                    false
                }
            },
        }
    }

    /// The configuration that the options `params` give, read in order, or
    /// the first of them that the plugin does not know.
    pub fn from_params(params: &Vec<Param>) -> (out: Result<Parameters, ParameterError>)
        ensures
            match out {
                Ok(parameters) => parameters_of(param_views(params@)) == Ok::<
                    ParametersView,
                    ParamView,
                >(parameters@),
                Err(ParameterError::Unrecognized(param)) => parameters_of(param_views(params@))
                    == Err::<ParametersView, ParamView>(param@),
                Err(ParameterError::Malformed(_)) => false,
            },
    {
        let mut parameters = Parameters::new();
        let mut i: usize = 0;
        while i < params.len()
            invariant
                i <= params.len(),
                first_unrecognized(param_views(params@), i as int) is None,
                parameters@ == configured(param_views(params@), i as int),
            decreases params.len() - i,
        {
            assert(param_views(params@)[i as int] == params@[i as int]@);
            if !parameters.handle(&params[i]) {
                proof {
                    lemma_first_unrecognized(
                        param_views(params@),
                        i as int,
                        params@.len() as int,
                    );
                }
                return Err(ParameterError::Unrecognized(params[i].duplicate()));
            }
            i += 1;
        }
        Ok(parameters)
    }

    /// The configuration that the option string `s` gives: an error where
    /// the parser rejects the string or an option is not known.
    pub fn from_str(s: &str) -> (out: Result<Parameters, ParameterError>)
        ensures
            match out {
                Ok(parameters) => plugin_params(s@) matches Some(params) && parameters_of(params)
                    == Ok::<ParametersView, ParamView>(parameters@),
                Err(ParameterError::Unrecognized(param)) => plugin_params(s@) matches Some(params)
                    && parameters_of(params) == Err::<ParametersView, ParamView>(param@),
                Err(ParameterError::Malformed(_)) => plugin_params(s@) is None,
            },
    {
        match read_plugin_params(s) {
            Ok(params) => Self::from_params(&params),
            Err(error) => Err(ParameterError::Malformed(error)),
        }
    }
}

/// Once the first unknown option is found, later options do not change
/// which one it is.
proof fn lemma_first_unrecognized(params: Seq<ParamView>, i: int, n: int)
    requires
        0 <= i < n <= params.len(),
        first_unrecognized(params, i) is None,
        !recognized(params[i]),
    ensures
        first_unrecognized(params, n) == Some(i),
    decreases n,
{
    if n > i + 1 {
        lemma_first_unrecognized(params, i, n - 1);
    }
}

} // verus!
