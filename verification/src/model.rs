//! The service-record data model: one declared service, its optional
//! extensions, and the ghost-level view used by every contract.

use vstd::prelude::*;
use vstd::string::StringExecFns;

verus! {

/// Startup semantics of a service.
#[derive(Clone, Copy, PartialEq, Eq, Structural, Debug)]
pub enum ServiceType {
    OneShot,
    LongRun,
}

/// The `log` extension: attach a log pipeline writing into `dir`.
pub struct LogExt {
    pub dir: String,
}

/// The `restart` extension: when `on_failure` is false, suppress
/// restart-on-failure by installing a sentinel `finish` script.
#[derive(Clone, Copy, PartialEq, Eq, Structural, Debug)]
pub struct RestartExt {
    pub on_failure: bool,
}

/// Declarative extensions attached to one service record.
pub struct Extensions {
    pub log: Option<LogExt>,
    pub restart: Option<RestartExt>,
}

/// One service's full specification, as declared or as rewritten by
/// extension expansion.
pub struct Service {
    pub type_: ServiceType,
    pub up: Option<String>,
    pub run: Option<String>,
    pub finish: Option<String>,
    pub consumer_for: Option<String>,
    pub producer_for: Option<String>,
    pub pipeline_name: Option<String>,
    pub dependencies: Option<Vec<String>>,
    pub extensions: Option<Extensions>,
}

/// Ghost view of `Extensions`: the log directory, if any, and the
/// `on_failure` flag of the restart extension, if any.
#[verifier::ext_equal]
pub ghost struct ExtensionsModel {
    pub log: Option<Seq<char>>,
    pub restart: Option<bool>,
}

/// Ghost view of a `Service`: every string field as a sequence of
/// characters.
#[verifier::ext_equal]
pub ghost struct ServiceModel {
    pub type_: ServiceType,
    pub up: Option<Seq<char>>,
    pub run: Option<Seq<char>>,
    pub finish: Option<Seq<char>>,
    pub consumer_for: Option<Seq<char>>,
    pub producer_for: Option<Seq<char>>,
    pub pipeline_name: Option<Seq<char>>,
    pub dependencies: Option<Seq<Seq<char>>>,
    pub extensions: Option<ExtensionsModel>,
}

pub open spec fn opt_str_view(o: Option<String>) -> Option<Seq<char>> {
    match o {
        Some(s) => Some(s@),
        None => None,
    }
}

pub open spec fn str_seq_view(v: Seq<String>) -> Seq<Seq<char>> {
    v.map_values(|s: String| s@)
}

pub open spec fn opt_deps_view(o: Option<Vec<String>>) -> Option<Seq<Seq<char>>> {
    match o {
        Some(v) => Some(str_seq_view(v@)),
        None => None,
    }
}

impl View for Extensions {
    type V = ExtensionsModel;

    open spec fn view(&self) -> ExtensionsModel {
        ExtensionsModel {
            log: match self.log {
                Some(l) => Some(l.dir@),
                None => None,
            },
            restart: match self.restart {
                Some(r) => Some(r.on_failure),
                None => None,
            },
        }
    }
}

impl View for Service {
    type V = ServiceModel;

    open spec fn view(&self) -> ServiceModel {
        ServiceModel {
            type_: self.type_,
            up: opt_str_view(self.up),
            run: opt_str_view(self.run),
            finish: opt_str_view(self.finish),
            consumer_for: opt_str_view(self.consumer_for),
            producer_for: opt_str_view(self.producer_for),
            pipeline_name: opt_str_view(self.pipeline_name),
            dependencies: opt_deps_view(self.dependencies),
            extensions: match self.extensions {
                Some(e) => Some(e@),
                None => None,
            },
        }
    }
}

/// Which already-set field an extension refused to overwrite.
#[derive(Clone, Copy, PartialEq, Eq, Structural, Debug)]
pub enum ConflictField {
    Up,
    ProducerFor,
    Finish,
}

/// A fatal configuration error: either the enable-list names an
/// undeclared service, or an extension would clobber a declared field.
#[derive(Debug)]
pub enum CompileError {
    UnknownService(String),
    ExtensionConflict(String, ConflictField),
}

/// Ghost view of `CompileError`.
#[verifier::ext_equal]
pub ghost enum CompileErrorModel {
    UnknownService(Seq<char>),
    ExtensionConflict(Seq<char>, ConflictField),
}

impl View for CompileError {
    type V = CompileErrorModel;

    open spec fn view(&self) -> CompileErrorModel {
        match self {
            CompileError::UnknownService(n) => CompileErrorModel::UnknownService(n@),
            CompileError::ExtensionConflict(n, f) => CompileErrorModel::ExtensionConflict(n@, *f),
        }
    }
}

impl CompileError {
    /// The diagnostic text of an error.
    pub open spec fn describe_spec(self) -> Seq<char> {
        match self {
            CompileError::UnknownService(n) => "service "@ + n@
                + " not found but was specified in --services-enabled"@,
            CompileError::ExtensionConflict(_, ConflictField::Up) =>
                "extension `log` would clobber up for oneshots"@,
            CompileError::ExtensionConflict(_, ConflictField::ProducerFor) =>
                "extension `log` would clobber producer-for"@,
            CompileError::ExtensionConflict(_, ConflictField::Finish) =>
                "extension `restart` would clobber finish"@,
        }
    }

    /// Renders the diagnostic text of an error.
    pub fn describe(&self) -> (r: String)
        ensures
            r@ == self.describe_spec(),
    {
        match self {
            CompileError::UnknownService(n) => {
                let mut s = String::from_str("service ");
                s.append(n.as_str());
                s.append(" not found but was specified in --services-enabled");
                s
            },
            CompileError::ExtensionConflict(_, ConflictField::Up) => String::from_str(
                "extension `log` would clobber up for oneshots",
            ),
            CompileError::ExtensionConflict(_, ConflictField::ProducerFor) => String::from_str(
                "extension `log` would clobber producer-for",
            ),
            CompileError::ExtensionConflict(_, ConflictField::Finish) => String::from_str(
                "extension `restart` would clobber finish",
            ),
        }
    }
}

impl ServiceType {
    /// The literal written to the `type` artifact of a service directory.
    pub open spec fn literal_spec(self) -> Seq<char> {
        match self {
            ServiceType::OneShot => "oneshot"@,
            ServiceType::LongRun => "longrun"@,
        }
    }

    /// Enum-to-literal mapping, kept separate from any output writing.
    pub fn literal(&self) -> (r: String)
        ensures
            r@ == self.literal_spec(),
    {
        match self {
            ServiceType::OneShot => String::from_str("oneshot"),
            ServiceType::LongRun => String::from_str("longrun"),
        }
    }
}

} // verus!
