//! Service log: where it is written, and what its setup failures say.

use vstd::prelude::*;
use vstd::string::*;

use crate::envelope::text_option;

verus! {

/// Why service-log initialization failed. At this point the text on stderr is the
/// only evidence, so it names path and cause.
#[derive(Debug)]
pub enum ServiceLogError {
    /// The configured path has no file-name component, for one because it ends in a
    /// separator.
    InvalidPath { path: String },
    /// The append-only file writer could not be created.
    Appender { path: String, source: String },
    /// A global subscriber was already installed.
    Subscriber { source: String },
}

/// The contents of a [`ServiceLogError`].
pub enum ServiceLogErrorView {
    InvalidPath { path: Seq<char> },
    Appender { path: Seq<char>, source: Seq<char> },
    Subscriber { source: Seq<char> },
}

impl View for ServiceLogError {
    type V = ServiceLogErrorView;

    open spec fn view(&self) -> ServiceLogErrorView {
        match *self {
            ServiceLogError::InvalidPath { path } => ServiceLogErrorView::InvalidPath {
                path: path@,
            },
            ServiceLogError::Appender { path, source } => ServiceLogErrorView::Appender {
                path: path@,
                source: source@,
            },
            ServiceLogError::Subscriber { source } => ServiceLogErrorView::Subscriber {
                source: source@,
            },
        }
    }
}

impl ServiceLogErrorView {
    /// The operator's startup evidence on stderr.
    pub open spec fn text(self) -> Seq<char> {
        match self {
            ServiceLogErrorView::InvalidPath { path } => "service log path "@ + path
                + " has no file name component"@,
            ServiceLogErrorView::Appender { path, source } => "cannot open service log "@ + path
                + ": "@ + source,
            ServiceLogErrorView::Subscriber { source } => "cannot install service logger: "@
                + source,
        }
    }
}

impl ServiceLogError {
    /// Renders the operator's startup evidence.
    pub fn to_string(&self) -> (text: String)
        ensures
            text@ == self@.text(),
            text@ == match self {
                ServiceLogError::InvalidPath { path } => "service log path "@ + path@
                    + " has no file name component"@,
                ServiceLogError::Appender { path, source } => "cannot open service log "@ + path@
                    + ": "@ + source@,
                ServiceLogError::Subscriber { source } => "cannot install service logger: "@
                    + source@,
            },
    {
        match self {
            ServiceLogError::InvalidPath { path } => {
                let mut text = "service log path ".to_string();
                text.append(path.as_str());
                text.append(" has no file name component");
                text
            },
            ServiceLogError::Appender { path, source } => {
                let mut text = "cannot open service log ".to_string();
                text.append(path.as_str());
                text.append(": ");
                text.append(source.as_str());
                text
            },
            ServiceLogError::Subscriber { source } => {
                let mut text = "cannot install service logger: ".to_string();
                text.append(source.as_str());
                text
            },
        }
    }
}

/// Directory and file name of the service log, as the rolling appender wants them.
pub struct LogTarget {
    pub directory: String,
    pub file_name: String,
}

/// The directory to write in; no parent, or an empty one, means the current
/// directory.
pub open spec fn log_directory(parent: Option<Seq<char>>) -> Seq<char> {
    match parent {
        Some(directory) if directory.len() > 0 => directory,
        _ => "."@,
    }
}

/// What std takes for the last component of a path, in the path syntax of the
/// target the program is built for.
pub uninterp spec fn path_file_name(path: Seq<char>) -> Option<Seq<char>>;

/// What std takes for the path without its last component, in the same syntax.
pub uninterp spec fn path_parent(path: Seq<char>) -> Option<Seq<char>>;

/// A path that is a file name and nothing else, in any path syntax.
pub open spec fn bare_name(path: Seq<char>) -> bool {
    &&& path.len() > 0
    &&& !path.contains('/')
    &&& !path.contains('\\')
    &&& !path.contains(':')
    &&& path != "."@
    &&& path != ".."@
}

/// Calls `std::path::Path::file_name`. The claims are that the outcome is a function
/// of the path, and that a bare name is its own last component.
#[verifier::external_body]
fn file_name_of(path: &str) -> (name: Option<String>)
    ensures
        text_option(name) == path_file_name(path@),
        bare_name(path@) ==> name is Some && name->0@ == path@,
{
    std::path::Path::new(path).file_name().map(|name| name.to_string_lossy().into_owned())
}

/// Calls `std::path::Path::parent`. The claims are that the outcome is a function of
/// the path, and that the parent of a bare name is the empty path.
#[verifier::external_body]
fn parent_of(path: &str) -> (parent: Option<String>)
    ensures
        text_option(parent) == path_parent(path@),
        bare_name(path@) ==> parent is Some && parent->0@.len() == 0,
{
    std::path::Path::new(path).parent().map(|parent| parent.to_string_lossy().into_owned())
}

/// Whether a path ends where a file name should stand.
pub open spec fn lacks_file_name(path: Seq<char>) -> bool {
    path.len() == 0 || path.last() == '/'
}

/// Decides where the service log at `path` goes: the path must end in a file name,
/// and what stands before it is the directory. A bare file name goes to the current
/// directory.
pub fn init(path: &str) -> (target: Result<LogTarget, ServiceLogError>)
    ensures
        match target {
            Ok(t) => {
                &&& !lacks_file_name(path@)
                &&& path_file_name(path@) == Some(t.file_name@)
                &&& t.directory@ == log_directory(path_parent(path@))
            },
            Err(error) => {
                &&& lacks_file_name(path@) || path_file_name(path@) is None
                &&& error@ == (ServiceLogErrorView::InvalidPath { path: path@ })
            },
        },
        bare_name(path@) ==> {
            &&& target is Ok
            &&& target->Ok_0.file_name@ == path@
            &&& target->Ok_0.directory@ == "."@
        },
        target is Ok <==> path@.len() > 0 && path@.last() != '/' && path_file_name(path@) is Some,
        target matches Ok(t) ==> {
            &&& path_parent(path@) matches Some(parent) ==> parent.len() > 0 ==> t.directory@
                == parent
            &&& path_parent(path@) matches Some(parent) ==> parent.len() == 0 ==> t.directory@
                == "."@
            &&& path_parent(path@) is None ==> t.directory@ == "."@
        },
{
    let length: usize = path.unicode_len();
    if length == 0 || path.get_char(length - 1) == '/' {
        proof {
            if length > 0 {
                assert(path@.contains(path@[length - 1]));
            }
        }
        return Err(ServiceLogError::InvalidPath { path: path.to_string() });
    }
    init_at(path, file_name_of(path), parent_of(path))
}

/// [`init`], with the path's last component and what stands before it as arguments.
pub fn init_at(path: &str, file_name: Option<String>, parent: Option<String>) -> (target: Result<
    LogTarget,
    ServiceLogError,
>)
    ensures
        match file_name {
            Some(name) => {
                &&& target is Ok
                &&& target->Ok_0.file_name@ == name@
                &&& target->Ok_0.directory@ == log_directory(text_option(parent))
            },
            None => {
                &&& target is Err
                &&& target->Err_0@ == (ServiceLogErrorView::InvalidPath { path: path@ })
            },
        },
        target matches Ok(t) ==> {
            &&& parent matches Some(directory) ==> directory@.len() > 0 ==> t.directory@
                == directory@
            &&& parent matches Some(directory) ==> directory@.len() == 0 ==> t.directory@ == "."@
            &&& parent is None ==> t.directory@ == "."@
        },
{
    let file_name = match file_name {
        Some(name) => name,
        None => {
            return Err(ServiceLogError::InvalidPath { path: path.to_string() });
        },
    };
    let directory = match parent {
        Some(directory) => if directory.as_str().is_empty() {
            ".".to_string()
        } else {
            directory
        },
        None => ".".to_string(),
    };
    Ok(LogTarget { directory, file_name })
}

/// The contents of an error leave nothing out.
pub proof fn lemma_contents_of_a_service_log_error(error: ServiceLogError)
    ensures
        match error {
            ServiceLogError::InvalidPath { path } => error@ == (ServiceLogErrorView::InvalidPath {
                path: path@,
            }),
            ServiceLogError::Appender { path, source } => error@ == (ServiceLogErrorView::Appender {
                path: path@,
                source: source@,
            }),
            ServiceLogError::Subscriber { source } => error@ == (ServiceLogErrorView::Subscriber {
                source: source@,
            }),
        },
{
}

} // verus!
