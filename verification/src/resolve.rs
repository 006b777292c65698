//! The path canonicalizer: the absolute, link-free form of a path whose last
//! segment need not exist yet.
//!
//! The filesystem is not reached from here. A [`Resolver`] says what to ask
//! of it next, takes the answer, and in the end holds the outcome; whoever
//! drives it does the asking.

use crate::trusted::{
    path_file_name, path_file_name_of, path_join, path_joined, path_parent, path_parent_of,
};
use vstd::prelude::*;

verus! {

/// What a resolver asks of the filesystem.
#[derive(Debug, Clone, PartialEq, Eq)]
pub enum Request {
    /// The canonical form of a path that exists: absolute, without symbolic
    /// links, `.`, `..` or repeated separators.
    Canonicalize(String),
    /// Whether a path exists.
    Exists(String),
    /// The current working directory.
    WorkingDir,
}

/// What the filesystem answers.
#[derive(Debug, Clone, PartialEq, Eq)]
pub enum Reply {
    /// The path that was asked for.
    Path(String),
    /// It could not be had; the text says why.
    Failed(String),
    /// Whether the path exists.
    Exists(bool),
}

/// Why a path has no canonical form.
#[derive(Debug, Clone, PartialEq, Eq)]
pub enum ResolveError {
    /// The filesystem failed; the text is what it said.
    Filesystem(String),
    /// A reply did not answer the request.
    UnexpectedReply,
}

/// The state of one resolution.
#[derive(Debug, PartialEq, Eq)]
pub enum Resolver {
    /// The whole path is being resolved.
    Whole { path: String },
    /// The whole path did not resolve, with `error`; whether it exists is
    /// being asked.
    Missing { path: String, error: String },
    /// The path is a bare name; the working directory is being asked for.
    WorkingDir { name: String },
    /// The directory that holds the last segment, `name`, is being resolved.
    Parent { directory: String, name: String },
    /// The resolution is over.
    Done(Result<String, ResolveError>),
}

/// The mathematical value of a [`Request`].
pub enum RequestView {
    Canonicalize(Seq<char>),
    Exists(Seq<char>),
    WorkingDir,
}

/// The mathematical value of a [`Reply`].
pub enum ReplyView {
    Path(Seq<char>),
    Failed(Seq<char>),
    Exists(bool),
}

/// The mathematical value of a [`ResolveError`].
pub enum ResolveErrorView {
    Filesystem(Seq<char>),
    UnexpectedReply,
}

/// The mathematical value of a [`Resolver`].
pub enum ResolverView {
    Whole { path: Seq<char> },
    Missing { path: Seq<char>, error: Seq<char> },
    WorkingDir { name: Seq<char> },
    Parent { directory: Seq<char>, name: Seq<char> },
    Done(Result<Seq<char>, ResolveErrorView>),
}

impl View for Request {
    type V = RequestView;

    open spec fn view(&self) -> RequestView {
        match self {
            Request::Canonicalize(path) => RequestView::Canonicalize(path@),
            Request::Exists(path) => RequestView::Exists(path@),
            Request::WorkingDir => RequestView::WorkingDir,
        }
    }
}

impl DeepView for Request {
    type V = RequestView;

    open spec fn deep_view(&self) -> RequestView {
        self@
    }
}

impl View for Reply {
    type V = ReplyView;

    open spec fn view(&self) -> ReplyView {
        match self {
            Reply::Path(path) => ReplyView::Path(path@),
            Reply::Failed(error) => ReplyView::Failed(error@),
            Reply::Exists(exists) => ReplyView::Exists(*exists),
        }
    }
}

impl View for ResolveError {
    type V = ResolveErrorView;

    open spec fn view(&self) -> ResolveErrorView {
        match self {
            ResolveError::Filesystem(error) => ResolveErrorView::Filesystem(error@),
            ResolveError::UnexpectedReply => ResolveErrorView::UnexpectedReply,
        }
    }
}

/// The mathematical value of an outcome.
pub open spec fn outcome_view(outcome: Result<String, ResolveError>) -> Result<
    Seq<char>,
    ResolveErrorView,
> {
    match outcome {
        Ok(path) => Ok(path@),
        Err(error) => Err(error@),
    }
}

impl View for Resolver {
    type V = ResolverView;

    open spec fn view(&self) -> ResolverView {
        match self {
            Resolver::Whole { path } => ResolverView::Whole { path: path@ },
            Resolver::Missing { path, error } => ResolverView::Missing {
                path: path@,
                error: error@,
            },
            Resolver::WorkingDir { name } => ResolverView::WorkingDir { name: name@ },
            Resolver::Parent { directory, name } => ResolverView::Parent {
                directory: directory@,
                name: name@,
            },
            Resolver::Done(outcome) => ResolverView::Done(outcome_view(*outcome)),
        }
    }
}

/// The resolution that failed with what the filesystem said.
pub open spec fn failed(error: Seq<char>) -> ResolverView {
    ResolverView::Done(Err(ResolveErrorView::Filesystem(error)))
}

/// The state after a path that does not exist was split into the directory
/// that holds it and its last segment. Without either, the failure of the
/// whole path stands. A bare name lies in the working directory; any other
/// path lies in the directory that was split off.
pub open spec fn after_split(
    error: Seq<char>,
    parent: Option<Seq<char>>,
    name: Option<Seq<char>>,
) -> ResolverView {
    match (parent, name) {
        (Some(directory), Some(name)) => if directory.len() == 0 {
            ResolverView::WorkingDir { name }
        } else {
            ResolverView::Parent { directory, name }
        },
        _ => failed(error),
    }
}

impl ResolverView {
    /// What this state asks of the filesystem; nothing once it is over.
    pub open spec fn request(self) -> Option<RequestView> {
        match self {
            ResolverView::Whole { path } => Some(RequestView::Canonicalize(path)),
            ResolverView::Missing { path, .. } => Some(RequestView::Exists(path)),
            ResolverView::WorkingDir { .. } => Some(RequestView::WorkingDir),
            ResolverView::Parent { directory, .. } => Some(RequestView::Canonicalize(directory)),
            ResolverView::Done(_) => None,
        }
    }

    /// The state after `reply`.
    ///
    /// A whole path that resolves is the outcome, unchanged. One that does
    /// not resolve is asked after: if it exists, its failure is the outcome;
    /// if not, it is split, the directory that holds it is resolved in its
    /// place, and its last segment is put back onto the resolved directory.
    /// Any failure on the way is the outcome. A reply that does not answer
    /// the request ends the resolution.
    pub open spec fn step(self, reply: ReplyView) -> ResolverView {
        match (self, reply) {
            (ResolverView::Done(outcome), _) => ResolverView::Done(outcome),
            (ResolverView::Whole { .. }, ReplyView::Path(resolved)) => ResolverView::Done(
                Ok(resolved),
            ),
            (ResolverView::Whole { path }, ReplyView::Failed(error)) => ResolverView::Missing {
                path,
                error,
            },
            (ResolverView::Missing { error, .. }, ReplyView::Exists(true)) => failed(error),
            (ResolverView::Missing { path, error }, ReplyView::Exists(false)) => after_split(
                error,
                path_parent_of(path),
                path_file_name_of(path),
            ),
            (ResolverView::WorkingDir { name }, ReplyView::Path(directory)) => ResolverView::Parent {
                directory,
                name,
            },
            (ResolverView::WorkingDir { .. }, ReplyView::Failed(error)) => failed(error),
            (ResolverView::Parent { name, .. }, ReplyView::Path(base)) => ResolverView::Done(
                Ok(path_joined(base, name)),
            ),
            (ResolverView::Parent { .. }, ReplyView::Failed(error)) => failed(error),
            _ => ResolverView::Done(Err(ResolveErrorView::UnexpectedReply)),
        }
    }

    /// At most how many replies this state still takes before the
    /// resolution is over.
    pub open spec fn steps_left(self) -> nat {
        match self {
            ResolverView::Whole { .. } => 4,
            ResolverView::Missing { .. } => 3,
            ResolverView::WorkingDir { .. } => 2,
            ResolverView::Parent { .. } => 1,
            ResolverView::Done(_) => 0,
        }
    }
}

impl Resolver {
    /// Starts the resolution of `path`.
    pub fn new(path: &str) -> (r: Resolver)
        ensures
            r@ == (ResolverView::Whole { path: path@ }),
    {
        Resolver::Whole { path: path.to_owned() }
    }

    /// What to ask of the filesystem next; nothing once the resolution is
    /// over.
    pub fn request(&self) -> (r: Option<Request>)
        ensures
            r.deep_view() == self@.request(),
    {
        match self {
            Resolver::Whole { path } => Some(Request::Canonicalize(path.clone())),
            Resolver::Missing { path, .. } => Some(Request::Exists(path.clone())),
            Resolver::WorkingDir { .. } => Some(Request::WorkingDir),
            Resolver::Parent { directory, .. } => Some(Request::Canonicalize(directory.clone())),
            Resolver::Done(_) => None,
        }
    }

    /// The state after a path that does not exist was split, see
    /// [`after_split`].
    pub fn split(error: String, parent: Option<String>, name: Option<String>) -> (r: Resolver)
        ensures
            r@ == after_split(error@, parent.deep_view(), name.deep_view()),
    {
        match (parent, name) {
            (Some(directory), Some(name)) => {
                if directory.as_str().unicode_len() == 0 {
                    Resolver::WorkingDir { name }
                } else {
                    Resolver::Parent { directory, name }
                }
            },
            _ => Resolver::Done(Err(ResolveError::Filesystem(error))),
        }
    }

    /// Takes the answer to the request of this state, see
    /// [`ResolverView::step`]. Each answer brings the resolution nearer to
    /// its end, which comes after four answers at most.
    pub fn advance(self, reply: Reply) -> (r: Resolver)
        ensures
            r@ == self@.step(reply@),
            !(self@ is Done) ==> r@.steps_left() < self@.steps_left(),
    {
        match (self, reply) {
            (Resolver::Done(outcome), _) => Resolver::Done(outcome),
            (Resolver::Whole { .. }, Reply::Path(resolved)) => Resolver::Done(Ok(resolved)),
            (Resolver::Whole { path }, Reply::Failed(error)) => Resolver::Missing { path, error },
            (Resolver::Missing { error, .. }, Reply::Exists(true)) => Resolver::Done(
                Err(ResolveError::Filesystem(error)),
            ),
            (Resolver::Missing { path, error }, Reply::Exists(false)) => {
                let parent = path_parent(path.as_str());
                let name = path_file_name(path.as_str());
                Resolver::split(error, parent, name)
            },
            (Resolver::WorkingDir { name }, Reply::Path(directory)) => Resolver::Parent {
                directory,
                name,
            },
            (Resolver::WorkingDir { .. }, Reply::Failed(error)) => Resolver::Done(
                Err(ResolveError::Filesystem(error)),
            ),
            (Resolver::Parent { name, .. }, Reply::Path(base)) => Resolver::Done(
                Ok(path_join(base.as_str(), name.as_str())),
            ),
            (Resolver::Parent { .. }, Reply::Failed(error)) => Resolver::Done(
                Err(ResolveError::Filesystem(error)),
            ),
            _ => Resolver::Done(Err(ResolveError::UnexpectedReply)),
        }
    }

    /// The outcome, once the resolution is over.
    pub fn outcome(self) -> (r: Option<Result<String, ResolveError>>)
        ensures
            match r {
                Some(outcome) => self@ == ResolverView::Done(outcome_view(outcome)),
                None => !(self@ is Done),
            },
    {
        match self {
            Resolver::Done(outcome) => Some(outcome),
            _ => None,
        }
    }
}

/// A path that resolves as a whole has what the filesystem gave for it as
/// its outcome, unchanged.
pub proof fn lemma_whole_path_resolves(path: Seq<char>, resolved: Seq<char>)
    ensures
        (ResolverView::Whole { path }).step(ReplyView::Path(resolved)) == ResolverView::Done(
            Ok(resolved),
        ),
{
}

/// A path that does not exist and lies in a directory that it names
/// resolves to its last segment put onto the resolved directory.
pub proof fn lemma_new_name_in_directory(
    path: Seq<char>,
    error: Seq<char>,
    directory: Seq<char>,
    name: Seq<char>,
    base: Seq<char>,
)
    requires
        path_parent_of(path) == Some(directory),
        directory.len() > 0,
        path_file_name_of(path) == Some(name),
    ensures
        (ResolverView::Whole { path }).step(ReplyView::Failed(error)).step(
            ReplyView::Exists(false),
        ) == (ResolverView::Parent { directory, name }),
        (ResolverView::Parent { directory, name }).request() == Some(
            RequestView::Canonicalize(directory),
        ),
        (ResolverView::Parent { directory, name }).step(ReplyView::Path(base))
            == ResolverView::Done(Ok(path_joined(base, name))),
{
}

/// A bare name that does not exist resolves to the name put onto the
/// resolved working directory.
pub proof fn lemma_bare_new_name(
    path: Seq<char>,
    error: Seq<char>,
    name: Seq<char>,
    working_dir: Seq<char>,
    base: Seq<char>,
)
    requires
        path_parent_of(path) == Some(Seq::<char>::empty()),
        path_file_name_of(path) == Some(name),
    ensures
        (ResolverView::Whole { path }).step(ReplyView::Failed(error)).step(
            ReplyView::Exists(false),
        ) == (ResolverView::WorkingDir { name }),
        (ResolverView::WorkingDir { name }).step(ReplyView::Path(working_dir)).step(
            ReplyView::Path(base),
        ) == ResolverView::Done(Ok(path_joined(base, name))),
{
}

/// Every reply brings a resolution nearer to its end, and a resolution that
/// has no step left is over.
pub proof fn lemma_resolution_ends(state: ResolverView, reply: ReplyView)
    ensures
        !(state is Done) ==> state.step(reply).steps_left() < state.steps_left(),
        state.steps_left() == 0 <==> state is Done,
        state.steps_left() <= 4,
{
}

} // verus!
