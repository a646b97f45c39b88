use vstd::prelude::*;

use crate::text::str_eq;

verus! {

/// Why a synchronization step failed.
#[derive(Clone, Copy, Debug, PartialEq, Eq, Structural)]
pub enum SyncError {
    /// The directory holds no version-control state yet.
    NotInitialized,
    /// The staged content is byte-identical to the current tip.
    NothingToCommit,
    /// Credential resolution or the transport handshake failed.
    AuthFailed,
    /// The remote refused the update.
    Rejected,
}

/// What the transport reported back for one push attempt.
#[derive(Clone, Copy, Debug, PartialEq, Eq, Structural)]
pub enum TransportOutcome {
    Delivered,
    AuthFailure,
    RemoteRejected,
}

/// One checkpoint: the tracked file's content at a point in time, with a
/// message and an author.
#[derive(Clone, Debug, PartialEq, Eq)]
pub struct Checkpoint {
    pub content: String,
    pub message: String,
    pub author: String,
}

/// Mathematical model of a `Checkpoint`.
pub ghost struct CheckpointView {
    pub content: Seq<char>,
    pub message: Seq<char>,
    pub author: Seq<char>,
}

impl View for Checkpoint {
    type V = CheckpointView;

    open spec fn view(&self) -> CheckpointView {
        CheckpointView { content: self.content@, message: self.message@, author: self.author@ }
    }
}

/// The synchronization state of the tracked directory: whether it is
/// initialized, the branch name, the linear checkpoint history, the one
/// configured remote, and how many checkpoints the remote has.
pub struct SyncRepo {
    pub initialized: bool,
    pub branch: String,
    pub history: Vec<Checkpoint>,
    pub remote: Option<(String, String)>,
    pub pushed: usize,
}

/// Mathematical model of a `SyncRepo`.
pub ghost struct SyncRepoView {
    pub initialized: bool,
    pub branch: Seq<char>,
    pub history: Seq<CheckpointView>,
    pub remote: Option<(Seq<char>, Seq<char>)>,
    pub pushed: int,
}

impl View for SyncRepo {
    type V = SyncRepoView;

    open spec fn view(&self) -> SyncRepoView {
        SyncRepoView {
            initialized: self.initialized,
            branch: self.branch@,
            history: self.history@.map_values(|c: Checkpoint| c@),
            remote: match self.remote {
                Some((n, u)) => Some((n@, u@)),
                None => None,
            },
            pushed: self.pushed as int,
        }
    }
}

/// What `ensure_initialized` does to the model: nothing when initialized,
/// else it initializes with the deterministic default branch name.
pub open spec fn ensure_initialized_spec(r: SyncRepoView) -> SyncRepoView {
    if r.initialized {
        r
    } else {
        SyncRepoView { initialized: true, branch: "main"@, ..r }
    }
}

/// The checkpoint message: the given one, or `Update <filename>`.
pub open spec fn default_message(file_name: Seq<char>, custom: Option<Seq<char>>) -> Seq<char> {
    match custom {
        Some(m) => m,
        None => "Update "@ + file_name,
    }
}

/// What `commit` does to the model: refuse an uninitialized directory,
/// refuse content byte-identical to the tip, and otherwise append a new
/// checkpoint whose identifier is its position in the history.
pub open spec fn commit_spec(
    r: SyncRepoView,
    content: Seq<char>,
    message: Option<Seq<char>>,
    author: Seq<char>,
    file_name: Seq<char>,
) -> (SyncRepoView, Result<int, SyncError>) {
    if !r.initialized {
        (r, Err(SyncError::NotInitialized))
    } else if r.history.len() > 0 && r.history.last().content == content {
        (r, Err(SyncError::NothingToCommit))
    } else {
        (
            SyncRepoView {
                history: r.history.push(
                    CheckpointView {
                        content,
                        message: default_message(file_name, message),
                        author,
                    },
                ),
                ..r
            },
            Ok(r.history.len() as int),
        )
    }
}

/// What `push` does to the model: record the remote when none is
/// configured yet, then let the transport outcome decide. Only a delivery
/// moves the remote to the full history; a failure changes nothing else.
pub open spec fn push_spec(
    r: SyncRepoView,
    name: Seq<char>,
    url: Seq<char>,
    outcome: TransportOutcome,
) -> (SyncRepoView, Result<(), SyncError>) {
    if !r.initialized {
        (r, Err(SyncError::NotInitialized))
    } else {
        let r1 = SyncRepoView {
            remote: match r.remote {
                Some(p) => Some(p),
                None => Some((name, url)),
            },
            ..r
        };
        match outcome {
            TransportOutcome::Delivered => (
                SyncRepoView { pushed: r1.history.len() as int, ..r1 },
                Ok(()),
            ),
            TransportOutcome::AuthFailure => (r1, Err(SyncError::AuthFailed)),
            TransportOutcome::RemoteRejected => (r1, Err(SyncError::Rejected)),
        }
    }
}

impl SyncRepo {
    /// A directory that was never put under version control.
    pub fn untracked() -> (r: SyncRepo)
        ensures
            r@ == (SyncRepoView {
                initialized: false,
                branch: Seq::empty(),
                history: Seq::empty(),
                remote: None,
                pushed: 0,
            }),
    {
        let r = SyncRepo {
            initialized: false,
            branch: String::new(),
            history: Vec::new(),
            remote: None,
            pushed: 0,
        };
        proof {
            assert(r@.history =~= Seq::<CheckpointView>::empty());
        }
        r
    }

    /// Initialize version control with the default branch name `main`;
    /// idempotent on an already-initialized directory.
    pub fn ensure_initialized(&mut self)
        ensures
            final(self)@ == ensure_initialized_spec(old(self)@),
    {
        if !self.initialized {
            self.initialized = true;
            self.branch = String::from_str("main");
        }
    }

    /// Stage `content` for the tracked file and create a checkpoint, with
    /// `message` defaulting to `Update <file_name>`. Fails with
    /// `NothingToCommit` when `content` equals the tip's content, so no
    /// empty checkpoints arise.
    pub fn commit(
        &mut self,
        content: &str,
        message: Option<String>,
        author: &str,
        file_name: &str,
    ) -> (r: Result<usize, SyncError>)
        ensures
            final(self)@ == commit_spec(
                old(self)@,
                content@,
                view_opt_string(message),
                author@,
                file_name@,
            ).0,
            match r {
                Ok(n) => commit_spec(
                    old(self)@,
                    content@,
                    view_opt_string(message),
                    author@,
                    file_name@,
                ).1 == Ok::<int, SyncError>(n as int),
                Err(e) => commit_spec(
                    old(self)@,
                    content@,
                    view_opt_string(message),
                    author@,
                    file_name@,
                ).1 == Err::<int, SyncError>(e),
            },
    {
        if !self.initialized {
            return Err(SyncError::NotInitialized);
        }
        let n = self.history.len();
        if n > 0 {
            let tip = &self.history[n - 1];
            if str_eq(tip.content.as_str(), content) {
                proof {
                    assert(old(self)@.history.last() == self.history@[n - 1]@);
                }
                return Err(SyncError::NothingToCommit);
            }
        }
        let text = match message {
            Some(m) => m,
            None => {
                let mut s = String::from_str("Update ");
                s.append(file_name);
                s
            },
        };
        self.history.push(
            Checkpoint { content: content.to_owned(), message: text, author: author.to_owned() },
        );
        proof {
            assert(final(self)@.history =~= commit_spec(
                old(self)@,
                content@,
                view_opt_string(message),
                author@,
                file_name@,
            ).0.history);
        }
        Ok(n)
    }

    /// Record the remote `name` bound to `url` when none is configured,
    /// then account for one push attempt whose transport `outcome` the
    /// caller observed: a delivery brings the remote up to the whole
    /// history, a failure is reported and moves nothing.
    pub fn push(&mut self, name: &str, url: &str, outcome: TransportOutcome) -> (r: Result<
        (),
        SyncError,
    >)
        ensures
            final(self)@ == push_spec(old(self)@, name@, url@, outcome).0,
            r == push_spec(old(self)@, name@, url@, outcome).1,
    {
        if !self.initialized {
            return Err(SyncError::NotInitialized);
        }
        match &self.remote {
            Some(_) => (),
            None => {
                self.remote = Some((name.to_owned(), url.to_owned()));
            },
        }
        match outcome {
            TransportOutcome::Delivered => {
                self.pushed = self.history.len();
                Ok(())
            },
            TransportOutcome::AuthFailure => Err(SyncError::AuthFailed),
            TransportOutcome::RemoteRejected => Err(SyncError::Rejected),
        }
    }
}

/// The view of an optional owned string.
pub open spec fn view_opt_string(s: Option<String>) -> Option<Seq<char>> {
    match s {
        Some(s) => Some(s@),
        None => None,
    }
}

/// Committing the same content twice cannot produce an empty checkpoint:
/// when a commit succeeds, a second commit of the unchanged content fails
/// with `NothingToCommit` and leaves the state as it was.
pub proof fn lemma_commit_no_op_guard(
    r: SyncRepoView,
    content: Seq<char>,
    m1: Option<Seq<char>>,
    m2: Option<Seq<char>>,
    a1: Seq<char>,
    a2: Seq<char>,
    f1: Seq<char>,
    f2: Seq<char>,
)
    requires
        commit_spec(r, content, m1, a1, f1).1 matches Ok(_),
    ensures
        commit_spec(commit_spec(r, content, m1, a1, f1).0, content, m2, a2, f2) == (
            commit_spec(r, content, m1, a1, f1).0,
            Err::<int, SyncError>(SyncError::NothingToCommit),
        ),
{
    let r1 = commit_spec(r, content, m1, a1, f1).0;
    assert(r1.history.last().content == content);
}

} // verus!
