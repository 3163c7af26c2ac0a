//! The preferences of one run, and the decisions taken while the user is
//! asked for them. Asking, and looking at the disk, is the caller's part: it
//! reports what it saw as a [`PathEvent`] and acts on the [`PathCheck`] that
//! comes back.

use vstd::prelude::*;
use vstd::string::*;

verus! {

/// The number of simultaneous downloads that is offered as the default.
pub const DEFAULT_DOWNLOAD_THREADS: usize = 3;

/// Whether only peer-reviewed levels are fetched when the user has no wish.
pub const DEFAULT_VERIFIED_ONLY: bool = true;

/// The folder, below the working directory, that is offered for the
/// downloads.
pub const DEFAULT_DIRECTORY_NAME: &'static str = "rd_downloader";

/// What one run needs to know.
pub struct UserPrefs {
    pub download_path: PathBufWrapper,
    pub download_threads: usize,
    pub verified_only: bool,
}

impl UserPrefs {
    /// Preferences are usable when at least one download may run.
    pub open spec fn wf(&self) -> bool {
        self.download_threads > 0
    }
}

/// A directory path held as text, so that it can be shown in a prompt and
/// read back from the answer.
pub struct PathBufWrapper {
    path: String,
}

impl View for PathBufWrapper {
    type V = Seq<char>;

    closed spec fn view(&self) -> Seq<char> {
        self.path@
    }
}

impl PathBufWrapper {
    /// The path that `s` spells.
    pub fn from_str(s: &str) -> (wrapper: Self)
        ensures
            wrapper@ == s@,
    {
        PathBufWrapper { path: String::from_str(s) }
    }

    /// The text of the path.
    pub fn to_string(&self) -> (text: String)
        ensures
            text@ == self@,
    {
        self.path.clone()
    }
}

impl Clone for PathBufWrapper {
    fn clone(&self) -> (copy: Self)
        ensures
            copy@ == self@,
    {
        PathBufWrapper { path: self.path.clone() }
    }
}

/// Why an answer of the user was turned down.
#[derive(Clone, Copy, Debug, PartialEq, Eq, Structural)]
pub enum PrefsError {
    /// The path names a file.
    PathIsFile,
    /// It could not be found out whether the folder exists.
    ProbeFailed,
    /// The question about the folder could not be asked.
    PromptFailed,
    /// The folder could not be created.
    CreateFailed,
    /// The user said no.
    Canceled,
    /// No download could run.
    ZeroThreads,
}

impl PrefsError {
    pub open spec fn spec_message(self) -> Seq<char> {
        match self {
            PrefsError::PathIsFile => "Path is file, it should be a directory."@,
            PrefsError::ProbeFailed => "Failed to check if folder already exists."@,
            PrefsError::PromptFailed => "Failed to ask about the folder."@,
            PrefsError::CreateFailed => "Failed to create directory!"@,
            PrefsError::Canceled => "User canceled operation."@,
            PrefsError::ZeroThreads => "Download threads must be an integer greater than 0."@,
        }
    }

    /// The sentence shown to the user.
    pub fn message(&self) -> (text: &'static str)
        ensures
            text@ == self.spec_message(),
    {
        match self {
            PrefsError::PathIsFile => "Path is file, it should be a directory.",
            PrefsError::ProbeFailed => "Failed to check if folder already exists.",
            PrefsError::PromptFailed => "Failed to ask about the folder.",
            PrefsError::CreateFailed => "Failed to create directory!",
            PrefsError::Canceled => "User canceled operation.",
            PrefsError::ZeroThreads => "Download threads must be an integer greater than 0.",
        }
    }
}

/// Where the check of a download folder stands. Each state but the last two
/// names what the caller has to do next.
#[derive(Clone, Copy, Debug, PartialEq, Eq, Structural)]
pub enum PathCheck {
    /// Find out whether the path is a file and whether it exists.
    Probing,
    /// Ask the user whether the folder is to be used (or created).
    Confirming { exists: bool },
    /// Create the folder and what lies above it.
    Creating,
    /// The folder is there and the user wants it.
    Accepted,
    /// The path is turned down.
    Rejected(PrefsError),
}

/// What the caller saw or heard.
#[derive(Clone, Copy, Debug, PartialEq, Eq, Structural)]
pub enum PathEvent {
    /// The path was looked at; `exists` is `None` if that failed.
    Probed { is_file: bool, exists: Option<bool> },
    /// The user answered; `None` if the question could not be asked.
    Answered(Option<bool>),
    /// The folder was created, or could not be.
    Created(bool),
}

impl PathCheck {
    /// The state that follows `self` on `event`. An event that does not
    /// answer the state's request changes nothing.
    pub open spec fn spec_step(self, event: PathEvent) -> PathCheck {
        match (self, event) {
            (PathCheck::Probing, PathEvent::Probed { is_file, exists }) => {
                if is_file {
                    PathCheck::Rejected(PrefsError::PathIsFile)
                } else {
                    match exists {
                        None => PathCheck::Rejected(PrefsError::ProbeFailed),
                        Some(exists) => PathCheck::Confirming { exists },
                    }
                }
            },
            (PathCheck::Confirming { exists }, PathEvent::Answered(answer)) => {
                match answer {
                    None => PathCheck::Rejected(PrefsError::PromptFailed),
                    Some(false) => PathCheck::Rejected(PrefsError::Canceled),
                    Some(true) => if exists {
                        PathCheck::Accepted
                    } else {
                        PathCheck::Creating
                    },
                }
            },
            (PathCheck::Creating, PathEvent::Created(done)) => {
                if done {
                    PathCheck::Accepted
                } else {
                    PathCheck::Rejected(PrefsError::CreateFailed)
                }
            },
            _ => self,
        }
    }

    /// The check is over: nothing is left to do for the caller.
    pub open spec fn spec_is_final(self) -> bool {
        self is Accepted || self is Rejected
    }

    /// Whether the check is over.
    pub fn is_final(&self) -> (over: bool)
        ensures
            over == self.spec_is_final(),
    {
        match self {
            PathCheck::Accepted => true,
            PathCheck::Rejected(_) => true,
            _ => false,
        }
    }

    pub open spec fn spec_question(self) -> Option<Seq<char>> {
        match self {
            PathCheck::Confirming { exists } => Some(
                if exists {
                    "Folder already exists, use it anyways?"@
                } else {
                    "Folder does not exist, create it now?"@
                },
            ),
            _ => None,
        }
    }

    /// The question to put to the user, when the state asks for one.
    pub fn question(&self) -> (text: Option<&'static str>)
        ensures
            match text {
                Some(t) => self.spec_question() == Some(t@),
                None => self.spec_question() is None,
            },
    {
        match self {
            PathCheck::Confirming { exists } => {
                if *exists {
                    Some("Folder already exists, use it anyways?")
                } else {
                    Some("Folder does not exist, create it now?")
                }
            },
            _ => None,
        }
    }
}

/// One step of the check of a download folder: starts with
/// [`PathCheck::Probing`] and ends in `Accepted` or `Rejected`.
pub fn prompt_download_path(state: PathCheck, event: PathEvent) -> (next: PathCheck)
    ensures
        next == state.spec_step(event),
{
    match state {
        PathCheck::Probing => match event {
            PathEvent::Probed { is_file, exists } => {
                if is_file {
                    PathCheck::Rejected(PrefsError::PathIsFile)
                } else {
                    match exists {
                        None => PathCheck::Rejected(PrefsError::ProbeFailed),
                        Some(exists) => PathCheck::Confirming { exists },
                    }
                }
            },
            _ => state,
        },
        PathCheck::Confirming { exists } => match event {
            PathEvent::Answered(None) => PathCheck::Rejected(PrefsError::PromptFailed),
            PathEvent::Answered(Some(false)) => PathCheck::Rejected(PrefsError::Canceled),
            PathEvent::Answered(Some(true)) => {
                if exists {
                    PathCheck::Accepted
                } else {
                    PathCheck::Creating
                }
            },
            _ => state,
        },
        PathCheck::Creating => match event {
            PathEvent::Created(true) => PathCheck::Accepted,
            PathEvent::Created(false) => PathCheck::Rejected(PrefsError::CreateFailed),
            _ => state,
        },
        _ => state,
    }
}

/// The state after the events `events`, taken in order from `state`.
pub open spec fn spec_run(state: PathCheck, events: Seq<PathEvent>) -> PathCheck
    decreases events.len(),
{
    if events.len() == 0 {
        state
    } else {
        spec_run(state.spec_step(events[0]), events.drop_first())
    }
}

/// A state that is final stays as it is, whatever is reported afterwards.
pub proof fn lemma_final_state_stays(state: PathCheck, events: Seq<PathEvent>)
    requires
        state.spec_is_final(),
    ensures
        spec_run(state, events) == state,
    decreases events.len(),
{
    if events.len() > 0 {
        lemma_final_state_stays(state, events.drop_first());
    }
}

/// A folder is accepted only after the user has said yes, and only if it was
/// there or has been created.
pub proof fn lemma_accepted_was_confirmed(events: Seq<PathEvent>)
    requires
        spec_run(PathCheck::Probing, events) is Accepted,
    ensures
        exists|i: int| 0 <= i < events.len() && events[i] == PathEvent::Answered(Some(true)),
        exists|i: int|
            0 <= i < events.len() && (events[i] == PathEvent::Created(true) || (
            #[trigger] events[i] matches PathEvent::Probed { is_file: false, exists: Some(true) })),
{
    lemma_run_accepted(PathCheck::Probing, events);
}

/// What a run that ends in `Accepted` must have seen, for each state it may
/// start from.
proof fn lemma_run_accepted(state: PathCheck, events: Seq<PathEvent>)
    requires
        spec_run(state, events) is Accepted,
    ensures
        !(state is Rejected),
        (state is Probing || state is Confirming) ==> exists|i: int|
            0 <= i < events.len() && events[i] == PathEvent::Answered(Some(true)),
        (state is Probing || state is Creating || state == (PathCheck::Confirming {
            exists: false,
        })) ==> exists|i: int|
            0 <= i < events.len() && (events[i] == PathEvent::Created(true) || (
            #[trigger] events[i] matches PathEvent::Probed { is_file: false, exists: Some(true) })),
    decreases events.len(),
{
    if events.len() == 0 {
    } else {
        let next = state.spec_step(events[0]);
        let rest = events.drop_first();
        if state is Rejected {
            lemma_final_state_stays(state, events);
        } else {
            lemma_run_accepted(next, rest);
            assert(forall|i: int| 0 <= i < rest.len() ==> rest[i] == events[i + 1]);
            if state is Probing || state is Confirming {
                if next is Probing || next is Confirming {
                    let i = choose|i: int|
                        0 <= i < rest.len() && rest[i] == PathEvent::Answered(Some(true));
                    assert(events[i + 1] == PathEvent::Answered(Some(true)));
                } else {
                    assert(events[0] == PathEvent::Answered(Some(true)));
                }
            }
            if state is Probing || state is Creating || state == (PathCheck::Confirming {
                exists: false,
            }) {
                if next is Probing || next is Creating || next == (PathCheck::Confirming {
                    exists: false,
                }) {
                    let i = choose|i: int|
                        0 <= i < rest.len() && (rest[i] == PathEvent::Created(true) || (
                        #[trigger] rest[i] matches PathEvent::Probed {
                            is_file: false,
                            exists: Some(true),
                        }));
                    assert(events[i + 1] == rest[i]);
                } else {
                    assert(events[0] == PathEvent::Created(true) || (events[0] matches PathEvent::Probed {
                        is_file: false,
                        exists: Some(true),
                    }));
                }
            }
        }
    }
}

/// Accepts a number of simultaneous downloads if at least one may run.
pub fn prompt_download_threads(answer: usize) -> (threads: Result<usize, PrefsError>)
    ensures
        answer > 0 ==> threads == Ok::<usize, PrefsError>(answer),
        answer == 0 ==> threads == Err::<usize, PrefsError>(PrefsError::ZeroThreads),
{
    if answer > 0 {
        Ok(answer)
    } else {
        Err(PrefsError::ZeroThreads)
    }
}

/// Puts the three answers together, once the folder has been checked.
/// Fails with what turned the folder down, or with `ZeroThreads`; a check
/// that is not over yet counts as a question that was never put.
pub fn prompt_user_prefs(
    download_path: PathBufWrapper,
    checked: PathCheck,
    download_threads: usize,
    verified_only: bool,
) -> (prefs: Result<UserPrefs, PrefsError>)
    ensures
        match prefs {
            Ok(p) => {
                &&& checked is Accepted
                &&& download_threads > 0
                &&& p.wf()
                &&& p.download_path == download_path
                &&& p.download_threads == download_threads
                &&& p.verified_only == verified_only
            },
            Err(e) => e == spec_prefs_error(checked, download_threads),
        },
        prefs is Ok <==> (checked is Accepted && download_threads > 0),
{
    match checked {
        PathCheck::Accepted => {},
        PathCheck::Rejected(reason) => {
            return Err(reason);
        },
        _ => {
            return Err(PrefsError::PromptFailed);
        },
    }
    match prompt_download_threads(download_threads) {
        Ok(threads) => Ok(UserPrefs { download_path, download_threads: threads, verified_only }),
        Err(e) => Err(e),
    }
}

/// The error of [`prompt_user_prefs`], for answers that it turns down.
pub open spec fn spec_prefs_error(checked: PathCheck, download_threads: usize) -> PrefsError {
    match checked {
        PathCheck::Accepted => PrefsError::ZeroThreads,
        PathCheck::Rejected(reason) => reason,
        _ => PrefsError::PromptFailed,
    }
}

} // verus!
