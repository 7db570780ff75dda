//! The course of a fetch: list the refs of a remote, select those that match
//! a glob, report the selection, then pull the selected refs one after the
//! other and stop at the first pull that fails.
//!
//! The work on the repository is done by the caller. A `Fetch` says which
//! action comes next, and `step` takes what came of it. An event that does
//! not answer the requested action changes nothing.

use crate::glob::{matching_names, select_matching};
use crate::listing::{listing, read_listing, CollaboratorError, ListOutcome, ListingFault};
use crate::text::bytes_of_each;
use vstd::prelude::*;
use vstd::utf8::encode_utf8;

verus! {

/// What a fetch-sink handed back for one ref: whether it reported success,
/// and its status as text for diagnostics.
#[derive(Debug, Clone, PartialEq, Eq)]
pub struct PullOutcome {
    pub success: bool,
    pub status: String,
}

/// Why a fetch ended without all selected refs pulled.
#[derive(Debug, Clone, PartialEq, Eq)]
pub enum FetchError {
    /// The refs of the remote could not be had; nothing was pulled.
    Collaborator(CollaboratorError),
    /// The pull of `ref_name` reported `status`; the refs after it were not tried.
    FetchFailed { ref_name: String, status: String },
}

/// What happened to the action that a `Fetch` asked for.
#[derive(Debug, Clone, PartialEq, Eq)]
pub enum Event {
    /// The ref-source has answered.
    Listed(ListOutcome),
    /// The selection has been reported.
    Reported,
    /// The fetch-sink has answered for the ref that was to be pulled.
    Pulled(PullOutcome),
}

/// What the caller is to do next.
#[derive(Debug, PartialEq, Eq)]
pub enum Action {
    /// Ask the ref-source for the refs of `remote`.
    ListRefs { repository: String, remote: String },
    /// Report how many refs were listed, and which of them were selected.
    Report { total: usize, matched: Vec<String> },
    /// Pull `ref_name` from `remote` into `repository`.
    Pull { repository: String, remote: String, ref_name: String },
    /// Nothing more: the fetch has ended with `result`.
    Finish { result: Result<(), FetchError> },
}

/// `FetchError` with its texts as values.
pub enum FetchFault {
    Collaborator(ListingFault),
    FetchFailed { ref_name: Seq<u8>, status: Seq<char> },
}

/// `Event` with its texts as values.
pub enum EventView {
    Listed { success: bool, status: Seq<char>, output: Seq<u8> },
    Reported,
    Pulled { success: bool, status: Seq<char> },
}

/// `Action` with its texts as values.
pub enum ActionView {
    ListRefs { repository: Seq<char>, remote: Seq<char> },
    Report { total: nat, matched: Seq<Seq<u8>> },
    Pull { repository: Seq<char>, remote: Seq<char>, ref_name: Seq<u8> },
    Finish { result: Result<(), FetchFault> },
}

/// How far a fetch has come.
pub enum Progress {
    /// The refs of the remote are not known yet.
    Listing,
    /// `total` refs were listed and `matched` selected; this is yet to be reported.
    Reporting { total: nat, matched: Seq<Seq<u8>> },
    /// The refs before `matched[next]` are pulled; `matched[next]` is being pulled.
    Pulling { matched: Seq<Seq<u8>>, next: nat },
    /// The fetch has ended.
    Finished { result: Result<(), FetchFault> },
}

/// A fetch as a value: what it was asked for and how far it has come. The
/// repository and the remote are carried along and never looked into; the
/// glob is held by its bytes.
pub struct FetchView {
    pub repository: Seq<char>,
    pub remote: Seq<char>,
    pub pattern: Seq<u8>,
    pub progress: Progress,
}

impl View for FetchError {
    type V = FetchFault;

    open spec fn view(&self) -> FetchFault {
        match self {
            FetchError::Collaborator(error) => FetchFault::Collaborator(error@),
            FetchError::FetchFailed { ref_name, status } => FetchFault::FetchFailed {
                ref_name: encode_utf8(ref_name@),
                status: status@,
            },
        }
    }
}

impl FetchError {
    /// The error in words.
    pub open spec fn message_text(&self) -> Seq<char> {
        match self {
            FetchError::Collaborator(error) => error.message_text(),
            FetchError::FetchFailed { ref_name, status } => "Failed to fetch "@ + ref_name@ + ": "@
                + status@,
        }
    }

    /// The error in words, with the ref and the status that it is about.
    pub fn message(&self) -> (text: String)
        ensures
            text@ == self.message_text(),
    {
        match self {
            FetchError::Collaborator(error) => error.message(),
            FetchError::FetchFailed { ref_name, status } => {
                "Failed to fetch ".to_owned().concat(ref_name.as_str()).concat(": ").concat(
                    status.as_str(),
                )
            },
        }
    }
}

impl View for Event {
    type V = EventView;

    open spec fn view(&self) -> EventView {
        match self {
            Event::Listed(outcome) => EventView::Listed {
                success: outcome.success,
                status: outcome.status@,
                output: outcome.output@,
            },
            Event::Reported => EventView::Reported,
            Event::Pulled(outcome) => EventView::Pulled {
                success: outcome.success,
                status: outcome.status@,
            },
        }
    }
}

/// The result of a fetch with its texts as values.
pub open spec fn result_view(result: Result<(), FetchError>) -> Result<(), FetchFault> {
    match result {
        Ok(_) => Ok(()),
        Err(error) => Err(error@),
    }
}

impl View for Action {
    type V = ActionView;

    open spec fn view(&self) -> ActionView {
        match self {
            Action::ListRefs { repository, remote } => ActionView::ListRefs {
                repository: repository@,
                remote: remote@,
            },
            Action::Report { total, matched } => ActionView::Report {
                total: *total as nat,
                matched: bytes_of_each(matched@),
            },
            Action::Pull { repository, remote, ref_name } => ActionView::Pull {
                repository: repository@,
                remote: remote@,
                ref_name: encode_utf8(ref_name@),
            },
            Action::Finish { result } => ActionView::Finish { result: result_view(*result) },
        }
    }
}

impl FetchView {
    /// True of every fetch that exists: while it pulls, the ref being pulled
    /// is one of the selected refs.
    pub open spec fn wf(self) -> bool {
        self.progress matches Progress::Pulling { matched, next } ==> next < matched.len()
    }

    /// The same fetch at another point of its course.
    pub open spec fn at(self, progress: Progress) -> FetchView {
        FetchView { progress, ..self }
    }
}

/// Where a fetch stands after the selection has been reported, or after the
/// ref before `matched[next]` has been pulled: at `matched[next]` if there is
/// such a ref, and at its good end if there is none.
pub open spec fn pull_from(matched: Seq<Seq<u8>>, next: nat) -> Progress {
    if next < matched.len() {
        Progress::Pulling { matched, next }
    } else {
        Progress::Finished { result: Ok(()) }
    }
}

/// The fetch after an event.
///
/// The answer of the ref-source ends the fetch if it is faulty, and else
/// gives the selection to report. After the report the first selected ref is
/// pulled. A pull that succeeded is followed by the pull of the next
/// selected ref, a pull that failed by nothing. An event that does not answer
/// the action that the fetch asked for leaves the fetch as it is.
pub open spec fn step_of(fetch: FetchView, event: EventView) -> FetchView {
    match (fetch.progress, event) {
        (Progress::Listing, EventView::Listed { success, status, output }) => match listing(
            success,
            status,
            output,
        ) {
            Err(fault) => fetch.at(
                Progress::Finished { result: Err(FetchFault::Collaborator(fault)) },
            ),
            Ok(names) => fetch.at(
                Progress::Reporting {
                    total: names.len(),
                    matched: matching_names(names, fetch.pattern),
                },
            ),
        },
        (Progress::Reporting { total, matched }, EventView::Reported) => fetch.at(
            pull_from(matched, 0),
        ),
        (Progress::Pulling { matched, next }, EventView::Pulled { success, status }) => if success {
            fetch.at(pull_from(matched, next + 1))
        } else {
            fetch.at(
                Progress::Finished {
                    result: Err(FetchFault::FetchFailed { ref_name: matched[next as int], status }),
                },
            )
        },
        _ => fetch,
    }
}

/// The action that a fetch asks for.
pub open spec fn action_of(fetch: FetchView) -> ActionView {
    match fetch.progress {
        Progress::Listing => ActionView::ListRefs {
            repository: fetch.repository,
            remote: fetch.remote,
        },
        Progress::Reporting { total, matched } => ActionView::Report { total, matched },
        Progress::Pulling { matched, next } => ActionView::Pull {
            repository: fetch.repository,
            remote: fetch.remote,
            ref_name: matched[next as int],
        },
        Progress::Finished { result } => ActionView::Finish { result },
    }
}

/// The fetch after a sequence of events.
pub open spec fn run(fetch: FetchView, events: Seq<EventView>) -> FetchView
    decreases events.len(),
{
    if events.len() == 0 {
        fetch
    } else {
        step_of(run(fetch, events.drop_last()), events.last())
    }
}

/// True when the events of a sequence are answers of a fetch-sink that all
/// report success.
pub open spec fn all_pulled(events: Seq<EventView>) -> bool {
    forall|i: int|
        0 <= i < events.len() ==> (#[trigger] events[i] matches EventView::Pulled { success, .. }
            && success)
}

/// A step keeps a fetch well formed, and never touches what the fetch was
/// asked for: the repository, the remote and the glob.
pub proof fn lemma_step_keeps_request(fetch: FetchView, event: EventView)
    requires
        fetch.wf(),
    ensures
        step_of(fetch, event).wf(),
        step_of(fetch, event).repository == fetch.repository,
        step_of(fetch, event).remote == fetch.remote,
        step_of(fetch, event).pattern == fetch.pattern,
{
}

/// Running through two sequences of events, one after the other, is running
/// through both at once.
pub proof fn lemma_run_in_parts(fetch: FetchView, first: Seq<EventView>, second: Seq<EventView>)
    ensures
        run(fetch, first + second) == run(run(fetch, first), second),
    decreases second.len(),
{
    if second.len() > 0 {
        lemma_run_in_parts(fetch, first, second.drop_last());
        assert((first + second).drop_last() =~= first + second.drop_last());
    }
}

/// A fetch that has ended stays as it is, whatever comes.
pub proof fn lemma_finished_is_final(fetch: FetchView, events: Seq<EventView>)
    requires
        fetch.progress is Finished,
    ensures
        run(fetch, events) == fetch,
    decreases events.len(),
{
    if events.len() > 0 {
        lemma_finished_is_final(fetch, events.drop_last());
    }
}

/// Nothing is pulled unless the refs were listed without fault: a faulty
/// answer of the ref-source ends the fetch with that fault.
pub proof fn lemma_faulty_listing_ends_fetch(
    fetch: FetchView,
    success: bool,
    status: Seq<char>,
    output: Seq<u8>,
    later: Seq<EventView>,
)
    requires
        fetch.progress is Listing,
        listing(success, status, output) is Err,
    ensures
        run(step_of(fetch, EventView::Listed { success, status, output }), later).progress
            == (Progress::Finished {
            result: Err(FetchFault::Collaborator(listing(success, status, output)->Err_0)),
        }),
{
    lemma_finished_is_final(step_of(fetch, EventView::Listed { success, status, output }), later);
}

/// While the pulls succeed the selected refs are pulled in their order: after
/// as many successes as `answers` holds, the fetch stands that many refs
/// further on, or at its good end if that was the last ref.
pub proof fn lemma_pulls_follow_selection(fetch: FetchView, answers: Seq<EventView>)
    requires
        fetch.wf(),
        fetch.progress is Pulling,
        all_pulled(answers),
        fetch.progress->Pulling_next + answers.len() <= fetch.progress->Pulling_matched.len(),
    ensures
        run(fetch, answers) == fetch.at(
            pull_from(
                fetch.progress->Pulling_matched,
                fetch.progress->Pulling_next + answers.len(),
            ),
        ),
    decreases answers.len(),
{
    if answers.len() > 0 {
        let earlier = answers.drop_last();
        lemma_pulls_follow_selection(fetch, earlier);
    }
}

/// The first pull that fails ends the fetch. If the pulls before it
/// succeeded, the fetch ends with the failure of the ref whose turn it was,
/// and stays so whatever comes later: what it asks for from then on is
/// nothing, so the refs after the failed one are never pulled.
pub proof fn lemma_first_failure_ends_fetch(
    fetch: FetchView,
    answers: Seq<EventView>,
    status: Seq<char>,
    later: Seq<EventView>,
)
    requires
        fetch.wf(),
        fetch.progress is Pulling,
        all_pulled(answers),
        fetch.progress->Pulling_next + answers.len() < fetch.progress->Pulling_matched.len(),
    ensures
        ({
            let turn = fetch.progress->Pulling_next + answers.len();
            let failed = fetch.progress->Pulling_matched[turn as int];
            let result = Err::<(), FetchFault>(FetchFault::FetchFailed { ref_name: failed, status });
            let end = run(
                fetch,
                answers + seq![EventView::Pulled { success: false, status }] + later,
            );
            &&& end == fetch.at(Progress::Finished { result })
            &&& action_of(end) == ActionView::Finish { result }
        }),
{
    let failure = EventView::Pulled { success: false, status };
    lemma_pulls_follow_selection(fetch, answers);
    lemma_run_in_parts(fetch, answers + seq![failure], later);
    assert((answers + seq![failure]).drop_last() =~= answers);
    lemma_finished_is_final(run(fetch, answers + seq![failure]), later);
}

enum Stage {
    Listing,
    Reporting { total: usize, matched: Vec<String> },
    Pulling { matched: Vec<String>, next: usize },
    Finished { result: Result<(), FetchError> },
}

/// A fetch of the refs of `remote` that match a glob, into `repository`.
pub struct Fetch {
    repository: String,
    remote: String,
    pattern: String,
    stage: Stage,
}

impl View for Fetch {
    type V = FetchView;

    closed spec fn view(&self) -> FetchView {
        FetchView {
            repository: self.repository@,
            remote: self.remote@,
            pattern: encode_utf8(self.pattern@),
            progress: match self.stage {
                Stage::Listing => Progress::Listing,
                Stage::Reporting { total, matched } => Progress::Reporting {
                    total: total as nat,
                    matched: bytes_of_each(matched@),
                },
                Stage::Pulling { matched, next } => Progress::Pulling {
                    matched: bytes_of_each(matched@),
                    next: next as nat,
                },
                Stage::Finished { result } => Progress::Finished { result: result_view(result) },
            },
        }
    }
}

/// A copy of each string.
fn copy_names(names: &Vec<String>) -> (copy: Vec<String>)
    ensures
        copy@ == names@,
{
    let mut copy: Vec<String> = Vec::new();
    let mut i: usize = 0;
    while i < names.len()
        invariant
            i <= names@.len(),
            copy@ == names@.take(i as int),
        decreases names@.len() - i,
    {
        copy.push(names[i].clone());
        i = i + 1;
    }
    copy
}

impl Fetch {
    #[verifier::type_invariant]
    spec fn inv(self) -> bool {
        self.stage matches Stage::Pulling { matched, next } ==> next < matched@.len()
    }

    /// A fetch that has not begun: it asks for the refs of the remote.
    pub fn new(repository: &str, remote: &str, pattern: &str) -> (fetch: Fetch)
        ensures
            fetch@ == (FetchView {
                repository: repository@,
                remote: remote@,
                pattern: encode_utf8(pattern@),
                progress: Progress::Listing,
            }),
            fetch@.wf(),
    {
        Fetch {
            repository: repository.to_owned(),
            remote: remote.to_owned(),
            pattern: pattern.to_owned(),
            stage: Stage::Listing,
        }
    }

    /// What is to be done next.
    pub fn action(&self) -> (action: Action)
        ensures
            action@ == action_of(self@),
    {
        proof {
            use_type_invariant(self);
        }
        match &self.stage {
            Stage::Listing => Action::ListRefs {
                repository: self.repository.clone(),
                remote: self.remote.clone(),
            },
            Stage::Reporting { total, matched } => Action::Report {
                total: *total,
                matched: copy_names(matched),
            },
            Stage::Pulling { matched, next } => Action::Pull {
                repository: self.repository.clone(),
                remote: self.remote.clone(),
                ref_name: matched[*next].clone(),
            },
            Stage::Finished { result } => Action::Finish {
                result: match result {
                    Ok(_) => Ok(()),
                    Err(error) => Err(copy_error(error)),
                },
            },
        }
    }

    /// True when the fetch has ended.
    pub fn is_finished(&self) -> (finished: bool)
        ensures
            finished == (self@.progress is Finished),
    {
        match &self.stage {
            Stage::Finished { .. } => true,
            _ => false,
        }
    }

    /// Takes what came of the action that the fetch asked for.
    pub fn step(self, event: Event) -> (after: Fetch)
        ensures
            after@ == step_of(self@, event@),
            after@.wf(),
    {
        proof {
            use_type_invariant(&self);
        }
        let Fetch { repository, remote, pattern, stage } = self;
        let stage = match (stage, event) {
            (Stage::Listing, Event::Listed(outcome)) => match read_listing(&outcome) {
                Err(error) => Stage::Finished { result: Err(FetchError::Collaborator(error)) },
                Ok(names) => {
                    let matched = select_matching(&names, pattern.as_str());
                    Stage::Reporting { total: names.len(), matched }
                },
            },
            (Stage::Reporting { total, matched }, Event::Reported) => {
                if matched.len() > 0 {
                    Stage::Pulling { matched, next: 0 }
                } else {
                    Stage::Finished { result: Ok(()) }
                }
            },
            (Stage::Pulling { matched, next }, Event::Pulled(outcome)) => {
                let count = matched.len();
                if !outcome.success {
                    let ref_name = matched[next].clone();
                    Stage::Finished {
                        result: Err(FetchError::FetchFailed { ref_name, status: outcome.status }),
                    }
                } else if next + 1 < count {
                    Stage::Pulling { matched, next: next + 1 }
                } else {
                    Stage::Finished { result: Ok(()) }
                }
            },
            (stage, _) => stage,
        };
        Fetch { repository, remote, pattern, stage }
    }
}

/// A copy of an error of the ref-source.
fn copy_listing_error(error: &CollaboratorError) -> (copy: CollaboratorError)
    ensures
        copy@ == error@,
{
    match error {
        CollaboratorError::QueryFailed { status } => CollaboratorError::QueryFailed {
            status: status.clone(),
        },
        CollaboratorError::NotText => CollaboratorError::NotText,
        CollaboratorError::MalformedLine { line } => CollaboratorError::MalformedLine {
            line: line.clone(),
        },
    }
}

/// A copy of an error of a fetch.
fn copy_error(error: &FetchError) -> (copy: FetchError)
    ensures
        copy@ == error@,
{
    match error {
        FetchError::Collaborator(inner) => FetchError::Collaborator(copy_listing_error(inner)),
        FetchError::FetchFailed { ref_name, status } => FetchError::FetchFailed {
            ref_name: ref_name.clone(),
            status: status.clone(),
        },
    }
}

} // verus!
