//! The downloader for `ed2k://` links.
//!
//! A download tries one candidate address after the other. [`Ed2kTransfer`] decides what to do
//! next; whoever drives it does the input and output and reports back what happened.

use vstd::prelude::*;
use vstd::string::*;

use crate::base::BaseDownloader;
use crate::base::DownloadConfig;
use crate::base::DownloadTask;
use crate::gateway;
use crate::http;
use crate::link;
use crate::link::Ed2kInfo;
use crate::link::LinkModel;
use crate::number;
use crate::text;

verus! {

/// Downloads the file of an `ed2k://` link over HTTP, from the sources in the link or through a
/// gateway.
#[derive(Debug)]
pub struct ED2KDownloader {
    pub base: BaseDownloader,
    /// Whether a performance monitor is told about the progress.
    pub monitor: bool,
}

/// What a download waits for.
#[derive(Clone, Copy, Debug, PartialEq, Eq, Structural)]
pub enum Ed2kPhase {
    /// The HTTP client.
    Client,
    /// The answer of the current candidate.
    Answer,
    /// The file to write to.
    File,
    /// The next part of the body.
    Body,
    /// Nothing: the download has ended.
    Ended,
}

/// What happened.
#[derive(Debug)]
pub enum Ed2kEvent {
    ClientCreated,
    ClientFailed(String),
    SendFailed(String),
    Answered { status: u16, content_length: Option<u64> },
    FileCreated,
    FileFailed(String),
    /// That many bytes of the body were received and written.
    Written(usize),
    ReadFailed(String),
    WriteFailed(String),
    BodyEnded,
}

/// What to do next.
#[derive(Debug, PartialEq, Eq)]
pub enum Ed2kAction {
    CreateClient,
    /// Request this address.
    Fetch(String),
    /// Create the file, for that many bytes.
    CreateFile(i64),
    /// Receive the next part of the body and write it to the file.
    Receive,
    /// The download is complete.
    Finish,
    /// The download has failed.
    Fail(String),
}

/// What to tell the performance monitor, and what to do then.
#[derive(Debug, PartialEq, Eq)]
pub struct Ed2kStep {
    /// The number of bytes to expect.
    pub total: Option<i64>,
    /// The number of bytes that have come in.
    pub progress: Option<i64>,
    pub action: Ed2kAction,
}

/// A download in progress.
#[derive(Debug)]
pub struct Ed2kTransfer {
    pub info: Ed2kInfo,
    pub candidates: Vec<String>,
    /// The position of the candidate that is tried.
    pub current: usize,
    /// The notes on the candidates that were tried before.
    pub failures: Vec<String>,
    pub downloaded: i64,
    pub monitor: bool,
    pub phase: Ed2kPhase,
}

/// An action, as texts.
pub enum ActionModel {
    CreateClient,
    Fetch(Seq<char>),
    CreateFile(i64),
    Receive,
    Finish,
    Fail(Seq<char>),
}

impl View for Ed2kAction {
    type V = ActionModel;

    open spec fn view(&self) -> ActionModel {
        match *self {
            Ed2kAction::CreateClient => ActionModel::CreateClient,
            Ed2kAction::Fetch(url) => ActionModel::Fetch(url@),
            Ed2kAction::CreateFile(total) => ActionModel::CreateFile(total),
            Ed2kAction::Receive => ActionModel::Receive,
            Ed2kAction::Finish => ActionModel::Finish,
            Ed2kAction::Fail(message) => ActionModel::Fail(message@),
        }
    }
}

/// A step, as texts and numbers.
pub struct StepModel {
    pub total: Option<i64>,
    pub progress: Option<i64>,
    pub action: ActionModel,
}

impl View for Ed2kStep {
    type V = StepModel;

    open spec fn view(&self) -> StepModel {
        StepModel { total: self.total, progress: self.progress, action: self.action@ }
    }
}

/// A download in progress, as texts and numbers.
#[verifier::ext_equal]
pub struct TransferModel {
    pub link: LinkModel,
    pub candidates: Seq<Seq<char>>,
    pub current: nat,
    pub failures: Seq<Seq<char>>,
    pub downloaded: int,
    pub monitor: bool,
    pub phase: Ed2kPhase,
}

impl View for Ed2kTransfer {
    type V = TransferModel;

    open spec fn view(&self) -> TransferModel {
        TransferModel {
            link: self.info@,
            candidates: text::texts(self.candidates@),
            current: self.current as nat,
            failures: text::texts(self.failures@),
            downloaded: self.downloaded as int,
            monitor: self.monitor,
            phase: self.phase,
        }
    }
}

/// The step that does `action` and tells the monitor nothing.
pub open spec fn quiet(action: ActionModel) -> StepModel {
    StepModel { total: None, progress: None, action }
}

/// The message when every candidate has failed: one line on each.
pub open spec fn all_failed(hash: Seq<char>, failures: Seq<Seq<char>>) -> Seq<char> {
    "All ED2K sources failed for hash "@ + hash + "\n"@ + text::joined(
        failures.map_values(|failure: Seq<char>| "  "@ + failure),
        "\n"@,
    )
}

impl TransferModel {
    /// The states that a download can be in.
    pub open spec fn well_formed(self) -> bool {
        &&& self.failures.len() == self.current
        &&& self.current <= self.candidates.len()
        &&& self.phase != Ed2kPhase::Ended ==> self.current < self.candidates.len()
        &&& self.downloaded >= 0
        &&& self.phase == Ed2kPhase::Client ==> self.current == 0
        &&& self.phase == Ed2kPhase::Client || self.phase == Ed2kPhase::Answer || self.phase
            == Ed2kPhase::File ==> self.downloaded == 0
    }

    /// The event can come in this state, and the bytes received so far can be counted.
    pub open spec fn accepts(self, event: Ed2kEvent) -> bool {
        match event {
            Ed2kEvent::ClientCreated | Ed2kEvent::ClientFailed(_) => self.phase
                == Ed2kPhase::Client,
            Ed2kEvent::SendFailed(_) | Ed2kEvent::Answered { .. } => self.phase
                == Ed2kPhase::Answer,
            Ed2kEvent::FileCreated | Ed2kEvent::FileFailed(_) => self.phase == Ed2kPhase::File,
            Ed2kEvent::Written(len) => self.phase == Ed2kPhase::Body && self.downloaded + len
                <= i64::MAX,
            Ed2kEvent::ReadFailed(_) | Ed2kEvent::WriteFailed(_) | Ed2kEvent::BodyEnded => self.phase
                == Ed2kPhase::Body,
        }
    }

    /// The address that is tried.
    pub open spec fn candidate(self) -> Seq<char> {
        self.candidates[self.current as int]
    }

    /// The same download, waiting for something else.
    pub open spec fn in_phase(self, phase: Ed2kPhase) -> TransferModel {
        TransferModel { phase, ..self }
    }

    /// What the monitor is told, if there is one.
    pub open spec fn told(self, n: i64) -> Option<i64> {
        if self.monitor {
            Some(n)
        } else {
            None
        }
    }

    /// The download fails.
    pub open spec fn fail(self, message: Seq<char>) -> (TransferModel, StepModel) {
        (self.in_phase(Ed2kPhase::Ended), quiet(ActionModel::Fail(message)))
    }

    /// The current candidate has failed: the next one is tried, if there is one.
    pub open spec fn next_candidate(self, failure: Seq<char>) -> (TransferModel, StepModel) {
        let moved = TransferModel {
            current: self.current + 1,
            failures: self.failures.push(failure),
            ..self
        };
        if moved.current < moved.candidates.len() {
            (moved, quiet(ActionModel::Fetch(moved.candidate())))
        } else {
            moved.fail(all_failed(moved.link.hash, moved.failures))
        }
    }

    /// The current candidate has answered.
    pub open spec fn answered(self, status: u16, content_length: Option<u64>) -> (
        TransferModel,
        StepModel,
    ) {
        if http::is_success(status) {
            let total = number::signed(
                match content_length {
                    Some(length) => length,
                    None => self.link.size,
                },
            );
            (
                self.in_phase(Ed2kPhase::File),
                StepModel {
                    total: self.told(total),
                    progress: None,
                    action: ActionModel::CreateFile(total),
                },
            )
        } else {
            self.next_candidate(
                http::status_failure(self.candidate(), status, http::canonical_reason(status)),
            )
        }
    }

    /// The state after `event`, and what to do then.
    pub open spec fn after(self, event: Ed2kEvent) -> (TransferModel, StepModel) {
        match event {
            Ed2kEvent::ClientCreated => (
                self.in_phase(Ed2kPhase::Answer),
                quiet(ActionModel::Fetch(self.candidate())),
            ),
            Ed2kEvent::ClientFailed(error) => self.fail(
                "Failed to create HTTP client: "@ + error@,
            ),
            Ed2kEvent::SendFailed(error) => self.next_candidate(
                http::send_failure(self.candidate(), error@),
            ),
            Ed2kEvent::Answered { status, content_length } => self.answered(
                status,
                content_length,
            ),
            Ed2kEvent::FileCreated => (
                self.in_phase(Ed2kPhase::Body),
                quiet(ActionModel::Receive),
            ),
            Ed2kEvent::FileFailed(error) => self.fail(error@),
            Ed2kEvent::Written(len) => (
                TransferModel { downloaded: self.downloaded + len, ..self },
                StepModel {
                    total: None,
                    progress: self.told(len as i64),
                    action: ActionModel::Receive,
                },
            ),
            Ed2kEvent::ReadFailed(error) => self.fail(
                "Stream read error from "@ + self.candidate() + ": "@ + error@,
            ),
            Ed2kEvent::WriteFailed(error) => self.fail(
                "Write failed for "@ + self.candidate() + ": "@ + error@,
            ),
            Ed2kEvent::BodyEnded => (
                self.in_phase(Ed2kPhase::Ended),
                quiet(ActionModel::Finish),
            ),
        }
    }
}

/// The step that does `action` and tells the monitor nothing.
fn quietly(action: Ed2kAction) -> (res: Ed2kStep)
    ensures
        res@ == quiet(action@),
{
    Ed2kStep { total: None, progress: None, action }
}

/// The message that says that every candidate has failed.
pub fn all_failed_message(hash: &str, failures: &Vec<String>) -> (res: String)
    ensures
        res@ == all_failed(hash@, text::texts(failures@)),
{
    let ghost notes = text::texts(failures@);
    let mut lines: Vec<String> = Vec::new();
    let mut i: usize = 0;
    while i < failures.len()
        invariant
            i <= failures@.len(),
            notes == text::texts(failures@),
            text::texts(lines@) == notes.take(i as int).map_values(
                |failure: Seq<char>| "  "@ + failure,
            ),
        decreases failures@.len() - i,
    {
        let ghost before = lines@;
        let mut line = "  ".to_owned();
        line.append(failures[i].as_str());
        lines.push(line);
        proof {
            assert(text::texts(lines@) =~= text::texts(before).push("  "@ + notes[i as int]));
            assert(notes.take(i + 1) =~= notes.take(i as int).push(notes[i as int]));
        }
        i += 1;
    }
    proof {
        assert(notes.take(i as int) =~= notes);
    }
    let mut message = "All ED2K sources failed for hash ".to_owned();
    message.append(hash);
    message.append("\n");
    message.append(text::join(&lines, "\n").as_str());
    message
}

impl Ed2kTransfer {
    /// What the monitor is told, if there is one.
    fn tell(&self, n: i64) -> (res: Option<i64>)
        ensures
            res == self@.told(n),
    {
        if self.monitor {
            Some(n)
        } else {
            None
        }
    }

    /// Ends the download with a failure.
    fn end_with(&mut self, message: String) -> (res: Ed2kStep)
        ensures
            (final(self)@, res@) == old(self)@.fail(message@),
    {
        self.phase = Ed2kPhase::Ended;
        quietly(Ed2kAction::Fail(message))
    }

    /// Gives the current candidate up and turns to the next one.
    fn give_up(&mut self, failure: String) -> (res: Ed2kStep)
        requires
            old(self)@.well_formed(),
            old(self)@.phase == Ed2kPhase::Answer,
        ensures
            (final(self)@, res@) == old(self)@.next_candidate(failure@),
    {
        let count = self.candidates.len();
        self.failures.push(failure);
        self.current += 1;
        proof {
            assert(text::texts(self.failures@) =~= old(self)@.failures.push(failure@));
        }
        if self.current < count {
            let url = self.candidates[self.current].clone();
            quietly(Ed2kAction::Fetch(url))
        } else {
            let message = all_failed_message(self.info.hash.as_str(), &self.failures);
            self.end_with(message)
        }
    }

    /// Turns to the answer of the current candidate.
    fn answer(&mut self, status: u16, content_length: Option<u64>) -> (res: Ed2kStep)
        requires
            old(self)@.well_formed(),
            old(self)@.phase == Ed2kPhase::Answer,
        ensures
            (final(self)@, res@) == old(self)@.answered(status, content_length),
    {
        if http::succeeded(status) {
            let length = match content_length {
                Some(length) => length,
                None => self.info.size,
            };
            let total = number::to_signed(length);
            self.phase = Ed2kPhase::File;
            Ed2kStep {
                total: self.tell(total),
                progress: None,
                action: Ed2kAction::CreateFile(total),
            }
        } else {
            let reason = http::reason_of(status);
            let failure = http::status_failure_line(
                self.candidates[self.current].as_str(),
                status,
                &reason,
            );
            self.give_up(failure)
        }
    }

    /// Takes note of what happened and says what to do next.
    pub fn step(&mut self, event: Ed2kEvent) -> (res: Ed2kStep)
        requires
            old(self)@.well_formed(),
            old(self)@.accepts(event),
        ensures
            (final(self)@, res@) == old(self)@.after(event),
            final(self)@.well_formed(),
    {
        match event {
            Ed2kEvent::ClientCreated => {
                self.phase = Ed2kPhase::Answer;
                let url = self.candidates[self.current].clone();
                quietly(Ed2kAction::Fetch(url))
            },
            Ed2kEvent::ClientFailed(error) => {
                let mut message = "Failed to create HTTP client: ".to_owned();
                message.append(error.as_str());
                self.end_with(message)
            },
            Ed2kEvent::SendFailed(error) => {
                let failure = http::send_failure_line(
                    self.candidates[self.current].as_str(),
                    error.as_str(),
                );
                self.give_up(failure)
            },
            Ed2kEvent::Answered { status, content_length } => self.answer(status, content_length),
            Ed2kEvent::FileCreated => {
                self.phase = Ed2kPhase::Body;
                quietly(Ed2kAction::Receive)
            },
            Ed2kEvent::FileFailed(error) => self.end_with(error),
            Ed2kEvent::Written(len) => {
                self.downloaded += len as i64;
                Ed2kStep {
                    total: None,
                    progress: self.tell(len as i64),
                    action: Ed2kAction::Receive,
                }
            },
            Ed2kEvent::ReadFailed(error) => {
                let mut message = "Stream read error from ".to_owned();
                message.append(self.candidates[self.current].as_str());
                message.append(": ");
                message.append(error.as_str());
                self.end_with(message)
            },
            Ed2kEvent::WriteFailed(error) => {
                let mut message = "Write failed for ".to_owned();
                message.append(self.candidates[self.current].as_str());
                message.append(": ");
                message.append(error.as_str());
                self.end_with(message)
            },
            Ed2kEvent::BodyEnded => {
                self.phase = Ed2kPhase::Ended;
                quietly(Ed2kAction::Finish)
            },
        }
    }
}

impl ED2KDownloader {
    /// The gateways that are configured for this downloader.
    pub open spec fn gateways(self) -> Seq<Seq<char>> {
        match self.base.config {
            Some(config) => text::texts(config.ed2k_gateways@),
            None => gateway::default_gateways(),
        }
    }

    /// The download of `link` at its start.
    pub open spec fn fresh(self, link: LinkModel) -> TransferModel {
        let candidates = gateway::candidates(link, self.gateways());
        TransferModel {
            link,
            candidates,
            current: 0,
            failures: Seq::empty(),
            downloaded: 0,
            monitor: self.monitor,
            phase: if candidates.len() == 0 {
                Ed2kPhase::Ended
            } else {
                Ed2kPhase::Client
            },
        }
    }

    /// The first step of the download of `link`.
    pub open spec fn first_step(self, link: LinkModel) -> StepModel {
        let transfer = self.fresh(link);
        StepModel {
            total: transfer.told(number::signed(link.size)),
            progress: None,
            action: if transfer.candidates.len() == 0 {
                ActionModel::Fail("No ED2K gateways or direct HTTP sources configured"@)
            } else {
                ActionModel::CreateClient
            },
        }
    }

    /// A running downloader with these settings.
    pub fn new(config: DownloadConfig, monitor: bool) -> (res: Self)
        ensures
            res.base.config == Some(config),
            res.base.running,
            res.monitor == monitor,
    {
        ED2KDownloader { base: BaseDownloader { config: Some(config), running: true }, monitor }
    }

    /// Begins to download what `task` says.
    pub fn begin_download(&self, task: &DownloadTask) -> (res: Result<
        (Ed2kTransfer, Ed2kStep),
        String,
    >)
        ensures
            (match (res, link::link_of(task.url@)) {
                (Ok((transfer, step)), Ok(link)) => {
                    &&& transfer@ == self.fresh(link)
                    &&& transfer@.well_formed()
                    &&& step@ == self.first_step(link)
                },
                (Err(message), Err(reason)) => message@ == "Failed to parse ED2K URL: "@ + reason,
                _ => false,
            }),
    {
        let info = match ED2KDownloader::parse_ed2k_url(task.url.as_str()) {
            Ok(info) => info,
            Err(reason) => {
                let mut message = "Failed to parse ED2K URL: ".to_owned();
                message.append(reason.as_str());
                return Err(message);
            },
        };
        let candidates = match &self.base.config {
            Some(config) => gateway::build_candidate_urls(&info, config.ed2k_gateways.as_slice()),
            None => {
                let gateways = gateway::default_ed2k_gateways();
                gateway::build_candidate_urls(&info, gateways.as_slice())
            },
        };
        let size = number::to_signed(info.size);
        let transfer = Ed2kTransfer {
            info,
            phase: if candidates.len() == 0 {
                Ed2kPhase::Ended
            } else {
                Ed2kPhase::Client
            },
            candidates,
            current: 0,
            failures: Vec::new(),
            downloaded: 0,
            monitor: self.monitor,
        };
        let action = if transfer.candidates.len() == 0 {
            Ed2kAction::Fail("No ED2K gateways or direct HTTP sources configured".to_owned())
        } else {
            Ed2kAction::CreateClient
        };
        let step = Ed2kStep { total: transfer.tell(size), progress: None, action };
        proof {
            assert(text::texts(transfer.failures@) =~= Seq::<Seq<char>>::empty());
        }
        Ok((transfer, step))
    }

    /// The name of the protocol.
    pub fn get_type(&self) -> (res: String)
        ensures
            res@ == "ED2K"@,
    {
        "ED2K".to_owned()
    }

    /// Stops the downloader.
    pub fn cancel(&mut self)
        ensures
            !final(self).base.running,
            final(self).base.config == old(self).base.config,
            final(self).monitor == old(self).monitor,
    {
        self.base.running = false;
    }
}

impl Default for ED2KDownloader {
    /// A downloader without settings or monitor that is not running.
    fn default() -> (res: Self)
        ensures
            res.base.config is None,
            !res.base.running,
            !res.monitor,
    {
        ED2KDownloader { base: BaseDownloader::new(), monitor: false }
    }
}

/// The addresses that the steps request, in order.
pub open spec fn fetched(steps: Seq<StepModel>) -> Seq<Seq<char>>
    decreases steps.len(),
{
    if steps.len() == 0 {
        Seq::empty()
    } else {
        let before = fetched(steps.drop_last());
        match steps.last().action {
            ActionModel::Fetch(url) => before.push(url),
            _ => before,
        }
    }
}

/// The number of bytes that the steps tell the monitor about.
pub open spec fn told_bytes(steps: Seq<StepModel>) -> int
    decreases steps.len(),
{
    if steps.len() == 0 {
        0
    } else {
        told_bytes(steps.drop_last()) + (match steps.last().progress {
            Some(n) => n as int,
            None => 0,
        })
    }
}

/// The event is the failure of a candidate.
pub open spec fn is_candidate_failure(event: Ed2kEvent) -> bool {
    match event {
        Ed2kEvent::SendFailed(_) => true,
        Ed2kEvent::Answered { status, .. } => !http::is_success(status),
        _ => false,
    }
}

/// The note on the failure of a candidate.
pub open spec fn failure_note(candidate: Seq<char>, event: Ed2kEvent) -> Seq<char> {
    match event {
        Ed2kEvent::Answered { status, .. } => http::status_failure(
            candidate,
            status,
            http::canonical_reason(status),
        ),
        Ed2kEvent::SendFailed(error) => http::send_failure(candidate, error@),
        _ => Seq::empty(),
    }
}

/// The event is an answer that promises the file.
pub open spec fn is_success_answer(event: Ed2kEvent) -> bool {
    event matches Ed2kEvent::Answered { status, .. } && http::is_success(status)
}

impl TransferModel {
    /// The state after all `events`.
    pub open spec fn run(self, events: Seq<Ed2kEvent>) -> TransferModel
        decreases events.len(),
    {
        if events.len() == 0 {
            self
        } else {
            self.run(events.drop_last()).after(events.last()).0
        }
    }

    /// The steps that answer the `events`.
    pub open spec fn steps(self, events: Seq<Ed2kEvent>) -> Seq<StepModel>
        decreases events.len(),
    {
        if events.len() == 0 {
            Seq::empty()
        } else {
            self.steps(events.drop_last()).push(
                self.run(events.drop_last()).after(events.last()).1,
            )
        }
    }

    /// The `events` can come one after the other.
    pub open spec fn possible(self, events: Seq<Ed2kEvent>) -> bool
        decreases events.len(),
    {
        events.len() == 0 || {
            &&& self.possible(events.drop_last())
            &&& self.run(events.drop_last()).accepts(events.last())
        }
    }
}

/// Every download stays in a possible state, and what is downloaded, from where, and for which
/// monitor never changes.
pub proof fn law_runs_keep_the_task(start: TransferModel, events: Seq<Ed2kEvent>)
    requires
        start.well_formed(),
        start.possible(events),
    ensures
        start.run(events).well_formed(),
        start.run(events).link == start.link,
        start.run(events).candidates == start.candidates,
        start.run(events).monitor == start.monitor,
        start.failures.is_prefix_of(start.run(events).failures),
    decreases events.len(),
{
    if events.len() > 0 {
        let before = start.run(events.drop_last());
        let after = start.run(events);
        law_runs_keep_the_task(start, events.drop_last());
        assert(after.failures.subrange(0, before.failures.len() as int) =~= before.failures);
        assert(after.failures.subrange(0, start.failures.len() as int) =~= before.failures.subrange(
            0,
            start.failures.len() as int,
        ));
    }
}

/// Nothing can happen to a download that has ended.
pub proof fn law_ended_is_final(start: TransferModel, events: Seq<Ed2kEvent>)
    requires
        start.phase == Ed2kPhase::Ended,
        start.possible(events),
    ensures
        events.len() == 0,
    decreases events.len(),
{
    if events.len() > 0 {
        law_ended_is_final(start, events.drop_last());
    }
}

/// The candidates are requested in their order: none is left out, none is requested twice.
pub proof fn law_candidates_in_order(start: TransferModel, events: Seq<Ed2kEvent>)
    requires
        start.well_formed(),
        start.phase == Ed2kPhase::Client,
        start.possible(events),
    ensures
        fetched(start.steps(events)).is_prefix_of(start.candidates),
        start.run(events).phase == Ed2kPhase::Client ==> fetched(start.steps(events)).len() == 0,
        start.run(events).phase != Ed2kPhase::Client && start.run(events).phase
            != Ed2kPhase::Ended ==> fetched(start.steps(events)).len() == start.run(events).current
            + 1,
    decreases events.len(),
{
    let all = fetched(start.steps(events));
    if events.len() > 0 {
        let init = events.drop_last();
        law_candidates_in_order(start, init);
        law_runs_keep_the_task(start, init);
        law_runs_keep_the_task(start, events);
        assert(start.steps(events).drop_last() =~= start.steps(init));
        if all != fetched(start.steps(init)) {
            assert(all.last() == start.candidates[all.len() - 1]);
        }
    }
    assert(all =~= start.candidates.subrange(0, all.len() as int));
}

/// Once a candidate has promised the file, no other one is requested.
pub proof fn law_first_success_is_kept(start: TransferModel, events: Seq<Ed2kEvent>)
    requires
        start.phase == Ed2kPhase::File || start.phase == Ed2kPhase::Body,
        start.possible(events),
    ensures
        fetched(start.steps(events)).len() == 0,
        start.run(events).current == start.current,
        start.run(events).phase != Ed2kPhase::Client,
        start.run(events).phase != Ed2kPhase::Answer,
    decreases events.len(),
{
    if events.len() > 0 {
        law_first_success_is_kept(start, events.drop_last());
        assert(start.steps(events).drop_last() =~= start.steps(events.drop_last()));
    }
}

/// A download is complete only after a candidate has promised the file.
pub proof fn law_completion_needs_success(start: TransferModel, events: Seq<Ed2kEvent>)
    requires
        start.phase == Ed2kPhase::Client,
        start.possible(events),
        events.len() > 0,
        start.steps(events).last().action is Finish,
    ensures
        exists|i: int| 0 <= i < events.len() && is_success_answer(#[trigger] events[i]),
{
    let init = events.drop_last();
    lemma_body_needs_success(start, init);
    let i = choose|i: int| 0 <= i < init.len() && is_success_answer(#[trigger] init[i]);
    assert(is_success_answer(events[i]));
}

/// A file and a body are there only after a candidate has promised the file.
proof fn lemma_body_needs_success(start: TransferModel, events: Seq<Ed2kEvent>)
    requires
        start.phase == Ed2kPhase::Client,
        start.possible(events),
    ensures
        start.run(events).phase == Ed2kPhase::File || start.run(events).phase == Ed2kPhase::Body
            ==> exists|i: int| 0 <= i < events.len() && is_success_answer(#[trigger] events[i]),
    decreases events.len(),
{
    if events.len() > 0 {
        let init = events.drop_last();
        let before = start.run(init).phase;
        lemma_body_needs_success(start, init);
        if before == Ed2kPhase::File || before == Ed2kPhase::Body {
            let i = choose|i: int| 0 <= i < init.len() && is_success_answer(#[trigger] init[i]);
            assert(is_success_answer(events[i]));
        } else {
            let last = events[events.len() - 1];
            assert(start.run(events).phase == Ed2kPhase::File ==> is_success_answer(last));
        }
    }
}

/// If every candidate fails, the download fails, and the message has a note on each of them.
pub proof fn law_all_candidates_fail(start: TransferModel, events: Seq<Ed2kEvent>)
    requires
        start.well_formed(),
        start.phase == Ed2kPhase::Answer,
        events.len() == start.candidates.len() - start.current,
        forall|i: int| 0 <= i < events.len() ==> is_candidate_failure(#[trigger] events[i]),
    ensures
        start.possible(events),
        start.run(events).phase == Ed2kPhase::Ended,
        start.steps(events).last() == quiet(
            ActionModel::Fail(
                all_failed(
                    start.link.hash,
                    start.failures + Seq::new(
                        events.len(),
                        |i: int| failure_note(start.candidates[start.current + i], events[i]),
                    ),
                ),
            ),
        ),
{
    lemma_candidates_fail(start, events.drop_last());
    let before = start.run(events.drop_last());
    let last = events[events.len() - 1];
    assert(is_candidate_failure(last));
    assert(before.failures.push(failure_note(before.candidate(), last)) =~= start.failures
        + Seq::new(
        events.len(),
        |i: int| failure_note(start.candidates[start.current + i], events[i]),
    ));
}

/// While candidates are left, each failure is noted and the next one is turned to.
proof fn lemma_candidates_fail(start: TransferModel, events: Seq<Ed2kEvent>)
    requires
        start.well_formed(),
        start.phase == Ed2kPhase::Answer,
        events.len() < start.candidates.len() - start.current,
        forall|i: int| 0 <= i < events.len() ==> is_candidate_failure(#[trigger] events[i]),
    ensures
        start.possible(events),
        start.run(events) == (TransferModel {
            current: start.current + events.len(),
            failures: start.failures + Seq::new(
                events.len(),
                |i: int| failure_note(start.candidates[start.current + i], events[i]),
            ),
            ..start
        }),
    decreases events.len(),
{
    let notes = Seq::new(
        events.len(),
        |i: int| failure_note(start.candidates[start.current + i], events[i]),
    );
    if events.len() == 0 {
        assert(start.failures + notes =~= start.failures);
    } else {
        let last = events[events.len() - 1];
        lemma_candidates_fail(start, events.drop_last());
        let before = start.run(events.drop_last());
        assert(is_candidate_failure(last));
        assert(before.failures.push(failure_note(before.candidate(), last)) =~= start.failures
            + notes);
    }
}

/// The monitor is told about every byte that is written, and nobody is told anything without one.
pub proof fn law_monitor_hears_of_all_bytes(start: TransferModel, events: Seq<Ed2kEvent>)
    requires
        start.possible(events),
        start.downloaded >= 0,
    ensures
        start.run(events).monitor == start.monitor,
        start.run(events).downloaded >= start.downloaded,
        start.monitor ==> told_bytes(start.steps(events)) == start.run(events).downloaded
            - start.downloaded,
        !start.monitor ==> forall|i: int|
            0 <= i < events.len() ==> (#[trigger] start.steps(events)[i]).total is None
                && start.steps(events)[i].progress is None,
        start.steps(events).len() == events.len(),
    decreases events.len(),
{
    if events.len() > 0 {
        let init = events.drop_last();
        law_monitor_hears_of_all_bytes(start, init);
        assert(start.steps(events).drop_last() =~= start.steps(init));
        if !start.monitor {
            assert forall|i: int| 0 <= i < events.len() implies (
            #[trigger] start.steps(events)[i]).total is None && start.steps(
                events,
            )[i].progress is None by {
                if i < init.len() {
                    assert(start.steps(events)[i] == start.steps(init)[i]);
                }
            }
        }
    }
}

/// Without configured gateways there is always something to try, the default gateway among it.
pub proof fn law_defaults_lead_somewhere(downloader: ED2KDownloader, link: LinkModel)
    requires
        downloader.base.config is Some ==> (downloader.base.config->0).ed2k_gateways@.len() == 0,
    ensures
        downloader.first_step(link).action == ActionModel::CreateClient,
        downloader.fresh(link).candidates.contains(
            gateway::rendered(gateway::default_gateways()[0], link),
        ),
{
    let none = Seq::<Seq<char>>::empty();
    gateway::law_default_gateway_is_tried(link);
    assert(gateway::effective_gateways(downloader.gateways()) == gateway::effective_gateways(none));
    assert(gateway::candidates(link, downloader.gateways()) == gateway::candidates(link, none));
}

/// Actions, steps and downloads are what their fields hold.
pub proof fn law_records(action: Ed2kAction, step: Ed2kStep, transfer: Ed2kTransfer)
    ensures
        action is CreateClient <==> action@ is CreateClient,
        action is Fetch ==> action@ == ActionModel::Fetch(action->Fetch_0@),
        action is CreateFile ==> action@ == ActionModel::CreateFile(action->CreateFile_0),
        action is Receive <==> action@ is Receive,
        action is Finish <==> action@ is Finish,
        action is Fail ==> action@ == ActionModel::Fail(action->Fail_0@),
        step@.total == step.total,
        step@.progress == step.progress,
        step@.action == step.action@,
        transfer@.link == transfer.info@,
        transfer@.candidates.len() == transfer.candidates@.len(),
        forall|i: int| 0 <= i < transfer.candidates@.len() ==> (#[trigger] transfer@.candidates[i])
            == transfer.candidates@[i]@,
        transfer@.current == transfer.current,
        transfer@.failures.len() == transfer.failures@.len(),
        forall|i: int| 0 <= i < transfer.failures@.len() ==> (#[trigger] transfer@.failures[i])
            == transfer.failures@[i]@,
        transfer@.downloaded == transfer.downloaded,
        transfer@.monitor == transfer.monitor,
        transfer@.phase == transfer.phase,
{
}

/// The message on failed candidates names the hash and has an indented line on each failure.
pub proof fn law_all_failed_message(hash: Seq<char>, failures: Seq<Seq<char>>, failure: Seq<char>)
    ensures
        all_failed(hash, Seq::empty()) == "All ED2K sources failed for hash "@ + hash + "\n"@,
        all_failed(hash, seq![failure]) == "All ED2K sources failed for hash "@ + hash + "\n"@
            + "  "@ + failure,
        failures.len() > 0 ==> all_failed(hash, failures.push(failure)) == all_failed(
            hash,
            failures,
        ) + "\n"@ + "  "@ + failure,
{
    let indent = |failure: Seq<char>| "  "@ + failure;
    let head = "All ED2K sources failed for hash "@ + hash + "\n"@;
    let none = Seq::<Seq<char>>::empty();
    let lines = failures.map_values(indent);
    text::law_joining(lines, "\n"@, indent(failure));
    assert(none.map_values(indent) =~= none);
    assert(seq![failure].map_values(indent) =~= seq![indent(failure)]);
    assert(failures.push(failure).map_values(indent) =~= lines.push(indent(failure)));
    assert(head + Seq::<char>::empty() =~= head);
    assert(head + indent(failure) =~= head + "  "@ + failure);
    assert(head + (text::joined(lines, "\n"@) + "\n"@ + indent(failure)) =~= head + text::joined(
        lines,
        "\n"@,
    ) + "\n"@ + "  "@ + failure);
}

/// Each event can come exactly while the download waits for it.
pub proof fn law_expected_events(transfer: TransferModel, event: Ed2kEvent)
    ensures
        transfer.phase == Ed2kPhase::Client ==> (transfer.accepts(event) <==> event is ClientCreated
            || event is ClientFailed),
        transfer.phase == Ed2kPhase::Answer ==> (transfer.accepts(event) <==> event is SendFailed
            || event is Answered),
        transfer.phase == Ed2kPhase::File ==> (transfer.accepts(event) <==> event is FileCreated
            || event is FileFailed),
        transfer.phase == Ed2kPhase::Body ==> (transfer.accepts(event) <==> event is ReadFailed
            || event is WriteFailed || event is BodyEnded || (event is Written
            && transfer.downloaded + event->Written_0 <= i64::MAX)),
        transfer.phase == Ed2kPhase::Ended ==> !transfer.accepts(event),
{
}

/// An event changes nothing of the task. The bytes written are counted as they come, and the list of
/// failures grows only with the failure of a candidate.
pub proof fn law_what_events_change(transfer: TransferModel, event: Ed2kEvent)
    ensures
        transfer.after(event).0.link == transfer.link,
        transfer.after(event).0.candidates == transfer.candidates,
        transfer.after(event).0.monitor == transfer.monitor,
        transfer.after(event).0.downloaded == transfer.downloaded + (match event {
            Ed2kEvent::Written(len) => len as int,
            _ => 0,
        }),
        event is SendFailed || event is Answered || (transfer.after(event).0.failures
            == transfer.failures && transfer.after(event).0.current == transfer.current),
        transfer.after(event).1.total is Some ==> event is Answered && transfer.monitor,
        transfer.after(event).1.progress is Some <==> event is Written && transfer.monitor,
{
}

/// With the client, the current candidate is requested. Without one the download fails.
pub proof fn law_client(transfer: TransferModel, error: String)
    ensures
        transfer.after(Ed2kEvent::ClientCreated).0.phase == Ed2kPhase::Answer,
        transfer.after(Ed2kEvent::ClientCreated).1.action == ActionModel::Fetch(
            transfer.candidates[transfer.current as int],
        ),
        transfer.after(Ed2kEvent::ClientFailed(error)).0.phase == Ed2kPhase::Ended,
        transfer.after(Ed2kEvent::ClientFailed(error)).1.action == ActionModel::Fail(
            "Failed to create HTTP client: "@ + error@,
        ),
{
}

/// A candidate that cannot be reached, or answers with anything but a status of the two hundreds, is
/// noted with its address and what was wrong. The next candidate is requested, and if there is none
/// the download fails with all notes.
pub proof fn law_failed_candidate(transfer: TransferModel, event: Ed2kEvent)
    requires
        transfer.current < transfer.candidates.len(),
        event is SendFailed || (event is Answered && event->status / 100 != 2),
        transfer.accepts(event),
    ensures
        ({
            let candidate = transfer.candidates[transfer.current as int];
            let (next, step) = transfer.after(event);
            let note = match event {
                Ed2kEvent::SendFailed(error) => candidate + " => "@ + error@,
                Ed2kEvent::Answered { status, .. } => candidate + " => HTTP "@ + number::decimal(
                    status as nat,
                ) + " "@ + (match http::canonical_reason(status) {
                    Some(reason) => reason,
                    None => "Unknown"@,
                }),
                _ => Seq::empty(),
            };
            &&& next.current == transfer.current + 1
            &&& next.failures == transfer.failures.push(note)
            &&& step.total is None
            &&& transfer.current + 1 < transfer.candidates.len() ==> next.phase
                == Ed2kPhase::Answer && step.action == ActionModel::Fetch(
                transfer.candidates[(transfer.current + 1) as int],
            )
            &&& transfer.current + 1 == transfer.candidates.len() ==> next.phase
                == Ed2kPhase::Ended && step.action == ActionModel::Fail(
                all_failed(transfer.link.hash, transfer.failures.push(note)),
            )
        }),
{
    if let Ed2kEvent::SendFailed(error) = event {
        http::law_failure_notes(
            transfer.candidates[transfer.current as int],
            error@,
            0,
            Seq::empty(),
        );
    }
}

/// A candidate that answers with a status of the two hundreds is kept, and the file is created for
/// as many bytes as it announces, or as the link says if it announces nothing. A monitor is told.
pub proof fn law_kept_candidate(transfer: TransferModel, status: u16, content_length: Option<u64>)
    requires
        status / 100 == 2,
    ensures
        ({
            let (next, step) = transfer.after(Ed2kEvent::Answered { status, content_length });
            let bytes = match content_length {
                Some(length) => length,
                None => transfer.link.size,
            };
            &&& next.phase == Ed2kPhase::File
            &&& next.current == transfer.current
            &&& next.failures == transfer.failures
            &&& step.action == ActionModel::CreateFile(number::signed(bytes))
            &&& transfer.monitor ==> step.total == Some(number::signed(bytes))
        }),
{
}

/// With the file, the body is received part by part. Without one the download fails for that reason.
pub proof fn law_file(transfer: TransferModel, error: String)
    ensures
        transfer.after(Ed2kEvent::FileCreated).0.phase == Ed2kPhase::Body,
        transfer.after(Ed2kEvent::FileCreated).1.action == ActionModel::Receive,
        transfer.after(Ed2kEvent::FileFailed(error)).0.phase == Ed2kPhase::Ended,
        transfer.after(Ed2kEvent::FileFailed(error)).1.action == ActionModel::Fail(error@),
{
}

/// After a part of the body the next one is received, and a monitor is told how many bytes came in.
pub proof fn law_written(transfer: TransferModel, len: usize)
    requires
        transfer.downloaded >= 0,
        transfer.accepts(Ed2kEvent::Written(len)),
    ensures
        transfer.after(Ed2kEvent::Written(len)).0.phase == Ed2kPhase::Body,
        transfer.after(Ed2kEvent::Written(len)).1.action == ActionModel::Receive,
        transfer.monitor ==> transfer.after(Ed2kEvent::Written(len)).1.progress is Some
            && transfer.after(Ed2kEvent::Written(len)).1.progress->0 == len,
{
}

/// A body that cannot be received or written fails the download, however much of it has come in: the
/// message names the address and the reason. Only the end of the body completes the download.
pub proof fn law_body_failures(transfer: TransferModel, error: String)
    ensures
        transfer.after(Ed2kEvent::ReadFailed(error)).0.phase == Ed2kPhase::Ended,
        transfer.after(Ed2kEvent::ReadFailed(error)).1.action == ActionModel::Fail(
            "Stream read error from "@ + transfer.candidates[transfer.current as int] + ": "@
                + error@,
        ),
        transfer.after(Ed2kEvent::WriteFailed(error)).0.phase == Ed2kPhase::Ended,
        transfer.after(Ed2kEvent::WriteFailed(error)).1.action == ActionModel::Fail(
            "Write failed for "@ + transfer.candidates[transfer.current as int] + ": "@ + error@,
        ),
        transfer.after(Ed2kEvent::BodyEnded).0.phase == Ed2kPhase::Ended,
        transfer.after(Ed2kEvent::BodyEnded).1.action == ActionModel::Finish,
{
}

/// In every run, a step completes the download exactly if it answers the end of the body, and then it
/// is the last one. Every failure to receive or to write ends the run with a failure too.
pub proof fn law_only_the_end_of_the_body_completes(
    start: TransferModel,
    events: Seq<Ed2kEvent>,
    i: int,
)
    requires
        start.possible(events),
        0 <= i < events.len(),
    ensures
        start.steps(events).len() == events.len(),
        start.steps(events)[i].action is Finish <==> events[i] is BodyEnded,
        events[i] is ReadFailed || events[i] is WriteFailed || events[i] is FileFailed
            || events[i] is ClientFailed ==> start.steps(events)[i].action is Fail,
        start.steps(events)[i].action is Finish || start.steps(events)[i].action is Fail ==> i
            == events.len() - 1 && start.run(events).phase == Ed2kPhase::Ended,
    decreases events.len(),
{
    let init = events.drop_last();
    lemma_one_step_for_each_event(start, events);
    lemma_one_step_for_each_event(start, init);
    assert(start.steps(events).drop_last() =~= start.steps(init));
    if i < init.len() {
        law_only_the_end_of_the_body_completes(start, init, i);
        assert(start.steps(events)[i] == start.steps(init)[i]);
        assert(init[i] == events[i]);
        law_expected_events(start.run(init), events.last());
    }
}

/// There is a step for each event.
proof fn lemma_one_step_for_each_event(start: TransferModel, events: Seq<Ed2kEvent>)
    ensures
        start.steps(events).len() == events.len(),
    decreases events.len(),
{
    if events.len() > 0 {
        lemma_one_step_for_each_event(start, events.drop_last());
    }
}

/// A download begins with nothing tried and nothing counted. Its candidates are those of its link at
/// the configured gateways, or at the default one without settings. The monitor is told the size of
/// the link. If there is nothing to try, the download fails at once.
pub proof fn law_download_begins(downloader: ED2KDownloader, link: LinkModel)
    ensures
        ({
            let start = downloader.fresh(link);
            let step = downloader.first_step(link);
            &&& start.link == link
            &&& downloader.base.config matches Some(config) ==> start.candidates
                == gateway::candidates(
                link,
                Seq::new(config.ed2k_gateways@.len(), |i: int| config.ed2k_gateways@[i]@),
            )
            &&& downloader.base.config is None ==> start.candidates == gateway::candidates(
                link,
                Seq::empty(),
            )
            &&& start.current == 0
            &&& start.failures == Seq::<Seq<char>>::empty()
            &&& start.downloaded == 0
            &&& start.monitor == downloader.monitor
            &&& step.total == (if downloader.monitor {
                Some(number::signed(link.size))
            } else {
                None
            })
            &&& step.progress is None
            &&& start.candidates.len() == 0 ==> start.phase == Ed2kPhase::Ended && step.action
                == ActionModel::Fail("No ED2K gateways or direct HTTP sources configured"@)
            &&& start.candidates.len() > 0 ==> start.phase == Ed2kPhase::Client && step.action
                == ActionModel::CreateClient
            &&& start.well_formed()
        }),
{
    gateway::law_all_candidates(link, Seq::empty());
    if let Some(config) = downloader.base.config {
        assert(downloader.gateways() =~= Seq::new(
            config.ed2k_gateways@.len(),
            |i: int| config.ed2k_gateways@[i]@,
        ));
    }
}

/// Whatever is configured, every source of a link that is not empty is a candidate, and the first
/// request of every run goes to the first source.
pub proof fn law_sources_come_first(
    downloader: ED2KDownloader,
    link: LinkModel,
    events: Seq<Ed2kEvent>,
)
    requires
        downloader.fresh(link).possible(events),
    ensures
        forall|i: int|
            0 <= i < link.sources.len() && (#[trigger] link.sources[i]).len() > 0
                ==> downloader.fresh(link).candidates.contains(link.sources[i]),
        link.sources.len() > 0 && link.sources[0].len() > 0 ==> {
            &&& downloader.first_step(link).action == ActionModel::CreateClient
            &&& fetched(downloader.fresh(link).steps(events)).len() > 0 ==> fetched(
                downloader.fresh(link).steps(events),
            )[0] == link.sources[0]
            &&& events.len() > 0 && events[0] is ClientCreated ==> downloader.fresh(link).steps(
                events,
            )[0].action == ActionModel::Fetch(link.sources[0])
        },
{
    let start = downloader.fresh(link);
    let requests = fetched(start.steps(events));
    gateway::law_sources_are_tried(link, downloader.gateways());
    law_download_begins(downloader, link);
    if link.sources.len() > 0 && link.sources[0].len() > 0 {
        law_candidates_in_order(start, events);
        if requests.len() > 0 {
            assert(start.candidates.subrange(0, requests.len() as int)[0] == start.candidates[0]);
        }
        if events.len() > 0 {
            lemma_first_step(start, events);
        }
    }
}

/// The first step of a run answers the first event.
proof fn lemma_first_step(start: TransferModel, events: Seq<Ed2kEvent>)
    requires
        events.len() > 0,
    ensures
        start.steps(events).len() == events.len(),
        start.steps(events)[0] == start.after(events[0]).1,
    decreases events.len(),
{
    let init = events.drop_last();
    lemma_one_step_for_each_event(start, events);
    lemma_one_step_for_each_event(start, init);
    if init.len() > 0 {
        lemma_first_step(start, init);
        assert(start.steps(events)[0] == start.steps(init)[0]);
    } else {
        assert(start.run(init) == start);
    }
}

/// The first request for a link that is read goes to its first source, if it names one, whatever is
/// configured.
pub proof fn law_first_request_of_a_read_link(
    downloader: ED2KDownloader,
    url: Seq<char>,
    events: Seq<Ed2kEvent>,
)
    requires
        link::link_of(url) is Ok,
        (link::link_of(url)->Ok_0).sources.len() > 0,
        downloader.fresh(link::link_of(url)->Ok_0).possible(events),
    ensures
        ({
            let link = link::link_of(url)->Ok_0;
            let requests = fetched(downloader.fresh(link).steps(events));
            &&& requests.len() > 0 ==> requests[0] == link.sources[0]
            &&& forall|i: int| 0 <= i < link.sources.len() ==> downloader.fresh(
                link,
            ).candidates.contains(#[trigger] link.sources[i])
        }),
{
    let link = link::link_of(url)->Ok_0;
    link::law_read_links_are_well_formed(url);
    reveal_strlit("http://");
    reveal_strlit("https://");
    assert forall|i: int| 0 <= i < link.sources.len() implies (
    #[trigger] link.sources[i]).len() > 0 by {
        assert(link::is_http(link.sources[i]));
    }
    law_sources_come_first(downloader, link, events);
}

} // verus!
