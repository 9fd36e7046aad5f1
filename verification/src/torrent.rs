//! The downloader for torrents.
//!
//! [`TorrentTransfer`] decides what to do next; whoever drives it talks to the BitTorrent client and
//! reports back what happened.

use vstd::prelude::*;
use vstd::string::*;

use crate::base::BaseDownloader;
use crate::base::DownloadConfig;
use crate::base::DownloadTask;
use crate::number;
use crate::place;
use crate::text;

verus! {

/// The first port to listen on for peers.
pub const FIRST_PORT: u16 = 6881;

/// The port after the last one to listen on.
pub const END_PORT: u16 = 6891;

/// The time between two looks at the progress.
pub const POLL_SECONDS: u64 = 1;

/// Downloads torrents: magnet links, addresses of torrent files and local torrent files.
#[derive(Debug)]
pub struct TorrentDownloader {
    pub base: BaseDownloader,
    /// Whether a performance monitor is told about the progress.
    pub monitor: bool,
}

/// How to set up a BitTorrent session.
#[derive(Clone, Copy, Debug, PartialEq, Eq, Structural)]
pub struct SessionPlan {
    pub disable_dht: bool,
    pub disable_dht_persistence: bool,
    /// The first port to listen on.
    pub first_port: u16,
    /// The port after the last one to listen on.
    pub end_port: u16,
}

/// What a download waits for.
#[derive(Clone, Copy, Debug, PartialEq, Eq, Structural)]
pub enum TorrentPhase {
    /// The session with DHT.
    Session,
    /// The session that relies on trackers only.
    FallbackSession,
    /// The torrent that the task names.
    Input,
    /// The answer of the session to that torrent.
    Adding,
    /// The next look at the progress.
    Polling,
    /// Nothing: the download has ended.
    Ended,
}

/// What happened.
#[derive(Debug)]
pub enum TorrentEvent {
    SessionCreated,
    SessionFailed(String),
    InputAccepted,
    InputRejected(String),
    Added,
    AlreadyManaged,
    ListOnly,
    AddFailed(String),
    /// The time between two looks has passed. So many bytes of so many are there, and the
    /// downloader is running or not.
    Polled { downloaded: u64, total: u64, running: bool },
}

/// What to do next.
#[derive(Debug, PartialEq, Eq)]
pub enum TorrentAction {
    /// Create a session that saves to the output directory.
    CreateSession(SessionPlan),
    /// Find out which torrent this names.
    ReadInput(String),
    /// Add the torrent to the session, with these further trackers.
    AddTorrent { overwrite: bool, trackers: Option<Vec<String>> },
    /// Wait that many seconds and look at the progress.
    Wait(u64),
    /// The download is complete.
    Finish,
    /// The download has failed.
    Fail(String),
}

/// What to tell the user and the performance monitor, and what to do then.
#[derive(Debug, PartialEq, Eq)]
pub struct TorrentStep {
    /// Whether to report the status to the user.
    pub report: bool,
    /// The number of bytes to expect.
    pub total: Option<i64>,
    /// The number of bytes that have come in.
    pub progress: Option<i64>,
    pub action: TorrentAction,
}

/// A download in progress.
#[derive(Debug)]
pub struct TorrentTransfer {
    pub url: String,
    pub output_dir: String,
    pub trackers: Vec<String>,
    /// Why there is no session with DHT.
    pub session_error: String,
    /// The progress that the monitor was told last.
    pub last_reported: u64,
    /// The number of looks at the progress.
    pub tick: u64,
    pub monitor: bool,
    pub phase: TorrentPhase,
}

/// An action, as texts.
pub enum TorrentActionModel {
    CreateSession(SessionPlan),
    ReadInput(Seq<char>),
    AddTorrent { overwrite: bool, trackers: Option<Seq<Seq<char>>> },
    Wait(u64),
    Finish,
    Fail(Seq<char>),
}

impl View for TorrentAction {
    type V = TorrentActionModel;

    open spec fn view(&self) -> TorrentActionModel {
        match *self {
            TorrentAction::CreateSession(plan) => TorrentActionModel::CreateSession(plan),
            TorrentAction::ReadInput(url) => TorrentActionModel::ReadInput(url@),
            TorrentAction::AddTorrent { overwrite, trackers } => TorrentActionModel::AddTorrent {
                overwrite,
                trackers: match trackers {
                    Some(list) => Some(text::texts(list@)),
                    None => None,
                },
            },
            TorrentAction::Wait(seconds) => TorrentActionModel::Wait(seconds),
            TorrentAction::Finish => TorrentActionModel::Finish,
            TorrentAction::Fail(message) => TorrentActionModel::Fail(message@),
        }
    }
}

/// A step, as texts and numbers.
pub struct TorrentStepModel {
    pub report: bool,
    pub total: Option<i64>,
    pub progress: Option<i64>,
    pub action: TorrentActionModel,
}

impl View for TorrentStep {
    type V = TorrentStepModel;

    open spec fn view(&self) -> TorrentStepModel {
        TorrentStepModel {
            report: self.report,
            total: self.total,
            progress: self.progress,
            action: self.action@,
        }
    }
}

/// A download in progress, as texts and numbers.
#[verifier::ext_equal]
pub struct TorrentModel {
    pub url: Seq<char>,
    pub output_dir: Seq<char>,
    pub trackers: Seq<Seq<char>>,
    pub session_error: Seq<char>,
    pub last_reported: u64,
    pub tick: nat,
    pub monitor: bool,
    pub phase: TorrentPhase,
}

impl View for TorrentTransfer {
    type V = TorrentModel;

    open spec fn view(&self) -> TorrentModel {
        TorrentModel {
            url: self.url@,
            output_dir: self.output_dir@,
            trackers: text::texts(self.trackers@),
            session_error: self.session_error@,
            last_reported: self.last_reported,
            tick: self.tick as nat,
            monitor: self.monitor,
            phase: self.phase,
        }
    }
}

/// The session to try first, with a DHT that is not kept on disk, or the one without DHT.
pub open spec fn session_plan(with_dht: bool) -> SessionPlan {
    SessionPlan {
        disable_dht: !with_dht,
        disable_dht_persistence: true,
        first_port: FIRST_PORT,
        end_port: END_PORT,
    }
}

/// The step that does `action` and tells nobody anything.
pub open spec fn silent(action: TorrentActionModel) -> TorrentStepModel {
    TorrentStepModel { report: false, total: None, progress: None, action }
}

/// The bytes that have come in since the last report.
pub open spec fn new_bytes(downloaded: u64, last_reported: u64) -> u64 {
    if downloaded > last_reported {
        (downloaded - last_reported) as u64
    } else {
        0
    }
}

/// All bytes are there.
pub open spec fn is_complete(downloaded: u64, total: u64) -> bool {
    downloaded >= total && total > 0
}

/// The status is reported at this look at the progress: the first and every tenth.
pub open spec fn is_report_tick(tick: nat) -> bool {
    tick == 1 || tick % 10 == 0
}

impl TorrentModel {
    /// The event can come in this state, and the looks at the progress can be counted.
    pub open spec fn accepts(self, event: TorrentEvent) -> bool {
        match event {
            TorrentEvent::SessionCreated | TorrentEvent::SessionFailed(_) => self.phase
                == TorrentPhase::Session || self.phase == TorrentPhase::FallbackSession,
            TorrentEvent::InputAccepted | TorrentEvent::InputRejected(_) => self.phase
                == TorrentPhase::Input,
            TorrentEvent::Added
            | TorrentEvent::AlreadyManaged
            | TorrentEvent::ListOnly
            | TorrentEvent::AddFailed(_) => self.phase == TorrentPhase::Adding,
            TorrentEvent::Polled { .. } => self.phase == TorrentPhase::Polling && self.tick
                < u64::MAX,
        }
    }

    /// The same download, waiting for something else.
    pub open spec fn in_phase(self, phase: TorrentPhase) -> TorrentModel {
        TorrentModel { phase, ..self }
    }

    /// The download fails.
    pub open spec fn fail(self, message: Seq<char>) -> (TorrentModel, TorrentStepModel) {
        (self.in_phase(TorrentPhase::Ended), silent(TorrentActionModel::Fail(message)))
    }

    /// There is no session. The one without DHT is tried, if it has not been.
    pub open spec fn session_failed(self, error: Seq<char>) -> (TorrentModel, TorrentStepModel) {
        if self.phase == TorrentPhase::Session {
            (
                TorrentModel {
                    session_error: error,
                    phase: TorrentPhase::FallbackSession,
                    ..self
                },
                silent(TorrentActionModel::CreateSession(session_plan(false))),
            )
        } else {
            self.fail(
                "Failed to create BT Session: primary init error: "@ + self.session_error
                    + "; fallback error: "@ + error,
            )
        }
    }

    /// The trackers to add a torrent with.
    pub open spec fn extra_trackers(self) -> Option<Seq<Seq<char>>> {
        if self.trackers.len() == 0 {
            None
        } else {
            Some(self.trackers)
        }
    }

    /// The torrent is there: its progress is watched.
    pub open spec fn watch(self) -> (TorrentModel, TorrentStepModel) {
        (self.in_phase(TorrentPhase::Polling), silent(TorrentActionModel::Wait(POLL_SECONDS)))
    }

    /// The monitor learns of new bytes at this look at the progress.
    pub open spec fn has_news(self, downloaded: u64) -> bool {
        self.monitor && new_bytes(downloaded, self.last_reported) > 0
    }

    /// A look at the progress.
    pub open spec fn polled(self, downloaded: u64, total: u64, running: bool) -> (
        TorrentModel,
        TorrentStepModel,
    ) {
        let ends = is_complete(downloaded, total) || !running;
        (
            TorrentModel {
                tick: self.tick + 1,
                last_reported: if self.has_news(downloaded) {
                    downloaded
                } else {
                    self.last_reported
                },
                phase: if ends {
                    TorrentPhase::Ended
                } else {
                    TorrentPhase::Polling
                },
                ..self
            },
            TorrentStepModel {
                report: is_report_tick(self.tick + 1),
                total: if self.has_news(downloaded) && self.last_reported == 0 {
                    Some(number::signed(total))
                } else {
                    None
                },
                progress: if self.has_news(downloaded) {
                    Some(number::signed(new_bytes(downloaded, self.last_reported)))
                } else {
                    None
                },
                action: if is_complete(downloaded, total) {
                    TorrentActionModel::Finish
                } else if !running {
                    TorrentActionModel::Fail("BT download cancelled by user"@)
                } else {
                    TorrentActionModel::Wait(POLL_SECONDS)
                },
            },
        )
    }

    /// The state after `event`, and what to do then.
    pub open spec fn after(self, event: TorrentEvent) -> (TorrentModel, TorrentStepModel) {
        match event {
            TorrentEvent::SessionCreated => (
                self.in_phase(TorrentPhase::Input),
                silent(TorrentActionModel::ReadInput(self.url)),
            ),
            TorrentEvent::SessionFailed(error) => self.session_failed(error@),
            TorrentEvent::InputAccepted => (
                self.in_phase(TorrentPhase::Adding),
                silent(
                    TorrentActionModel::AddTorrent {
                        overwrite: true,
                        trackers: self.extra_trackers(),
                    },
                ),
            ),
            TorrentEvent::InputRejected(error) => self.fail(
                "Unsupported BT input "@ + self.url + ": "@ + error@,
            ),
            TorrentEvent::Added | TorrentEvent::AlreadyManaged => self.watch(),
            TorrentEvent::ListOnly => self.fail(
                "Torrent added in list-only mode, download not started"@,
            ),
            TorrentEvent::AddFailed(error) => self.fail("Failed to add torrent: "@ + error@),
            TorrentEvent::Polled { downloaded, total, running } => self.polled(
                downloaded,
                total,
                running,
            ),
        }
    }
}

/// The session to try first, or the one to fall back on.
pub fn plan_session(with_dht: bool) -> (res: SessionPlan)
    ensures
        res == session_plan(with_dht),
{
    SessionPlan {
        disable_dht: !with_dht,
        disable_dht_persistence: true,
        first_port: FIRST_PORT,
        end_port: END_PORT,
    }
}

/// The step that does `action` and tells nobody anything.
fn silently(action: TorrentAction) -> (res: TorrentStep)
    ensures
        res@ == silent(action@),
{
    TorrentStep { report: false, total: None, progress: None, action }
}

impl TorrentTransfer {
    /// Ends the download with a failure.
    fn end_with(&mut self, message: String) -> (res: TorrentStep)
        ensures
            (final(self)@, res@) == old(self)@.fail(message@),
    {
        self.phase = TorrentPhase::Ended;
        silently(TorrentAction::Fail(message))
    }

    /// Falls back on the session without DHT, or ends the download if that failed too.
    fn without_session(&mut self, error: String) -> (res: TorrentStep)
        ensures
            (final(self)@, res@) == old(self)@.session_failed(error@),
    {
        if self.phase == TorrentPhase::Session {
            self.session_error = error;
            self.phase = TorrentPhase::FallbackSession;
            silently(TorrentAction::CreateSession(plan_session(false)))
        } else {
            let mut message = "Failed to create BT Session: primary init error: ".to_owned();
            message.append(self.session_error.as_str());
            message.append("; fallback error: ");
            message.append(error.as_str());
            self.end_with(message)
        }
    }

    /// Takes a look at the progress.
    fn poll(&mut self, downloaded: u64, total: u64, running: bool) -> (res: TorrentStep)
        requires
            old(self)@.tick < u64::MAX,
            old(self)@.phase == TorrentPhase::Polling,
        ensures
            (final(self)@, res@) == old(self)@.polled(downloaded, total, running),
    {
        self.tick += 1;
        let report = self.tick == 1 || self.tick % 10 == 0;
        let fresh = downloaded.saturating_sub(self.last_reported);
        let mut expected: Option<i64> = None;
        let mut progress: Option<i64> = None;
        if self.monitor && fresh > 0 {
            if self.last_reported == 0 {
                expected = Some(number::to_signed(total));
            }
            progress = Some(number::to_signed(fresh));
            self.last_reported = downloaded;
        }
        let action = if downloaded >= total && total > 0 {
            self.phase = TorrentPhase::Ended;
            TorrentAction::Finish
        } else if !running {
            self.phase = TorrentPhase::Ended;
            TorrentAction::Fail("BT download cancelled by user".to_owned())
        } else {
            TorrentAction::Wait(POLL_SECONDS)
        };
        TorrentStep { report, total: expected, progress, action }
    }

    /// Takes note of what happened and says what to do next.
    pub fn step(&mut self, event: TorrentEvent) -> (res: TorrentStep)
        requires
            old(self)@.accepts(event),
        ensures
            (final(self)@, res@) == old(self)@.after(event),
    {
        match event {
            TorrentEvent::SessionCreated => {
                self.phase = TorrentPhase::Input;
                silently(TorrentAction::ReadInput(self.url.clone()))
            },
            TorrentEvent::SessionFailed(error) => self.without_session(error),
            TorrentEvent::InputAccepted => {
                self.phase = TorrentPhase::Adding;
                let trackers = if self.trackers.len() == 0 {
                    None
                } else {
                    Some(text::copies(self.trackers.as_slice()))
                };
                silently(TorrentAction::AddTorrent { overwrite: true, trackers })
            },
            TorrentEvent::InputRejected(error) => {
                let mut message = "Unsupported BT input ".to_owned();
                message.append(self.url.as_str());
                message.append(": ");
                message.append(error.as_str());
                self.end_with(message)
            },
            TorrentEvent::Added | TorrentEvent::AlreadyManaged => {
                self.phase = TorrentPhase::Polling;
                silently(TorrentAction::Wait(POLL_SECONDS))
            },
            TorrentEvent::ListOnly => self.end_with(
                "Torrent added in list-only mode, download not started".to_owned(),
            ),
            TorrentEvent::AddFailed(error) => {
                let mut message = "Failed to add torrent: ".to_owned();
                message.append(error.as_str());
                self.end_with(message)
            },
            TorrentEvent::Polled { downloaded, total, running } => self.poll(
                downloaded,
                total,
                running,
            ),
        }
    }
}

impl TorrentDownloader {
    /// The trackers that are configured for this downloader.
    pub open spec fn trackers(self) -> Seq<Seq<char>> {
        match self.base.config {
            Some(config) => text::texts(config.torrent_trackers@),
            None => Seq::empty(),
        }
    }

    /// The download of `url` to `output_dir` at its start.
    pub open spec fn fresh(self, url: Seq<char>, output_dir: Seq<char>) -> TorrentModel {
        TorrentModel {
            url,
            output_dir,
            trackers: self.trackers(),
            session_error: Seq::empty(),
            last_reported: 0,
            tick: 0,
            monitor: self.monitor,
            phase: TorrentPhase::Session,
        }
    }

    /// A running downloader with these settings.
    pub fn new(config: DownloadConfig, monitor: bool) -> (res: Self)
        ensures
            res.base.config == Some(config),
            res.base.running,
            res.monitor == monitor,
    {
        TorrentDownloader { base: BaseDownloader { config: Some(config), running: true }, monitor }
    }

    /// Begins to download what `task` says.
    pub fn begin_download(&self, task: &DownloadTask) -> (res: (TorrentTransfer, TorrentStep))
        ensures
            place::is_output_directory(task.save_path@, res.0@.output_dir),
            res.0@ == self.fresh(task.url@, res.0@.output_dir),
            res.1@ == silent(TorrentActionModel::CreateSession(session_plan(true))),
    {
        let trackers = match &self.base.config {
            Some(config) => text::copies(config.torrent_trackers.as_slice()),
            None => Vec::new(),
        };
        let transfer = TorrentTransfer {
            url: task.url.clone(),
            output_dir: place::output_directory(task.save_path.as_str()),
            trackers,
            session_error: String::new(),
            last_reported: 0,
            tick: 0,
            monitor: self.monitor,
            phase: TorrentPhase::Session,
        };
        proof {
            assert(text::texts(transfer.trackers@) =~= self.trackers());
        }
        (transfer, silently(TorrentAction::CreateSession(plan_session(true))))
    }

    /// The name of the protocol.
    pub fn get_type(&self) -> (res: String)
        ensures
            res@ == "BitTorrent"@,
    {
        "BitTorrent".to_owned()
    }

    /// Stops the downloader.
    pub fn cancel(&mut self)
        ensures
            !final(self).base.running,
            final(self).base.config == old(self).base.config,
            final(self).monitor == old(self).monitor,
    {
        self.base.running = false;
    }
}

impl Default for TorrentDownloader {
    /// A downloader without settings or monitor that is not running.
    fn default() -> (res: Self)
        ensures
            res.base.config is None,
            !res.base.running,
            !res.monitor,
    {
        TorrentDownloader { base: BaseDownloader::new(), monitor: false }
    }
}

/// The number of bytes that the steps tell the monitor about.
pub open spec fn told_bytes(steps: Seq<TorrentStepModel>) -> int
    decreases steps.len(),
{
    if steps.len() == 0 {
        0
    } else {
        told_bytes(steps.drop_last()) + (match steps.last().progress {
            Some(n) => n as int,
            None => 0,
        })
    }
}

/// How often the steps tell the monitor how many bytes to expect.
pub open spec fn told_totals(steps: Seq<TorrentStepModel>) -> nat
    decreases steps.len(),
{
    if steps.len() == 0 {
        0
    } else {
        told_totals(steps.drop_last()) + (if steps.last().total is Some {
            1nat
        } else {
            0
        })
    }
}

/// The sessions that the steps ask for, in order.
pub open spec fn planned_sessions(steps: Seq<TorrentStepModel>) -> Seq<SessionPlan>
    decreases steps.len(),
{
    if steps.len() == 0 {
        Seq::empty()
    } else {
        let before = planned_sessions(steps.drop_last());
        match steps.last().action {
            TorrentActionModel::CreateSession(plan) => before.push(plan),
            _ => before,
        }
    }
}

/// The largest of `start` and the progress seen in `events`.
pub open spec fn peak(start: u64, events: Seq<TorrentEvent>) -> u64
    decreases events.len(),
{
    if events.len() == 0 {
        start
    } else {
        let before = peak(start, events.drop_last());
        match events.last() {
            TorrentEvent::Polled { downloaded, .. } => if downloaded > before {
                downloaded
            } else {
                before
            },
            _ => before,
        }
    }
}

/// The number of looks at the progress in `events`.
pub open spec fn looks(events: Seq<TorrentEvent>) -> nat
    decreases events.len(),
{
    if events.len() == 0 {
        0
    } else {
        looks(events.drop_last()) + (if events.last() is Polled {
            1nat
        } else {
            0
        })
    }
}

impl TorrentModel {
    /// The state after all `events`.
    pub open spec fn run(self, events: Seq<TorrentEvent>) -> TorrentModel
        decreases events.len(),
    {
        if events.len() == 0 {
            self
        } else {
            self.run(events.drop_last()).after(events.last()).0
        }
    }

    /// The steps that answer the `events`.
    pub open spec fn steps(self, events: Seq<TorrentEvent>) -> Seq<TorrentStepModel>
        decreases events.len(),
    {
        if events.len() == 0 {
            Seq::empty()
        } else {
            self.steps(events.drop_last()).push(
                self.run(events.drop_last()).after(events.last()).1,
            )
        }
    }

    /// The `events` can come one after the other.
    pub open spec fn possible(self, events: Seq<TorrentEvent>) -> bool
        decreases events.len(),
    {
        events.len() == 0 || {
            &&& self.possible(events.drop_last())
            &&& self.run(events.drop_last()).accepts(events.last())
        }
    }
}

/// What is downloaded, to where, with which trackers and for which monitor never changes, and all
/// looks at the progress are counted.
pub proof fn law_runs_keep_the_task(start: TorrentModel, events: Seq<TorrentEvent>)
    ensures
        start.run(events).url == start.url,
        start.run(events).output_dir == start.output_dir,
        start.run(events).trackers == start.trackers,
        start.run(events).monitor == start.monitor,
        start.run(events).tick == start.tick + looks(events),
    decreases events.len(),
{
    if events.len() > 0 {
        law_runs_keep_the_task(start, events.drop_last());
    }
}

/// Nothing can happen to a download that has ended.
pub proof fn law_ended_is_final(start: TorrentModel, events: Seq<TorrentEvent>)
    requires
        start.phase == TorrentPhase::Ended,
        start.possible(events),
    ensures
        events.len() == 0,
    decreases events.len(),
{
    if events.len() > 0 {
        law_ended_is_final(start, events.drop_last());
    }
}

/// If no session with DHT can be had, one without is tried once, and nothing after that.
pub proof fn law_one_fallback(start: TorrentModel, events: Seq<TorrentEvent>)
    requires
        start.phase == TorrentPhase::Session,
        start.possible(events),
    ensures
        planned_sessions(start.steps(events)) == (if events.len() > 0
            && events[0] is SessionFailed {
            seq![session_plan(false)]
        } else {
            Seq::empty()
        }),
        start.run(events).phase == TorrentPhase::Session ==> events.len() == 0,
    decreases events.len(),
{
    if events.len() > 0 {
        let init = events.drop_last();
        law_one_fallback(start, init);
        assert(start.steps(events).drop_last() =~= start.steps(init));
        if init.len() > 0 {
            assert(init[0] == events[0]);
        } else {
            assert(planned_sessions(start.steps(init)) =~= Seq::<SessionPlan>::empty());
            assert(Seq::<SessionPlan>::empty().push(session_plan(false)) =~= seq![
                session_plan(false),
            ]);
        }
    }
}

/// If neither session can be had, the download fails with both reasons.
pub proof fn law_both_sessions_fail(start: TorrentModel, first: String, second: String)
    requires
        start.phase == TorrentPhase::Session,
    ensures
        ({
            let events = seq![
                TorrentEvent::SessionFailed(first),
                TorrentEvent::SessionFailed(second),
            ];
            &&& start.possible(events)
            &&& start.run(events).phase == TorrentPhase::Ended
            &&& start.steps(events).last().action == TorrentActionModel::Fail(
                "Failed to create BT Session: primary init error: "@ + first@
                    + "; fallback error: "@ + second@,
            )
        }),
{
    let events = seq![TorrentEvent::SessionFailed(first), TorrentEvent::SessionFailed(second)];
    let one = events.drop_last();
    assert(one.drop_last() =~= Seq::<TorrentEvent>::empty());
    assert(start.run(one.drop_last()) == start);
    assert(start.possible(one.drop_last()));
    assert(start.possible(one));
    assert(start.run(one) == start.after(one.last()).0);
}

/// With a monitor, what it was told last is the largest progress seen. Without one, nothing is told.
pub proof fn law_reports_follow_the_peak(start: TorrentModel, events: Seq<TorrentEvent>)
    ensures
        start.monitor ==> start.run(events).last_reported == peak(start.last_reported, events),
        !start.monitor ==> start.run(events).last_reported == start.last_reported,
        start.steps(events).len() == events.len(),
        !start.monitor ==> forall|i: int|
            0 <= i < events.len() ==> (#[trigger] start.steps(events)[i]).total is None
                && start.steps(events)[i].progress is None,
    decreases events.len(),
{
    if events.len() > 0 {
        let init = events.drop_last();
        law_reports_follow_the_peak(start, init);
        law_runs_keep_the_task(start, init);
        if !start.monitor {
            assert forall|i: int| 0 <= i < events.len() implies (
            #[trigger] start.steps(events)[i]).total is None && start.steps(
                events,
            )[i].progress is None by {
                if i < init.len() {
                    assert(start.steps(events)[i] == start.steps(init)[i]);
                }
            }
        }
    }
}

/// The bytes that the monitor is told about add up to the progress, as long as the progress is a
/// number that a signed count can hold.
pub proof fn law_reports_add_up(start: TorrentModel, events: Seq<TorrentEvent>)
    requires
        start.monitor,
        forall|i: int| #![trigger events[i]]
            0 <= i < events.len() ==> (events[i] matches TorrentEvent::Polled {
                downloaded,
                ..
            } ==> downloaded <= i64::MAX),
    ensures
        told_bytes(start.steps(events)) == start.run(events).last_reported - start.last_reported,
    decreases events.len(),
{
    if events.len() > 0 {
        let init = events.drop_last();
        let last = events[events.len() - 1];
        assert forall|i: int| #![trigger init[i]] 0 <= i < init.len() implies (
        init[i] matches TorrentEvent::Polled { downloaded, .. } ==> downloaded <= i64::MAX) by {
            assert(init[i] == events[i]);
        }
        law_reports_add_up(start, init);
        law_runs_keep_the_task(start, init);
        assert(start.steps(events).drop_last() =~= start.steps(init));
    }
}

/// The steps before `i` tell the monitor of no bytes.
pub open spec fn no_progress_before(steps: Seq<TorrentStepModel>, i: int) -> bool {
    forall|j: int| 0 <= j < i ==> (#[trigger] steps[j]).progress is None
}

/// The monitor is told how many bytes to expect once, with the first bytes: exactly the first step
/// with progress tells the total that was seen then.
pub proof fn law_total_is_told_once(start: TorrentModel, events: Seq<TorrentEvent>)
    requires
        start.monitor,
        start.last_reported == 0,
    ensures
        told_totals(start.steps(events)) == (if start.run(events).last_reported > 0 {
            1nat
        } else {
            0
        }),
        start.steps(events).len() == events.len(),
        start.run(events).last_reported == 0 <==> no_progress_before(
            start.steps(events),
            events.len() as int,
        ),
        forall|i: int|
            0 <= i < events.len() ==> ((#[trigger] start.steps(events)[i]).total is Some <==> {
                &&& start.steps(events)[i].progress is Some
                &&& no_progress_before(start.steps(events), i)
            }),
        forall|i: int|
            0 <= i < events.len() && (#[trigger] start.steps(events)[i]).total is Some ==> (
            events[i] matches TorrentEvent::Polled { total, .. } && start.steps(events)[i].total
                == Some(number::signed(total))),
    decreases events.len(),
{
    if events.len() > 0 {
        let init = events.drop_last();
        let last = events[events.len() - 1];
        let n = init.len() as int;
        let all = start.steps(events);
        let before = start.steps(init);
        law_total_is_told_once(start, init);
        law_runs_keep_the_task(start, init);
        assert(all.drop_last() =~= before);
        assert(forall|j: int| 0 <= j < n ==> #[trigger] all[j] == before[j]);
        assert forall|i: int| 0 <= i <= n implies #[trigger] no_progress_before(all, i)
            == no_progress_before(before, i) by {
            if no_progress_before(all, i) {
                assert forall|j: int| 0 <= j < i implies (#[trigger] before[j]).progress is None by {
                    assert(all[j].progress is None);
                }
            }
        }
        assert(all[n] == start.run(init).after(last).1);
        assert(start.run(events).last_reported == 0 <==> start.run(init).last_reported == 0
            && all[n].progress is None);
        assert(no_progress_before(all, n + 1) <==> no_progress_before(all, n)
            && all[n].progress is None);
        assert forall|i: int| 0 <= i < events.len() implies ((#[trigger] all[i]).total is Some <==> {
            &&& all[i].progress is Some
            &&& no_progress_before(all, i)
        }) by {
            if i < n {
                assert(all[i] == before[i]);
            }
        }
        assert forall|i: int| 0 <= i < events.len() && (#[trigger] all[i]).total is Some implies (
        events[i] matches TorrentEvent::Polled { total, .. } && all[i].total == Some(
            number::signed(total),
        )) by {
            if i < n {
                assert(all[i] == before[i]);
                assert(init[i] == events[i]);
            }
        }
    }
}

/// The status is reported at the first look at the progress and at every tenth.
pub proof fn law_report_schedule(start: TorrentModel, events: Seq<TorrentEvent>, i: int)
    requires
        0 <= i < events.len(),
    ensures
        start.steps(events).len() == events.len(),
        start.steps(events)[i].report == (events[i] is Polled && is_report_tick(
            start.tick + looks(events.take(i + 1)),
        )),
    decreases events.len(),
{
    let init = events.drop_last();
    law_runs_keep_the_task(start, init);
    law_reports_follow_the_peak(start, init);
    if i < init.len() {
        law_report_schedule(start, init, i);
        assert(init.take(i + 1) =~= events.take(i + 1));
    } else {
        assert(events.take(i + 1) =~= events);
    }
}

/// A look at the progress finishes the download exactly if all bytes are there, also if the
/// downloader was stopped meanwhile. Nothing is complete while no size is known. A download that is
/// not complete goes on as long as the downloader runs.
pub proof fn law_completion(start: TorrentModel, downloaded: u64, total: u64, running: bool)
    ensures
        ({
            let step = start.polled(downloaded, total, running).1;
            &&& step.action is Finish <==> downloaded >= total && total > 0
            &&& total == 0 ==> !(step.action is Finish)
            &&& step.action is Wait <==> running && !(step.action is Finish)
            &&& step.action is Fail <==> !running && !(step.action is Finish)
        }),
{
}

/// Actions, steps and downloads are what their fields hold.
pub proof fn law_records(action: TorrentAction, step: TorrentStep, transfer: TorrentTransfer)
    ensures
        action is CreateSession ==> action@ == TorrentActionModel::CreateSession(
            action->CreateSession_0,
        ),
        action is ReadInput ==> action@ == TorrentActionModel::ReadInput(action->ReadInput_0@),
        action is AddTorrent ==> {
            &&& action@ is AddTorrent
            &&& action@->overwrite == action->overwrite
            &&& action->trackers is None <==> action@->trackers is None
            &&& action->trackers is Some ==> {
                let list = action->trackers->0@;
                &&& action@->trackers->0.len() == list.len()
                &&& forall|i: int| 0 <= i < list.len() ==> (#[trigger] action@->trackers->0[i])
                    == list[i]@
            }
        },
        action is Wait ==> action@ == TorrentActionModel::Wait(action->Wait_0),
        action is Finish <==> action@ is Finish,
        action is Fail ==> action@ == TorrentActionModel::Fail(action->Fail_0@),
        step@.report == step.report,
        step@.total == step.total,
        step@.progress == step.progress,
        step@.action == step.action@,
        transfer@.url == transfer.url@,
        transfer@.output_dir == transfer.output_dir@,
        transfer@.trackers.len() == transfer.trackers@.len(),
        forall|i: int| 0 <= i < transfer.trackers@.len() ==> (#[trigger] transfer@.trackers[i])
            == transfer.trackers@[i]@,
        transfer@.session_error == transfer.session_error@,
        transfer@.last_reported == transfer.last_reported,
        transfer@.tick == transfer.tick,
        transfer@.monitor == transfer.monitor,
        transfer@.phase == transfer.phase,
{
}

/// Each event can come exactly while the download waits for it.
pub proof fn law_expected_events(transfer: TorrentModel, event: TorrentEvent)
    ensures
        transfer.phase == TorrentPhase::Session || transfer.phase == TorrentPhase::FallbackSession
            ==> (transfer.accepts(event) <==> event is SessionCreated || event is SessionFailed),
        transfer.phase == TorrentPhase::Input ==> (transfer.accepts(event) <==> event is InputAccepted
            || event is InputRejected),
        transfer.phase == TorrentPhase::Adding ==> (transfer.accepts(event) <==> event is Added
            || event is AlreadyManaged || event is ListOnly || event is AddFailed),
        transfer.phase == TorrentPhase::Polling ==> (transfer.accepts(event) <==> event is Polled
            && transfer.tick < u64::MAX),
        transfer.phase == TorrentPhase::Ended ==> !transfer.accepts(event),
{
}

/// Both sessions listen on the ports from 6881 to 6890 and keep no DHT on disk. The fallback has no
/// DHT at all.
pub proof fn law_sessions(with_dht: bool)
    ensures
        session_plan(with_dht).disable_dht == !with_dht,
        session_plan(with_dht).disable_dht_persistence,
        session_plan(with_dht).first_port == 6881,
        session_plan(with_dht).end_port == 6891,
{
}

/// Only a look at the progress tells anybody anything, counts, or changes what was told last, and
/// only a failed session is noted.
pub proof fn law_what_events_change(transfer: TorrentModel, event: TorrentEvent)
    ensures
        transfer.after(event).0.url == transfer.url,
        transfer.after(event).0.output_dir == transfer.output_dir,
        transfer.after(event).0.trackers == transfer.trackers,
        transfer.after(event).0.monitor == transfer.monitor,
        !(event is Polled) ==> {
            &&& transfer.after(event).0.tick == transfer.tick
            &&& transfer.after(event).0.last_reported == transfer.last_reported
            &&& !transfer.after(event).1.report
            &&& transfer.after(event).1.total is None
            &&& transfer.after(event).1.progress is None
        },
        !(event is SessionFailed) ==> transfer.after(event).0.session_error
            == transfer.session_error,
{
}

/// With a session, the torrent that the task names is looked for. Without one, a session without DHT
/// is tried, and if that was tried the download fails with both reasons.
pub proof fn law_session_events(transfer: TorrentModel, error: String)
    ensures
        transfer.after(TorrentEvent::SessionCreated).0.phase == TorrentPhase::Input,
        transfer.after(TorrentEvent::SessionCreated).1.action == TorrentActionModel::ReadInput(
            transfer.url,
        ),
        transfer.phase == TorrentPhase::Session ==> {
            let (next, step) = transfer.after(TorrentEvent::SessionFailed(error));
            &&& next.phase == TorrentPhase::FallbackSession
            &&& next.session_error == error@
            &&& step.action is CreateSession
            &&& step.action->CreateSession_0.disable_dht
            &&& step.action->CreateSession_0.disable_dht_persistence
            &&& step.action->CreateSession_0.first_port == 6881
            &&& step.action->CreateSession_0.end_port == 6891
        },
        transfer.phase == TorrentPhase::FallbackSession ==> {
            let (next, step) = transfer.after(TorrentEvent::SessionFailed(error));
            &&& next.phase == TorrentPhase::Ended
            &&& step.action == TorrentActionModel::Fail(
                "Failed to create BT Session: primary init error: "@ + transfer.session_error
                    + "; fallback error: "@ + error@,
            )
        },
{
}

/// A torrent that is found is added, over what is already saved of it and with all the trackers of
/// the download, if it has any. A torrent that is not found fails the download.
pub proof fn law_input_events(transfer: TorrentModel, error: String)
    ensures
        transfer.after(TorrentEvent::InputAccepted).0.phase == TorrentPhase::Adding,
        transfer.after(TorrentEvent::InputAccepted).1.action == (TorrentActionModel::AddTorrent {
            overwrite: true,
            trackers: if transfer.trackers.len() == 0 {
                None
            } else {
                Some(transfer.trackers)
            },
        }),
        transfer.after(TorrentEvent::InputRejected(error)).0.phase == TorrentPhase::Ended,
        transfer.after(TorrentEvent::InputRejected(error)).1.action == TorrentActionModel::Fail(
            "Unsupported BT input "@ + transfer.url + ": "@ + error@,
        ),
{
}

/// A torrent that the session has, from now on or already, is watched every second. One that is only
/// listed, or not taken, fails the download.
pub proof fn law_adding_events(transfer: TorrentModel, error: String)
    ensures
        transfer.after(TorrentEvent::Added).0.phase == TorrentPhase::Polling,
        transfer.after(TorrentEvent::Added).1.action == TorrentActionModel::Wait(1),
        transfer.after(TorrentEvent::AlreadyManaged).0.phase == TorrentPhase::Polling,
        transfer.after(TorrentEvent::AlreadyManaged).1.action == TorrentActionModel::Wait(1),
        transfer.after(TorrentEvent::ListOnly).0.phase == TorrentPhase::Ended,
        transfer.after(TorrentEvent::ListOnly).1.action == TorrentActionModel::Fail(
            "Torrent added in list-only mode, download not started"@,
        ),
        transfer.after(TorrentEvent::AddFailed(error)).0.phase == TorrentPhase::Ended,
        transfer.after(TorrentEvent::AddFailed(error)).1.action == TorrentActionModel::Fail(
            "Failed to add torrent: "@ + error@,
        ),
{
}

/// A look at the progress is counted, and reported if it is the first or a tenth one. A monitor is
/// told of the bytes that are new since it was told last, and of the total with the first of them.
/// The download is complete when all bytes of a known total are there, otherwise it ends if the
/// downloader was stopped, and otherwise it goes on.
pub proof fn law_looks_at_the_progress(
    transfer: TorrentModel,
    downloaded: u64,
    total: u64,
    running: bool,
)
    ensures
        ({
            let (next, step) = transfer.after(TorrentEvent::Polled { downloaded, total, running });
            &&& next.tick == transfer.tick + 1
            &&& step.report <==> next.tick == 1 || next.tick % 10 == 0
            &&& !transfer.monitor || downloaded <= transfer.last_reported ==> {
                &&& next.last_reported == transfer.last_reported
                &&& step.total is None
                &&& step.progress is None
            }
            &&& transfer.monitor && downloaded > transfer.last_reported ==> {
                &&& next.last_reported == downloaded
                &&& step.total == (if transfer.last_reported == 0 {
                    Some(number::signed(total))
                } else {
                    None
                })
                &&& step.progress == Some(
                    number::signed((downloaded - transfer.last_reported) as u64),
                )
            }
            &&& total > 0 && downloaded >= total ==> next.phase == TorrentPhase::Ended
                && step.action == TorrentActionModel::Finish
            &&& (total == 0 || downloaded < total) && !running ==> next.phase
                == TorrentPhase::Ended && step.action == TorrentActionModel::Fail(
                "BT download cancelled by user"@,
            )
            &&& (total == 0 || downloaded < total) && running ==> next.phase
                == TorrentPhase::Polling && step.action == TorrentActionModel::Wait(1)
        }),
{
}

/// A download begins with nothing counted, nothing told and all the configured trackers.
pub proof fn law_download_begins(downloader: TorrentDownloader, url: Seq<char>, dir: Seq<char>)
    ensures
        ({
            let start = downloader.fresh(url, dir);
            &&& start.url == url
            &&& start.output_dir == dir
            &&& downloader.base.config is None ==> start.trackers.len() == 0
            &&& downloader.base.config matches Some(config) ==> {
                &&& start.trackers.len() == config.torrent_trackers@.len()
                &&& forall|k: int|
                    0 <= k < config.torrent_trackers@.len() ==> (#[trigger] start.trackers[k])
                        == config.torrent_trackers@[k]@
            }
            &&& start.session_error == Seq::<char>::empty()
            &&& start.last_reported == 0
            &&& start.tick == 0
            &&& start.monitor == downloader.monitor
            &&& start.phase == TorrentPhase::Session
        }),
        silent(TorrentActionModel::CreateSession(session_plan(true))) == (TorrentStepModel {
            report: false,
            total: None,
            progress: None,
            action: TorrentActionModel::CreateSession(
                SessionPlan {
                    disable_dht: false,
                    disable_dht_persistence: true,
                    first_port: 6881,
                    end_port: 6891,
                },
            ),
        }),
{
}

/// In every run, a torrent is added exactly when it was found, over what is already saved of it, with
/// all the configured trackers one for one and in order, and with none if none is configured.
pub proof fn law_configured_trackers_are_added(
    downloader: TorrentDownloader,
    url: Seq<char>,
    dir: Seq<char>,
    events: Seq<TorrentEvent>,
    i: int,
)
    requires
        0 <= i < events.len(),
    ensures
        ({
            let steps = downloader.fresh(url, dir).steps(events);
            &&& steps.len() == events.len()
            &&& steps[i].action is AddTorrent <==> events[i] is InputAccepted
            &&& steps[i].action is AddTorrent ==> {
                let added = steps[i].action->trackers;
                &&& steps[i].action->overwrite
                &&& downloader.base.config is None ==> added is None
                &&& downloader.base.config matches Some(config) ==> {
                    &&& config.torrent_trackers@.len() == 0 <==> added is None
                    &&& config.torrent_trackers@.len() > 0 ==> {
                        &&& added->0.len() == config.torrent_trackers@.len()
                        &&& forall|k: int|
                            0 <= k < config.torrent_trackers@.len() ==> (#[trigger] added->0[k])
                                == config.torrent_trackers@[k]@
                    }
                }
            }
        }),
    decreases events.len(),
{
    let start = downloader.fresh(url, dir);
    let init = events.drop_last();
    law_runs_keep_the_task(start, init);
    law_reports_follow_the_peak(start, init);
    if i < init.len() {
        law_configured_trackers_are_added(downloader, url, dir, init, i);
        assert(start.steps(events)[i] == start.steps(init)[i]);
        assert(init[i] == events[i]);
    }
}

/// In every run, a step completes the download exactly if it answers a look at a progress with all
/// bytes of a known total.
pub proof fn law_only_all_bytes_complete(start: TorrentModel, events: Seq<TorrentEvent>, i: int)
    requires
        0 <= i < events.len(),
    ensures
        start.steps(events).len() == events.len(),
        start.steps(events)[i].action is Finish <==> (events[i] matches TorrentEvent::Polled {
            downloaded,
            total,
            ..
        } && total > 0 && downloaded >= total),
    decreases events.len(),
{
    let init = events.drop_last();
    law_reports_follow_the_peak(start, init);
    if i < init.len() {
        law_only_all_bytes_complete(start, init, i);
        assert(start.steps(events)[i] == start.steps(init)[i]);
        assert(init[i] == events[i]);
    }
}

} // verus!
