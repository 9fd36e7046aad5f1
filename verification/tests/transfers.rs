use p2p_download::base::BaseDownloader;
use p2p_download::base::DownloadConfig;
use p2p_download::base::DownloadTask;
use p2p_download::ed2k::all_failed_message;
use p2p_download::ed2k::ED2KDownloader;
use p2p_download::ed2k::Ed2kAction;
use p2p_download::ed2k::Ed2kEvent;
use p2p_download::ed2k::Ed2kPhase;
use p2p_download::ed2k::Ed2kStep;
use p2p_download::ed2k::Ed2kTransfer;
use p2p_download::http::send_failure_line;
use p2p_download::http::status_failure_line;
use p2p_download::place::directory_or_current;
use p2p_download::place::output_directory;
use p2p_download::status::metadata_line;
use p2p_download::status::name_or_unknown;
use p2p_download::status::status_line;
use p2p_download::status::torrent_name;
use p2p_download::status::PeerCounts;
use p2p_download::torrent::plan_session;
use p2p_download::torrent::TorrentAction;
use p2p_download::torrent::TorrentDownloader;
use p2p_download::torrent::TorrentEvent;
use p2p_download::torrent::TorrentPhase;
use p2p_download::torrent::TorrentStep;
use p2p_download::torrent::TorrentTransfer;

const HASH: &str = "0123456789ABCDEF0123456789ABCDEF";

fn config(gateways: &[&str], trackers: &[&str]) -> DownloadConfig {
    DownloadConfig {
        ed2k_gateways: gateways.iter().map(|g| g.to_string()).collect(),
        torrent_trackers: trackers.iter().map(|t| t.to_string()).collect(),
    }
}

fn task(url: &str, save_path: &str) -> DownloadTask {
    DownloadTask { url: url.to_string(), save_path: save_path.to_string() }
}

fn link_task() -> DownloadTask {
    task(&format!("ed2k://|file|x.iso|500|{}|/", HASH), "x.iso")
}

fn started(gateways: &[&str], monitor: bool) -> (Ed2kTransfer, Ed2kStep) {
    let downloader = ED2KDownloader::new(config(gateways, &[]), monitor);
    downloader.begin_download(&link_task()).unwrap()
}

fn quiet(action: Ed2kAction) -> Ed2kStep {
    Ed2kStep { total: None, progress: None, action }
}

fn answered(status: u16) -> Ed2kEvent {
    Ed2kEvent::Answered { status, content_length: Some(80) }
}

#[test]
fn a_new_downloader_runs_until_it_is_cancelled() {
    let mut ed2k = ED2KDownloader::new(config(&["g"], &[]), true);
    assert!(ed2k.base.running && ed2k.monitor);
    assert_eq!(ed2k.base.config.as_ref().unwrap().ed2k_gateways, vec!["g"]);
    ed2k.cancel();
    assert!(!ed2k.base.running && ed2k.monitor);
    assert_eq!(ed2k.get_type(), "ED2K");
    let mut torrent = TorrentDownloader::new(config(&[], &["t"]), false);
    assert!(torrent.base.running && !torrent.monitor);
    torrent.cancel();
    assert!(!torrent.base.running);
    assert_eq!(torrent.base.config.as_ref().unwrap().torrent_trackers, vec!["t"]);
    assert_eq!(torrent.get_type(), "BitTorrent");
}

#[test]
fn a_default_downloader_has_no_settings() {
    let ed2k = ED2KDownloader::default();
    assert!(ed2k.base.config.is_none() && !ed2k.base.running && !ed2k.monitor);
    let torrent = TorrentDownloader::default();
    assert!(torrent.base.config.is_none() && !torrent.base.running && !torrent.monitor);
    let base = BaseDownloader::new();
    assert!(base.config.is_none() && !base.running);
}

#[test]
fn a_bad_link_is_refused() {
    let downloader = ED2KDownloader::default();
    let message = downloader.begin_download(&task("magnet:?xt=1", "x")).unwrap_err();
    assert_eq!(message, "Failed to parse ED2K URL: Invalid ed2k:// URL");
}

#[test]
fn the_default_gateway_is_tried_without_settings() {
    let (transfer, step) = ED2KDownloader::default().begin_download(&link_task()).unwrap();
    assert_eq!(transfer.candidates, vec![format!("https://ed2k.lyoko.io/hash/{}", HASH)]);
    assert_eq!(step, quiet(Ed2kAction::CreateClient));
    let (unset, _) = started(&[], false);
    assert_eq!(unset.candidates, transfer.candidates);
}

#[test]
fn nothing_to_try_is_a_failure() {
    let (transfer, step) = started(&[" "], true);
    assert_eq!(transfer.phase, Ed2kPhase::Ended);
    assert_eq!(step.total, Some(500));
    assert_eq!(
        step.action,
        Ed2kAction::Fail("No ED2K gateways or direct HTTP sources configured".to_string())
    );
}

#[test]
fn a_download_succeeds_at_the_second_candidate() {
    let (mut transfer, first) = started(&["http://a/{hash}", "http://b/{name}"], true);
    assert_eq!(
        first,
        Ed2kStep { total: Some(500), progress: None, action: Ed2kAction::CreateClient }
    );
    assert_eq!(
        transfer.step(Ed2kEvent::ClientCreated),
        quiet(Ed2kAction::Fetch(format!("http://a/{}", HASH)))
    );
    assert_eq!(
        transfer.step(answered(404)),
        quiet(Ed2kAction::Fetch("http://b/x.iso".to_string()))
    );
    assert_eq!(transfer.failures, vec![format!("http://a/{} => HTTP 404 Not Found", HASH)]);
    assert_eq!(
        transfer.step(answered(206)),
        Ed2kStep { total: Some(80), progress: None, action: Ed2kAction::CreateFile(80) }
    );
    assert_eq!(transfer.step(Ed2kEvent::FileCreated), quiet(Ed2kAction::Receive));
    assert_eq!(
        transfer.step(Ed2kEvent::Written(30)),
        Ed2kStep { total: None, progress: Some(30), action: Ed2kAction::Receive }
    );
    assert_eq!(transfer.step(Ed2kEvent::Written(50)).progress, Some(50));
    assert_eq!(transfer.downloaded, 80);
    assert_eq!(transfer.step(Ed2kEvent::BodyEnded), quiet(Ed2kAction::Finish));
    assert_eq!(transfer.phase, Ed2kPhase::Ended);
}

#[test]
fn every_failure_is_listed() {
    let (mut transfer, _) = started(&["http://a{size}", "http://b{size}", "http://c{size}"], false);
    transfer.step(Ed2kEvent::ClientCreated);
    transfer.step(Ed2kEvent::SendFailed("timed out".to_string()));
    transfer.step(answered(500));
    let last = transfer.step(answered(599));
    assert_eq!(
        last,
        quiet(Ed2kAction::Fail(format!(
            "All ED2K sources failed for hash {}\n  http://a500 => timed out\n  http://b500 => HTTP 500 Internal Server Error\n  http://c500 => HTTP 599 Unknown",
            HASH
        )))
    );
    assert_eq!((transfer.phase, transfer.current), (Ed2kPhase::Ended, 3));
}

#[test]
fn only_status_codes_of_success_count() {
    for status in [0u16, 99, 100, 199, 300, 304, 404, 999, 1000, 65535] {
        let (mut transfer, _) = started(&["http://a{size}", "http://b{size}"], false);
        transfer.step(Ed2kEvent::ClientCreated);
        let step = transfer.step(answered(status));
        assert_eq!(step.action, Ed2kAction::Fetch("http://b500".to_string()));
    }
    for status in [200u16, 204, 299] {
        let (mut transfer, _) = started(&["http://a{size}"], false);
        transfer.step(Ed2kEvent::ClientCreated);
        assert_eq!(transfer.step(answered(status)).action, Ed2kAction::CreateFile(80));
    }
}

#[test]
fn the_size_in_the_link_stands_in_for_a_missing_length() {
    let (mut transfer, _) = started(&["http://a"], false);
    transfer.step(Ed2kEvent::ClientCreated);
    let step = transfer.step(Ed2kEvent::Answered { status: 200, content_length: None });
    assert_eq!(step, quiet(Ed2kAction::CreateFile(500)));
}

#[test]
fn huge_lengths_wrap() {
    let (mut transfer, _) = started(&["http://a"], true);
    transfer.step(Ed2kEvent::ClientCreated);
    let step = transfer.step(Ed2kEvent::Answered { status: 200, content_length: Some(u64::MAX) });
    assert_eq!((step.total, step.action), (Some(-1), Ed2kAction::CreateFile(-1)));
}

#[test]
fn other_failures_end_the_download() {
    let (mut transfer, _) = started(&["http://a{size}", "http://b"], false);
    let step = transfer.step(Ed2kEvent::ClientFailed("no TLS".to_string()));
    assert_eq!(step, quiet(Ed2kAction::Fail("Failed to create HTTP client: no TLS".to_string())));
    let (mut transfer, _) = started(&["http://a{size}", "http://b"], false);
    transfer.step(Ed2kEvent::ClientCreated);
    transfer.step(answered(200));
    let step = transfer.step(Ed2kEvent::FileFailed("disk full".to_string()));
    assert_eq!(step, quiet(Ed2kAction::Fail("disk full".to_string())));
    for (event, message) in [
        (Ed2kEvent::ReadFailed("reset".to_string()), "Stream read error from http://a500: reset"),
        (Ed2kEvent::WriteFailed("full".to_string()), "Write failed for http://a500: full"),
    ] {
        let (mut transfer, _) = started(&["http://a{size}", "http://b"], false);
        transfer.step(Ed2kEvent::ClientCreated);
        transfer.step(answered(200));
        transfer.step(Ed2kEvent::FileCreated);
        assert_eq!(transfer.step(event), quiet(Ed2kAction::Fail(message.to_string())));
        assert_eq!(transfer.phase, Ed2kPhase::Ended);
    }
}

#[test]
fn without_a_monitor_nothing_is_told() {
    let (mut transfer, first) = started(&["http://a"], false);
    assert_eq!(first.total, None);
    transfer.step(Ed2kEvent::ClientCreated);
    assert_eq!(transfer.step(answered(200)).total, None);
    transfer.step(Ed2kEvent::FileCreated);
    assert_eq!(transfer.step(Ed2kEvent::Written(5)).progress, None);
    assert_eq!(transfer.downloaded, 5);
}

#[test]
fn writes_failure_notes() {
    assert_eq!(send_failure_line("http://a", "no route"), "http://a => no route");
    let reason = Some("Teapot".to_string());
    assert_eq!(status_failure_line("http://a", 418, &reason), "http://a => HTTP 418 Teapot");
    assert_eq!(status_failure_line("http://a", 7, &None), "http://a => HTTP 7 Unknown");
    assert_eq!(
        all_failed_message("H", &Vec::new()),
        "All ED2K sources failed for hash H\n"
    );
    assert_eq!(
        all_failed_message("H", &vec!["x".to_string(), "y".to_string()]),
        "All ED2K sources failed for hash H\n  x\n  y"
    );
}

fn torrent(trackers: &[&str], monitor: bool) -> (TorrentTransfer, TorrentStep) {
    let downloader = TorrentDownloader::new(config(&[], trackers), monitor);
    downloader.begin_download(&task("magnet:?xt=1", "downloads/x.iso"))
}

fn silent(action: TorrentAction) -> TorrentStep {
    TorrentStep { report: false, total: None, progress: None, action }
}

fn watched(monitor: bool) -> TorrentTransfer {
    let (mut transfer, _) = torrent(&[], monitor);
    transfer.step(TorrentEvent::SessionCreated);
    transfer.step(TorrentEvent::InputAccepted);
    assert_eq!(transfer.step(TorrentEvent::Added), silent(TorrentAction::Wait(1)));
    transfer
}

fn look(downloaded: u64, total: u64) -> TorrentEvent {
    TorrentEvent::Polled { downloaded, total, running: true }
}

#[test]
fn a_torrent_is_added_with_the_configured_trackers() {
    let (mut transfer, first) = torrent(&["udp://t"], false);
    assert_eq!(transfer.output_dir, "downloads");
    assert_eq!(first, silent(TorrentAction::CreateSession(plan_session(true))));
    assert_eq!(
        transfer.step(TorrentEvent::SessionCreated),
        silent(TorrentAction::ReadInput("magnet:?xt=1".to_string()))
    );
    assert_eq!(
        transfer.step(TorrentEvent::InputAccepted),
        silent(TorrentAction::AddTorrent {
            overwrite: true,
            trackers: Some(vec!["udp://t".to_string()]),
        })
    );
    assert_eq!(
        transfer.step(TorrentEvent::AlreadyManaged),
        silent(TorrentAction::Wait(1))
    );
}

#[test]
fn no_trackers_are_none() {
    for mut transfer in [
        torrent(&[], false).0,
        TorrentDownloader::default().begin_download(&task("u", "p")).0,
    ] {
        transfer.step(TorrentEvent::SessionCreated);
        assert_eq!(
            transfer.step(TorrentEvent::InputAccepted),
            silent(TorrentAction::AddTorrent { overwrite: true, trackers: None })
        );
    }
}

#[test]
fn sessions_are_planned_with_and_without_dht() {
    let primary = plan_session(true);
    let fallback = plan_session(false);
    assert!(!primary.disable_dht && fallback.disable_dht);
    for plan in [primary, fallback] {
        assert!(plan.disable_dht_persistence);
        assert_eq!((plan.first_port, plan.end_port), (6881, 6891));
    }
}

#[test]
fn a_session_without_dht_is_the_fallback() {
    let (mut transfer, _) = torrent(&[], false);
    assert_eq!(
        transfer.step(TorrentEvent::SessionFailed("no DHT".to_string())),
        silent(TorrentAction::CreateSession(plan_session(false)))
    );
    assert_eq!(
        transfer.step(TorrentEvent::SessionFailed("no port".to_string())),
        silent(TorrentAction::Fail(
            "Failed to create BT Session: primary init error: no DHT; fallback error: no port"
                .to_string()
        ))
    );
    let (mut transfer, _) = torrent(&[], false);
    transfer.step(TorrentEvent::SessionFailed("no DHT".to_string()));
    assert_eq!(
        transfer.step(TorrentEvent::SessionCreated).action,
        TorrentAction::ReadInput("magnet:?xt=1".to_string())
    );
}

#[test]
fn torrents_that_cannot_be_added_fail() {
    let (mut transfer, _) = torrent(&[], false);
    transfer.step(TorrentEvent::SessionCreated);
    assert_eq!(
        transfer.step(TorrentEvent::InputRejected("no such file".to_string())),
        silent(TorrentAction::Fail("Unsupported BT input magnet:?xt=1: no such file".to_string()))
    );
    for (event, message) in [
        (
            TorrentEvent::ListOnly,
            "Torrent added in list-only mode, download not started",
        ),
        (TorrentEvent::AddFailed("bad".to_string()), "Failed to add torrent: bad"),
    ] {
        let (mut transfer, _) = torrent(&[], false);
        transfer.step(TorrentEvent::SessionCreated);
        transfer.step(TorrentEvent::InputAccepted);
        assert_eq!(transfer.step(event), silent(TorrentAction::Fail(message.to_string())));
        assert_eq!(transfer.phase, TorrentPhase::Ended);
    }
}

#[test]
fn the_monitor_hears_of_the_peak() {
    let mut transfer = watched(true);
    let first = transfer.step(look(0, 100));
    assert_eq!((first.report, first.total, first.progress), (true, None, None));
    let second = transfer.step(look(10, 100));
    assert_eq!((second.report, second.total, second.progress), (false, Some(100), Some(10)));
    assert_eq!(transfer.step(look(10, 100)).progress, None);
    assert_eq!(transfer.step(look(5, 100)).progress, None);
    let fifth = transfer.step(look(12, 120));
    assert_eq!((fifth.total, fifth.progress), (None, Some(2)));
    assert_eq!((transfer.last_reported, transfer.tick), (12, 5));
    let last = transfer.step(look(120, 120));
    assert_eq!((last.progress, last.action), (Some(108), TorrentAction::Finish));
    assert_eq!(transfer.phase, TorrentPhase::Ended);
}

#[test]
fn without_a_monitor_no_progress_is_told() {
    let mut transfer = watched(false);
    let step = transfer.step(look(10, 100));
    assert_eq!((step.total, step.progress), (None, None));
    assert_eq!(transfer.last_reported, 0);
}

#[test]
fn the_status_is_reported_at_the_first_and_every_tenth_look() {
    let mut transfer = watched(false);
    for tick in 1..=40u64 {
        assert_eq!(transfer.step(look(0, 1)).report, tick == 1 || tick % 10 == 0);
    }
}

#[test]
fn completion_comes_before_cancellation() {
    let stopped = |downloaded, total| TorrentEvent::Polled { downloaded, total, running: false };
    assert_eq!(watched(false).step(stopped(7, 7)).action, TorrentAction::Finish);
    assert_eq!(
        watched(false).step(stopped(6, 7)).action,
        TorrentAction::Fail("BT download cancelled by user".to_string())
    );
    assert_eq!(watched(false).step(look(0, 0)).action, TorrentAction::Wait(1));
    assert_eq!(watched(false).step(look(8, 7)).action, TorrentAction::Finish);
}

#[test]
fn finds_the_output_directory() {
    assert_eq!(output_directory(""), ".");
    assert_eq!(output_directory("x.iso"), "");
    assert_eq!(output_directory("downloads/x.iso"), "downloads");
    assert_eq!(output_directory("/tmp/a b/x.iso"), "/tmp/a b");
    assert_eq!(output_directory("a/./b/x"), "a/./b");
    assert_eq!(output_directory("/x.iso"), "/");
    assert_eq!(output_directory("/"), ".");
    assert_eq!(output_directory("."), "");
    assert_eq!(output_directory("a/.."), "a");
    assert_eq!(output_directory("../x.iso"), "..");
    assert_eq!(output_directory("./x.iso"), ".");
    assert_eq!(output_directory(".//x.iso"), ".");
    assert_eq!(output_directory("./a/../x.iso"), "./a/..");
    assert_eq!(output_directory("a.b./x"), "a.b.");
    assert_eq!(output_directory("a///x.iso"), "a");
    assert_eq!(output_directory("a//b/x.iso//"), "a//b");
    assert_eq!(output_directory("x.iso/"), "");
    assert_eq!(output_directory("/x.iso/"), "/");
    assert_eq!(directory_or_current(None), ".");
    assert_eq!(directory_or_current(Some("d".to_string())), "d");
}

/// A path without the slashes and dots at its end.
fn stripped(path: &str) -> &str {
    let mut rest = path;
    while rest.len() > 1 && (rest.ends_with('/') || rest.ends_with("/.")) {
        rest = &rest[..rest.len() - 1];
    }
    rest
}

#[test]
fn finds_the_directory_of_every_portable_path() {
    let mut paths = vec![String::new()];
    let mut from = 0;
    for _ in 0..7 {
        let to = paths.len();
        for i in from..to {
            for c in ['/', '.', ':', 'a'] {
                paths.push(format!("{}{}", paths[i], c));
            }
        }
        from = to;
    }
    for path in &paths {
        let components = stripped(path);
        let parent = if components.is_empty() || components == "/" {
            "."
        } else {
            stripped(&components[..components.rfind('/').map_or(0, |at| at + 1)])
        };
        let all_drive = path.get(1..2) == Some(":") && !path.starts_with('/') && parent.len() <= 2;
        if !path.starts_with("//") && !all_drive {
            assert_eq!(output_directory(path), parent, "{}", path);
        }
    }
}

#[test]
fn finds_directories_with_colons_and_dots() {
    assert_eq!(output_directory("dl/a:x"), "dl");
    assert_eq!(output_directory("C:/dl/x.iso"), "C:/dl");
    assert_eq!(output_directory("a/./x"), "a");
    assert_eq!(output_directory("a/x/."), "a");
    assert_eq!(output_directory("/./x"), "/");
}

#[test]
fn names_torrents() {
    assert_eq!(torrent_name(&Some("größe".as_bytes().to_vec())), "größe");
    assert_eq!(torrent_name(&Some(vec![0x61, 0xff, 0x62])), "a\u{fffd}b");
    assert_eq!(torrent_name(&None), "<unknown>");
    assert_eq!(name_or_unknown(Some("n".to_string())), "n");
}

#[test]
fn writes_status_lines() {
    assert_eq!(
        metadata_line("x.iso", Some(42), 3),
        "BT metadata ready: x.iso (42 bytes), 3 extra tracker(s)"
    );
    assert_eq!(
        metadata_line("<unknown>", None, 0),
        "BT metadata ready: <unknown> (0 bytes), 0 extra tracker(s)"
    );
    let peers = PeerCounts { seen: 5, queued: 4, connecting: 3, live: 2, dead: 1 };
    assert_eq!(
        status_line("live", Some(peers), 10, 20),
        "BT status: live | peers seen=5 queued=4 connecting=3 live=2 dead=1 | downloaded=10/20"
    );
    assert_eq!(
        status_line("initializing", None, 0, 0),
        "BT status: initializing | downloaded=0/0"
    );
}
