//! Lines that tell the user about a torrent.

use vstd::prelude::*;
use vstd::string::*;

use crate::number;

verus! {

/// How many peers are in which state.
#[derive(Clone, Copy, Debug, PartialEq, Eq, Structural)]
pub struct PeerCounts {
    pub seen: u64,
    pub queued: u64,
    pub connecting: u64,
    pub live: u64,
    pub dead: u64,
}

/// The text that `String::from_utf8_lossy` makes of `bytes`.
pub uninterp spec fn lossy_text(bytes: Seq<u8>) -> Seq<char>;

/// `String::from_utf8_lossy` depends on the bytes alone and gives back the text that they encode,
/// if they are valid UTF-8. Where it puts replacement characters otherwise is left unsaid.
#[verifier::external_body]
fn read_lossy(bytes: &Vec<u8>) -> (res: String)
    ensures
        res@ == lossy_text(bytes@),
        vstd::utf8::valid_utf8(bytes@) ==> res@ == vstd::utf8::decode_utf8(bytes@),
{
    String::from_utf8_lossy(bytes).into_owned()
}

/// The name of a torrent that calls itself `name`.
pub open spec fn shown_name(name: Option<Seq<char>>) -> Seq<char> {
    match name {
        Some(name) => name,
        None => "<unknown>"@,
    }
}

/// The name to show for a torrent.
pub fn name_or_unknown(name: Option<String>) -> (res: String)
    ensures
        res@ == shown_name(
            match name {
                Some(name) => Some(name@),
                None => None,
            },
        ),
{
    match name {
        Some(name) => name,
        None => "<unknown>".to_owned(),
    }
}

/// The name to show for a torrent whose metadata holds these bytes as its name.
pub fn torrent_name(name: &Option<Vec<u8>>) -> (res: String)
    ensures
        res@ == shown_name(
            match *name {
                Some(bytes) => Some(lossy_text(bytes@)),
                None => None,
            },
        ),
        *name is Some && vstd::utf8::valid_utf8((*name)->0@) ==> res@ == vstd::utf8::decode_utf8(
            (*name)->0@,
        ),
{
    let read = match name {
        Some(bytes) => Some(read_lossy(bytes)),
        None => None,
    };
    name_or_unknown(read)
}

/// The line on the metadata of a torrent.
pub open spec fn metadata(name: Seq<char>, length: Option<u64>, trackers: nat) -> Seq<char> {
    "BT metadata ready: "@ + name + " ("@ + number::decimal(
        match length {
            Some(length) => length as nat,
            None => 0,
        },
    ) + " bytes), "@ + number::decimal(trackers) + " extra tracker(s)"@
}

/// Says what the metadata of a torrent holds.
pub fn metadata_line(name: &str, length: Option<u64>, trackers: usize) -> (res: String)
    ensures
        res@ == metadata(name@, length, trackers as nat),
{
    let mut line = "BT metadata ready: ".to_owned();
    line.append(name);
    line.append(" (");
    let bytes: u64 = match length {
        Some(length) => length,
        None => 0,
    };
    line.append(number::decimal_text(bytes).as_str());
    line.append(" bytes), ");
    line.append(number::decimal_text(trackers as u64).as_str());
    line.append(" extra tracker(s)");
    line
}

/// The part of a status line on the peers.
pub open spec fn peer_part(peers: PeerCounts) -> Seq<char> {
    "peers seen="@ + number::decimal(peers.seen as nat) + " queued="@ + number::decimal(
        peers.queued as nat,
    ) + " connecting="@ + number::decimal(peers.connecting as nat) + " live="@ + number::decimal(
        peers.live as nat,
    ) + " dead="@ + number::decimal(peers.dead as nat) + " | "@
}

/// The line on the status of a download.
pub open spec fn status(
    state: Seq<char>,
    peers: Option<PeerCounts>,
    downloaded: u64,
    total: u64,
) -> Seq<char> {
    "BT status: "@ + state + " | "@ + (match peers {
        Some(peers) => peer_part(peers),
        None => Seq::empty(),
    }) + "downloaded="@ + number::decimal(downloaded as nat) + "/"@ + number::decimal(total as nat)
}

/// Says how a download is going. Peers are known while the torrent is live.
pub fn status_line(
    state: &str,
    peers: Option<PeerCounts>,
    downloaded: u64,
    total: u64,
) -> (res: String)
    ensures
        res@ == status(state@, peers, downloaded, total),
{
    let mut line = "BT status: ".to_owned();
    line.append(state);
    line.append(" | ");
    let ghost start = line@;
    if let Some(peers) = peers {
        line.append("peers seen=");
        line.append(number::decimal_text(peers.seen).as_str());
        line.append(" queued=");
        line.append(number::decimal_text(peers.queued).as_str());
        line.append(" connecting=");
        line.append(number::decimal_text(peers.connecting).as_str());
        line.append(" live=");
        line.append(number::decimal_text(peers.live).as_str());
        line.append(" dead=");
        line.append(number::decimal_text(peers.dead).as_str());
        line.append(" | ");
        proof {
            assert(line@ =~= start + peer_part(peers));
        }
    } else {
        proof {
            assert(line@ =~= start + Seq::<char>::empty());
        }
    }
    line.append("downloaded=");
    line.append(number::decimal_text(downloaded).as_str());
    line.append("/");
    line.append(number::decimal_text(total).as_str());
    line
}

/// A torrent is shown under its name, and as `<unknown>` if it has none.
pub proof fn law_shown_names(name: Seq<char>)
    ensures
        shown_name(Some(name)) == name,
        shown_name(None) == "<unknown>"@,
{
}

/// The line on the metadata holds the name, the number of bytes, zero if that is not known, and the
/// number of trackers.
pub proof fn law_metadata_line(name: Seq<char>, length: u64, trackers: nat)
    ensures
        metadata(name, Some(length), trackers) == "BT metadata ready: "@ + name + " ("@
            + number::decimal(length as nat) + " bytes), "@ + number::decimal(trackers)
            + " extra tracker(s)"@,
        metadata(name, None, trackers) == metadata(name, Some(0), trackers),
{
}

/// The line on the status holds the state and the progress, and between them the number of peers in
/// each state, if that is known.
pub proof fn law_status_line(state: Seq<char>, peers: PeerCounts, downloaded: u64, total: u64)
    ensures
        status(state, None, downloaded, total) == "BT status: "@ + state + " | "@ + "downloaded="@
            + number::decimal(downloaded as nat) + "/"@ + number::decimal(total as nat),
        status(state, Some(peers), downloaded, total) == "BT status: "@ + state + " | "@
            + "peers seen="@ + number::decimal(peers.seen as nat) + " queued="@ + number::decimal(
            peers.queued as nat,
        ) + " connecting="@ + number::decimal(peers.connecting as nat) + " live="@
            + number::decimal(peers.live as nat) + " dead="@ + number::decimal(peers.dead as nat)
            + " | "@ + "downloaded="@ + number::decimal(downloaded as nat) + "/"@
            + number::decimal(total as nat),
{
    let start = "BT status: "@ + state + " | "@;
    let seen = "peers seen="@ + number::decimal(peers.seen as nat) + " queued="@ + number::decimal(
        peers.queued as nat,
    ) + " connecting="@ + number::decimal(peers.connecting as nat) + " live="@ + number::decimal(
        peers.live as nat,
    ) + " dead="@ + number::decimal(peers.dead as nat) + " | "@;
    assert(start + Seq::<char>::empty() =~= start);
    assert(start + seen =~= start + "peers seen="@ + number::decimal(peers.seen as nat)
        + " queued="@ + number::decimal(peers.queued as nat) + " connecting="@ + number::decimal(
        peers.connecting as nat,
    ) + " live="@ + number::decimal(peers.live as nat) + " dead="@ + number::decimal(
        peers.dead as nat,
    ) + " | "@);
}

} // verus!
