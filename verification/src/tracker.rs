use vstd::prelude::*;
use vstd::string::StringExecFns;
use crate::text::{decimal, push_decimal};
use crate::torrent_data_extractor::{size_of_first, texts, total_size, TorrentData};
use crate::torrent_file_parser::ParseError;

pub mod tcp_connection;
pub mod udp_connection;

verus! {

/// Why an announce did not bring peers.
#[derive(Clone, Copy, Debug, PartialEq, Eq, Structural)]
pub enum TrackerError {
    /// The announce URL is no absolute URL.
    BadUrl,
    /// The URL of a UDP tracker names no host.
    NoHost,
    /// The URL of a UDP tracker names no port.
    NoPort,
    /// The response is no bencoded dictionary.
    Malformed(ParseError),
    /// The tracker answered with a `failure reason`.
    Failure,
    /// The response has no `peers`.
    MissingPeers,
    /// The `peers` of the response are not in the compact form.
    PeersNotBytes,
    /// The response has no `interval`.
    MissingInterval,
    /// The `interval` of the response is no integer.
    IntervalNotInt,
    /// The `peers` of the response are no whole number of entries.
    CorruptedPeers,
    /// The datagram is shorter than its fixed part.
    TooShort,
    /// The datagram answers another action than the one that was asked for.
    WrongAction,
    /// The datagram echoes another transaction than ours.
    WrongTransaction,
    /// No tracker answered.
    Unavailable,
}

/// What of an announce URL decides how its tracker is asked.
pub struct TrackerUrl {
    pub scheme: String,
    pub host: Option<String>,
    pub port: Option<u16>,
}

/// How a tracker is asked.
#[derive(Debug, PartialEq, Eq)]
pub enum TrackerTarget {
    /// Over UDP, at this host and port.
    Udp(String),
    /// With an HTTP GET.
    Http,
}

/// What the `url` crate makes of a text: nothing where it is no absolute
/// URL, else its scheme, its host as the crate prints it, and its port.
pub uninterp spec fn url_parts(text: Seq<char>) -> Option<(Seq<char>, Option<Seq<char>>, Option<u16>)>;

/// The view of a parsed URL.
pub open spec fn url_view(r: Option<TrackerUrl>) -> Option<(Seq<char>, Option<Seq<char>>, Option<u16>)> {
    match r {
        Some(u) => Some(
            (
                u.scheme@,
                match u.host {
                    Some(h) => Some(h@),
                    None => None,
                },
                u.port,
            ),
        ),
        None => None,
    }
}

/// Parses an announce URL.
///
/// Trusted: calls `url::Url::parse` and, where that succeeds, copies out
/// what `scheme`, `host` and `port` of the `Url` return, the host in the
/// text that the crate prints for it. The contract names the result.
#[verifier::external_body]
pub(crate) fn parse_url(text: &str) -> (r: Option<TrackerUrl>)
    ensures
        url_view(r) == url_parts(text@),
{
    match url::Url::parse(text) {
        Ok(u) => Some(
            TrackerUrl {
                scheme: u.scheme().to_string(),
                host: match u.host() {
                    Some(h) => Some(h.to_string()),
                    None => None,
                },
                port: u.port(),
            },
        ),
        Err(_) => None,
    }
}

/// How the tracker behind the parts of a URL is asked: a `udp` URL needs a
/// host and a port, which make the address `host:port`; every other scheme
/// is asked over HTTP.
pub open spec fn target_of(parts: Option<(Seq<char>, Option<Seq<char>>, Option<u16>)>) -> Result<
    Option<Seq<char>>,
    TrackerError,
> {
    match parts {
        None => Err(TrackerError::BadUrl),
        Some((scheme, host, port)) => if scheme == "udp"@ {
            match host {
                None => Err(TrackerError::NoHost),
                Some(h) => match port {
                    None => Err(TrackerError::NoPort),
                    Some(p) => Ok(Some(h + ":"@ + decimal(p as nat))),
                },
            }
        } else {
            Ok(None)
        },
    }
}

/// The view of the result of `tracker_target`.
pub open spec fn target_view(r: Result<TrackerTarget, TrackerError>) -> Result<Option<Seq<char>>, TrackerError> {
    match r {
        Ok(TrackerTarget::Udp(link)) => Ok(Some(link@)),
        Ok(TrackerTarget::Http) => Ok(None),
        Err(e) => Err(e),
    }
}

/// The announce URLs of a torrent: its list where it has one, else its
/// one `announce`.
pub open spec fn targets_of(announce: Seq<char>, announce_list: Option<Seq<Seq<char>>>) -> Seq<Seq<char>> {
    match announce_list {
        Some(list) => list,
        None => seq![announce],
    }
}

/// The first response that is no failure.
pub open spec fn first_ok(responses: Seq<Result<(Vec<String>, i64), TrackerError>>) -> Option<int>
    decreases responses.len(),
{
    if responses.len() == 0 {
        None
    } else if responses[0] is Ok {
        Some(0)
    } else {
        match first_ok(responses.skip(1)) {
            Some(i) => Some(i + 1),
            None => None,
        }
    }
}

/// Decides from the parts of an announce URL how its tracker is asked.
pub fn target_from_parts(parts: Option<TrackerUrl>) -> (r: Result<TrackerTarget, TrackerError>)
    ensures
        target_view(r) == target_of(url_view(parts)),
{
    match parts {
        None => Err(TrackerError::BadUrl),
        Some(u) => {
            let udp = String::from_str("udp");
            if u.scheme == udp {
                match u.host {
                    None => Err(TrackerError::NoHost),
                    Some(h) => match u.port {
                        None => Err(TrackerError::NoPort),
                        Some(p) => {
                            let mut link = h;
                            link.append(":");
                            push_decimal(&mut link, p as u128);
                            Ok(TrackerTarget::Udp(link))
                        },
                    },
                }
            } else {
                Ok(TrackerTarget::Http)
            }
        },
    }
}

/// Decides how the tracker at `tracker` is asked.
pub fn tracker_target(tracker: &str) -> (r: Result<TrackerTarget, TrackerError>)
    ensures
        target_view(r) == target_of(url_parts(tracker@)),
{
    target_from_parts(parse_url(tracker))
}

/// The announce URLs to ask for the peers of a torrent.
pub fn announce_targets(torrent_data: &TorrentData) -> (targets: Vec<String>)
    ensures
        texts(targets@) == targets_of(torrent_data@.announce, torrent_data@.announce_list),
{
    let mut targets: Vec<String> = Vec::new();
    match &torrent_data.announce_list {
        Some(content) => {
            let mut i: usize = 0;
            while i < content.len()
                invariant
                    i <= content@.len(),
                    targets@.len() == i,
                    forall|j: int| 0 <= j < i ==> (#[trigger] targets@[j])@ == content@[j]@,
                decreases content@.len() - i,
            {
                let copy = content[i].clone();
                assert(copy@ == content@[i as int]@);
                targets.push(copy);
                i += 1;
            }
            assert(texts(targets@) =~= texts(content@));
        },
        None => {
            targets.push(torrent_data.announce.clone());
            assert(texts(targets@) =~= seq![torrent_data@.announce]);
        },
    }
    targets
}

/// The bytes of a torrent that are still to be downloaded: before the
/// first piece, the sizes of all its files.
pub fn left_to_download(torrent_data: &TorrentData) -> (left: u128)
    ensures
        left == total_size(torrent_data@.files),
{
    let mut left: u128 = 0;
    let mut i: usize = 0;
    while i < torrent_data.files.len()
        invariant
            i <= torrent_data.files@.len(),
            left == size_of_first(torrent_data@.files, i as nat),
            left <= i * usize::MAX,
        decreases torrent_data.files@.len() - i,
    {
        assert((i + 1) * usize::MAX <= usize::MAX * usize::MAX <= u128::MAX) by (nonlinear_arith)
            requires
                i + 1 <= usize::MAX,
                usize::MAX <= u64::MAX,
        ;
        left = left + torrent_data.files[i].size as u128;
        i += 1;
        assert(torrent_data@.files[i - 1].size == torrent_data.files@[i - 1].size);
    }
    left
}

/// Picks the answer of the trackers: the first response, in the order of
/// the announce URLs, that is no failure.
pub fn first_success(responses: Vec<Result<(Vec<String>, i64), TrackerError>>) -> (r: Result<
    (Vec<String>, i64),
    TrackerError,
>)
    ensures
        r == match first_ok(responses@) {
            Some(i) => responses@[i],
            None => Err::<(Vec<String>, i64), TrackerError>(TrackerError::Unavailable),
        },
{
    let mut rest = responses;
    let ghost all = rest@;
    let mut best: Result<(Vec<String>, i64), TrackerError> = Err(TrackerError::Unavailable);
    assert(all.skip(all.len() as int) =~= Seq::empty());
    while rest.len() > 0
        invariant
            rest@ == all.subrange(0, rest@.len() as int),
            rest@.len() <= all.len(),
            best == match first_ok(all.skip(rest@.len() as int)) {
                Some(i) => all[rest@.len() + i],
                None => Err::<(Vec<String>, i64), TrackerError>(TrackerError::Unavailable),
            },
        decreases rest@.len(),
    {
        let ghost k = rest@.len() as int;
        let last = rest.pop();
        proof {
            assert(all.skip(k - 1).skip(1) =~= all.skip(k));
            assert(all.skip(k - 1)[0] == all[k - 1]);
            assert(rest@ =~= all.subrange(0, k - 1));
        }
        match last {
            Some(Ok(answer)) => {
                best = Ok(answer);
            },
            _ => {},
        }
    }
    assert(all.skip(0) =~= all);
    best
}

} // verus!
