//! The request coordinator: what to do next for a PUT, a GET or a DELETE,
//! given how far the request has come and what has just happened. The
//! caller performs each action (taking the key's lock, reading or writing
//! the index, calling the volumes) and reports its outcome as the next
//! event.

use vstd::prelude::*;
use vstd::string::*;
use crate::digest::lower_hex;
use crate::digest::md5_compute;
use crate::digest::md5_digest;
use crate::digest::to_lower_hex;
use crate::hashring::placement;
use crate::hashring::Ring;
use crate::hashring::RingView;
use crate::record::default_record;
use crate::record::get_remote_path;
use crate::record::key_fits;
use crate::record::remote_path;
use crate::record::Deleted;
use crate::record::Record;
use crate::record::RecordView;

verus! {

/// An HTTP response: status, headers in the order they are set, and body.
#[derive(Debug, PartialEq, Eq)]
pub struct Response {
    pub status: u16,
    pub headers: Vec<(String, String)>,
    pub body: String,
}

/// What a response holds.
pub struct ResponseView {
    pub status: u16,
    pub headers: Seq<(Seq<char>, Seq<char>)>,
    pub body: Seq<char>,
}

impl View for Response {
    type V = ResponseView;

    open spec fn view(&self) -> ResponseView {
        ResponseView {
            status: self.status,
            headers: self.headers.deep_view(),
            body: self.body@,
        }
    }
}

/// What an index read came to.
#[derive(Debug, PartialEq, Eq)]
pub enum ReadResult {
    /// The index failed, or the stored bytes did not decode.
    Failed,
    /// The index holds nothing for the key.
    Absent,
    /// The index holds this record.
    Found(Record),
}

/// What an index read came to, as a plain value.
pub enum ReadResultView {
    Failed,
    Absent,
    Found(RecordView),
}

impl View for ReadResult {
    type V = ReadResultView;

    open spec fn view(&self) -> ReadResultView {
        match self {
            ReadResult::Failed => ReadResultView::Failed,
            ReadResult::Absent => ReadResultView::Absent,
            ReadResult::Found(record) => ReadResultView::Found(record@),
        }
    }
}

/// The outcome of the last action, reported by the caller.
#[derive(Debug, PartialEq, Eq)]
pub enum Event {
    /// The request has arrived.
    Arrived,
    /// The key's lock was asked for: whether the request now holds it.
    Locked(bool),
    /// The index was read.
    Read(ReadResult),
    /// The replicas were written: one entry per volume called, with the
    /// status it answered, or `None` where the call itself failed.
    Written(Vec<Option<u16>>),
    /// The chosen replica was probed: the status it answered, or `None`
    /// where the call itself failed.
    Probed(Option<u16>),
    /// The record was handed to the index: whether the write succeeded.
    Stored(bool),
}

/// An event as a plain value.
pub enum EventView {
    Arrived,
    Locked(bool),
    Read(ReadResultView),
    Written(Seq<Option<u16>>),
    Probed(Option<u16>),
    Stored(bool),
}

impl View for Event {
    type V = EventView;

    open spec fn view(&self) -> EventView {
        match self {
            Event::Arrived => EventView::Arrived,
            Event::Locked(held) => EventView::Locked(*held),
            Event::Read(result) => EventView::Read(result@),
            Event::Written(statuses) => EventView::Written(statuses@),
            Event::Probed(status) => EventView::Probed(*status),
            Event::Stored(ok) => EventView::Stored(*ok),
        }
    }
}

/// How far a request has come.
#[derive(Debug, PartialEq, Eq)]
pub enum State {
    /// Nothing has been done yet.
    Start,
    /// The key's lock has been asked for.
    Locking,
    /// The index is being read.
    Reading,
    /// The payload is being written to these volumes.
    Writing { volumes: Vec<String> },
    /// A replica is being probed; the two responses are ready, one for a
    /// replica that answers and one for a replica that does not.
    Probing { found: Response, gone: Response },
    /// A record is being written to the index; on success the request ends
    /// with this status.
    Storing { status: u16 },
    /// The response has been given.
    Done,
}

/// A state as a plain value.
pub enum StateView {
    Start,
    Locking,
    Reading,
    Writing { volumes: Seq<Seq<char>> },
    Probing { found: ResponseView, gone: ResponseView },
    Storing { status: u16 },
    Done,
}

impl View for State {
    type V = StateView;

    open spec fn view(&self) -> StateView {
        match self {
            State::Start => StateView::Start,
            State::Locking => StateView::Locking,
            State::Reading => StateView::Reading,
            State::Writing { volumes } => StateView::Writing { volumes: volumes.deep_view() },
            State::Probing { found, gone } => StateView::Probing { found: found@, gone: gone@ },
            State::Storing { status } => StateView::Storing { status: *status },
            State::Done => StateView::Done,
        }
    }
}

/// What the caller is to do next.
#[derive(Debug, PartialEq, Eq)]
pub enum Action {
    /// Ask for the key's lock.
    Lock,
    /// Read the key's record from the index.
    Read,
    /// Send the payload to each of these URLs.
    Write { urls: Vec<String> },
    /// Ask this URL whether it holds the payload.
    Probe { url: String },
    /// Write this record to the index.
    Store { record: Record },
    /// Release the key's lock if `unlock` says so, then give this response.
    Respond { unlock: bool, response: Response },
    /// The event does not belong to the state: there is nothing to do.
    Nothing,
}

/// An action as a plain value.
pub enum ActionView {
    Lock,
    Read,
    Write { urls: Seq<Seq<char>> },
    Probe { url: Seq<char> },
    Store { record: RecordView },
    Respond { unlock: bool, response: ResponseView },
    Nothing,
}

impl View for Action {
    type V = ActionView;

    open spec fn view(&self) -> ActionView {
        match self {
            Action::Lock => ActionView::Lock,
            Action::Read => ActionView::Read,
            Action::Write { urls } => ActionView::Write { urls: urls.deep_view() },
            Action::Probe { url } => ActionView::Probe { url: url@ },
            Action::Store { record } => ActionView::Store { record: record@ },
            Action::Respond { unlock, response } => ActionView::Respond {
                unlock: *unlock,
                response: response@,
            },
            Action::Nothing => ActionView::Nothing,
        }
    }
}

/// A volume accepts a payload with `201 Created` or `204 No Content`, and
/// with nothing else.
pub open spec fn put_accepted(status: u16) -> bool {
    status == 201 || status == 204
}

/// A volume holds a payload if it answers the probe with any 2xx status.
pub open spec fn head_accepted(status: u16) -> bool {
    200 <= status < 300
}

/// Whether every one of `count` volumes was called and accepted the payload.
pub open spec fn all_written(statuses: Seq<Option<u16>>, count: nat) -> bool {
    &&& statuses.len() == count
    &&& forall|i: int|
        0 <= i < statuses.len() ==> (#[trigger] statuses[i]) is Some && put_accepted(
            statuses[i]->Some_0,
        )
}

/// Whether the probed replica answered that it holds the payload.
pub open spec fn probe_succeeded(status: Option<u16>) -> bool {
    status is Some && head_accepted(status->Some_0)
}

/// The URL of a key's payload on a volume.
pub open spec fn replica_url(volume: Seq<char>, key: Seq<char>) -> Seq<char> {
    "http://"@ + volume + remote_path(key)
}

/// The URLs of a key's payload on each of `volumes`.
pub open spec fn replica_urls(volumes: Seq<Seq<char>>, key: Seq<char>) -> Seq<Seq<char>> {
    Seq::new(volumes.len(), |i: int| replica_url(volumes[i], key))
}

/// Texts joined by commas.
pub open spec fn comma_joined(parts: Seq<Seq<char>>) -> Seq<char>
    decreases parts.len(),
{
    if parts.len() == 0 {
        Seq::empty()
    } else if parts.len() == 1 {
        parts[0]
    } else {
        comma_joined(parts.drop_last()) + seq![','] + parts.last()
    }
}

/// A response with a status and nothing else.
pub open spec fn plain(status: u16) -> ResponseView {
    ResponseView { status, headers: Seq::empty(), body: Seq::empty() }
}

/// The response to a PUT on a live key.
pub open spec fn overwrite_refused() -> ResponseView {
    ResponseView { status: 409, headers: Seq::empty(), body: "Forbidden to overwrite with PUT"@ }
}

/// The response to a GET on a key that is absent or not live.
pub open spec fn not_found(checksum: Seq<char>) -> ResponseView {
    ResponseView {
        status: 404,
        headers: seq![("Content-Length"@, "0"@), ("Content-Md5"@, checksum)],
        body: Seq::empty(),
    }
}

/// The response to a GET on a live key with a reachable replica: a redirect
/// to the replica.
pub open spec fn redirect(url: Seq<char>, checksum: Seq<char>) -> ResponseView {
    ResponseView {
        status: 302,
        headers: seq![("Location"@, url), ("Content-Length"@, "0"@), ("Content-Md5"@, checksum)],
        body: Seq::empty(),
    }
}

/// The response to a GET on a live key without a reachable replica.
pub open spec fn gone(volumes: Seq<Seq<char>>, balanced: bool) -> ResponseView {
    ResponseView {
        status: 410,
        headers: seq![
            ("Content-Length"@, "0"@),
            ("Key-Volumes"@, comma_joined(volumes)),
            (
                "Key-Balance"@,
                if balanced {
                    "balanced"@
                } else {
                    "unbalanced"@
                },
            ),
        ],
        body: Seq::empty(),
    }
}

/// The record that a mutation works on: the one found, or the default
/// record where the index holds none.
pub open spec fn current_record(read: ReadResultView) -> RecordView {
    match read {
        ReadResultView::Found(record) => record,
        _ => default_record(),
    }
}

/// The checksum that a PUT stores for a payload: its MD5 digest in lower-case
/// hexadecimal where checksums are enabled, else the empty text.
pub open spec fn stored_checksum(verify_checksums: bool, body: Seq<u8>) -> Seq<char> {
    if verify_checksums {
        lower_hex(md5_digest(body))
    } else {
        Seq::empty()
    }
}

/// The next state and the action of a PUT.
pub open spec fn put_next(
    ring: RingView,
    verify_checksums: bool,
    key: Seq<char>,
    has_content_length: bool,
    body: Seq<u8>,
    state: StateView,
    event: EventView,
) -> (StateView, ActionView) {
    match (state, event) {
        (StateView::Start, EventView::Arrived) => if !has_content_length || body.len() == 0 {
            (StateView::Done, ActionView::Respond { unlock: false, response: plain(411) })
        } else {
            (StateView::Locking, ActionView::Lock)
        },
        (StateView::Locking, EventView::Locked(held)) => if held {
            (StateView::Reading, ActionView::Read)
        } else {
            (StateView::Done, ActionView::Respond { unlock: false, response: plain(409) })
        },
        (StateView::Reading, EventView::Read(read)) => if read is Failed {
            (StateView::Done, ActionView::Respond { unlock: true, response: plain(500) })
        } else if current_record(read).deleted == Deleted::No {
            (StateView::Done, ActionView::Respond { unlock: true, response: overwrite_refused() })
        } else {
            (
                StateView::Writing {
                    volumes: placement(key, ring.volumes, ring.replicas, ring.subvolumes),
                },
                ActionView::Write {
                    urls: replica_urls(
                        placement(key, ring.volumes, ring.replicas, ring.subvolumes),
                        key,
                    ),
                },
            )
        },
        (StateView::Writing { volumes }, EventView::Written(statuses)) => if all_written(
            statuses,
            volumes.len(),
        ) {
            (
                StateView::Storing { status: 201 },
                ActionView::Store {
                    record: RecordView {
                        deleted: Deleted::No,
                        hash: stored_checksum(verify_checksums, body),
                        read_volumes: volumes,
                    },
                },
            )
        } else {
            (
                StateView::Storing { status: 500 },
                ActionView::Store {
                    record: RecordView {
                        deleted: Deleted::Soft,
                        hash: Seq::empty(),
                        read_volumes: volumes,
                    },
                },
            )
        },
        (StateView::Storing { status }, EventView::Stored(ok)) => (
            StateView::Done,
            ActionView::Respond {
                unlock: true,
                response: plain(
                    if ok {
                        status
                    } else {
                        500
                    },
                ),
            },
        ),
        _ => (state, ActionView::Nothing),
    }
}

/// The next state and the action of a GET or HEAD, where `pick` is the
/// replica that was chosen to be probed, if one was.
pub open spec fn get_next(
    ring: RingView,
    key: Seq<char>,
    state: StateView,
    event: EventView,
    pick: Option<Seq<char>>,
) -> (StateView, ActionView) {
    match (state, event) {
        (StateView::Start, EventView::Arrived) => (StateView::Reading, ActionView::Read),
        (StateView::Reading, EventView::Read(read)) => match read {
            ReadResultView::Failed => (
                StateView::Done,
                ActionView::Respond { unlock: false, response: plain(500) },
            ),
            ReadResultView::Absent => (
                StateView::Done,
                ActionView::Respond { unlock: false, response: not_found(Seq::empty()) },
            ),
            ReadResultView::Found(record) => if record.deleted != Deleted::No {
                (
                    StateView::Done,
                    ActionView::Respond { unlock: false, response: not_found(record.hash) },
                )
            } else {
                match pick {
                    None => (
                        StateView::Done,
                        ActionView::Respond {
                            unlock: false,
                            response: gone(record.read_volumes, is_balanced(ring, key, record)),
                        },
                    ),
                    Some(volume) => (
                        StateView::Probing {
                            found: redirect(replica_url(volume, key), record.hash),
                            gone: gone(record.read_volumes, is_balanced(ring, key, record)),
                        },
                        ActionView::Probe { url: replica_url(volume, key) },
                    ),
                }
            },
        },
        (StateView::Probing { found, gone }, EventView::Probed(status)) => (
            StateView::Done,
            ActionView::Respond {
                unlock: false,
                response: if probe_succeeded(status) {
                    found
                } else {
                    gone
                },
            },
        ),
        _ => (state, ActionView::Nothing),
    }
}

/// Whether a record holds as many volumes as the ring now places its key on.
pub open spec fn is_balanced(ring: RingView, key: Seq<char>, record: RecordView) -> bool {
    placement(key, ring.volumes, ring.replicas, ring.subvolumes).len()
        == record.read_volumes.len()
}

/// Whether `pick` can be the outcome of choosing a replica for `event`: one
/// of the record's volumes, or none; and none where a live record holds no
/// volume.
pub open spec fn pick_possible(event: EventView, pick: Option<Seq<char>>) -> bool {
    match pick {
        None => true,
        Some(volume) => event matches EventView::Read(ReadResultView::Found(record))
            && record.read_volumes.contains(volume),
    }
}

/// The next state and the action of a DELETE.
pub open spec fn delete_next(state: StateView, event: EventView) -> (StateView, ActionView) {
    match (state, event) {
        (StateView::Start, EventView::Arrived) => (StateView::Locking, ActionView::Lock),
        (StateView::Locking, EventView::Locked(held)) => if held {
            (StateView::Reading, ActionView::Read)
        } else {
            (StateView::Done, ActionView::Respond { unlock: false, response: plain(409) })
        },
        (StateView::Reading, EventView::Read(read)) => if read is Failed {
            (StateView::Done, ActionView::Respond { unlock: true, response: plain(500) })
        } else if current_record(read).deleted == Deleted::Hard || current_record(read).deleted
            == Deleted::Soft {
            (StateView::Done, ActionView::Respond { unlock: true, response: plain(404) })
        } else {
            (
                StateView::Storing { status: 204 },
                ActionView::Store {
                    record: RecordView {
                        deleted: Deleted::Soft,
                        hash: current_record(read).hash,
                        read_volumes: current_record(read).read_volumes,
                    },
                },
            )
        },
        (StateView::Storing { status }, EventView::Stored(ok)) => (
            StateView::Done,
            ActionView::Respond {
                unlock: true,
                response: plain(
                    if ok {
                        status
                    } else {
                        500
                    },
                ),
            },
        ),
        _ => (state, ActionView::Nothing),
    }
}

/// The replica that `pick` names, as a plain value.
pub open spec fn picked(pick: Option<String>) -> Option<Seq<char>> {
    match pick {
        Some(volume) => Some(volume@),
        None => None,
    }
}

/// Chooses one of `volumes` at random: `SliceRandom::choose` of the `rand`
/// crate, with a generator seeded from the operating system. Nothing is
/// chosen from an empty list, nor where the system gives no seed; what is
/// chosen is one of the entries.
#[verifier::external_body]
pub(crate) fn choose_volume(volumes: &[String]) -> (chosen: Option<String>)
    ensures
        chosen is Some ==> exists|i: int|
            0 <= i < volumes@.len() && (#[trigger] volumes@[i])@ == chosen->Some_0@,
{
    match <rand::rngs::StdRng as rand::SeedableRng>::from_rng(rand::rngs::OsRng) {
        Ok(mut rnd) => rand::seq::SliceRandom::choose(volumes, &mut rnd).cloned(),
        Err(_) => None,
    }
}

/// Decides whether a volume's answer to a PUT means that it took the payload.
pub fn put_is_accepted(status: u16) -> (ok: bool)
    ensures
        ok == put_accepted(status),
{
    status == 201 || status == 204
}

/// Decides whether a volume's answer to a HEAD means that it holds the
/// payload.
pub fn head_is_accepted(status: u16) -> (ok: bool)
    ensures
        ok == head_accepted(status),
{
    200 <= status && status < 300
}

/// Decides whether every one of `count` volumes took the payload.
pub fn all_replicas_written(statuses: &Vec<Option<u16>>, count: usize) -> (ok: bool)
    ensures
        ok == all_written(statuses@, count as nat),
{
    if statuses.len() != count {
        return false;
    }
    let mut i: usize = 0;
    while i < statuses.len()
        invariant
            i <= statuses@.len(),
            forall|j: int|
                0 <= j < i ==> (#[trigger] statuses@[j]) is Some && put_accepted(
                    statuses@[j]->Some_0,
                ),
        decreases statuses@.len() - i,
    {
        match statuses[i] {
            Some(status) => {
                if !put_is_accepted(status) {
                    return false;
                }
            },
            None => {
                return false;
            },
        }
        i += 1;
    }
    true
}

/// Whether the volumes that the ring places a key on differ in number from
/// the volumes that its record holds.
pub fn needs_rebalance(replicas_volumes: &[String], record_read_volumes: &[String]) -> (r: bool)
    ensures
        r == (replicas_volumes@.len() != record_read_volumes@.len()),
{
    replicas_volumes.len() != record_read_volumes.len()
}

/// Joins `parts` with commas.
pub fn join_with_commas(parts: &Vec<String>) -> (joined: String)
    ensures
        joined@ == comma_joined(parts.deep_view()),
{
    let ghost all = parts.deep_view();
    let mut joined = String::new();
    let mut i: usize = 0;
    proof {
        assert(all.take(0) =~= Seq::empty());
        reveal_strlit(",");
    }
    while i < parts.len()
        invariant
            i <= parts@.len(),
            all == parts.deep_view(),
            joined@ == comma_joined(all.take(i as int)),
            ","@ == seq![','],
        decreases parts@.len() - i,
    {
        if i > 0 {
            joined.append(",");
        }
        joined.append(parts[i].as_str());
        proof {
            assert(all.take(i + 1).drop_last() =~= all.take(i as int));
            assert(all.take(i + 1).last() == parts@[i as int]@);
            if i == 0 {
                assert(joined@ =~= all.take(1)[0]);
            }
        }
        i += 1;
    }
    proof {
        assert(all.take(i as int) =~= all);
    }
    joined
}

/// A copy of `texts`.
pub fn copy_texts(texts: &Vec<String>) -> (copy: Vec<String>)
    ensures
        copy.deep_view() == texts.deep_view(),
{
    let mut copy: Vec<String> = Vec::new();
    let mut i: usize = 0;
    while i < texts.len()
        invariant
            i <= texts@.len(),
            copy@.len() == i,
            forall|j: int| 0 <= j < i ==> (#[trigger] copy@[j])@ == texts@[j]@,
        decreases texts@.len() - i,
    {
        copy.push(texts[i].clone());
        i += 1;
    }
    assert(copy.deep_view() =~= texts.deep_view());
    copy
}

/// Computes the URL of a key's payload on a volume.
pub fn get_replica_url(volume: &str, key: &str) -> (url: String)
    requires
        key_fits(key@),
    ensures
        url@ == replica_url(volume@, key@),
{
    let mut url = String::from_str("http://");
    url.append(volume);
    let path = get_remote_path(key);
    url.append(path.as_str());
    url
}

/// Computes the URLs of a key's payload on each of `volumes`.
pub fn get_replica_urls(volumes: &Vec<String>, key: &str) -> (urls: Vec<String>)
    requires
        key_fits(key@),
    ensures
        urls.deep_view() == replica_urls(volumes.deep_view(), key@),
{
    let mut urls: Vec<String> = Vec::new();
    let mut i: usize = 0;
    while i < volumes.len()
        invariant
            i <= volumes@.len(),
            key_fits(key@),
            urls@.len() == i,
            forall|j: int| 0 <= j < i ==> (#[trigger] urls@[j])@ == replica_url(volumes@[j]@, key@),
        decreases volumes@.len() - i,
    {
        urls.push(get_replica_url(volumes[i].as_str(), key));
        i += 1;
    }
    assert(urls.deep_view() =~= replica_urls(volumes.deep_view(), key@));
    urls
}

/// One header.
pub fn header(name: &str, value: &str) -> (h: (String, String))
    ensures
        h.deep_view() == (name@, value@),
{
    (String::from_str(name), String::from_str(value))
}

/// Builds `plain(status)`.
pub fn plain_response(status: u16) -> (response: Response)
    ensures
        response@ == plain(status),
{
    let response = Response { status, headers: Vec::new(), body: String::new() };
    assert(response@.headers =~= Seq::empty());
    response
}

/// Builds `overwrite_refused()`.
pub fn overwrite_refused_response() -> (response: Response)
    ensures
        response@ == overwrite_refused(),
{
    let response = Response {
        status: 409,
        headers: Vec::new(),
        body: String::from_str("Forbidden to overwrite with PUT"),
    };
    assert(response@.headers =~= Seq::empty());
    response
}

/// Builds `not_found(checksum)`.
pub fn not_found_response(checksum: &str) -> (response: Response)
    ensures
        response@ == not_found(checksum@),
{
    let mut headers: Vec<(String, String)> = Vec::new();
    headers.push(header("Content-Length", "0"));
    headers.push(header("Content-Md5", checksum));
    let response = Response { status: 404, headers, body: String::new() };
    assert(response@.headers =~= not_found(checksum@).headers);
    response
}

/// Builds `redirect(url, checksum)`.
pub fn redirect_response(url: &str, checksum: &str) -> (response: Response)
    ensures
        response@ == redirect(url@, checksum@),
{
    let mut headers: Vec<(String, String)> = Vec::new();
    headers.push(header("Location", url));
    headers.push(header("Content-Length", "0"));
    headers.push(header("Content-Md5", checksum));
    let response = Response { status: 302, headers, body: String::new() };
    assert(response@.headers =~= redirect(url@, checksum@).headers);
    response
}

/// Builds `gone(volumes, balanced)`.
pub fn gone_response(volumes: &Vec<String>, balanced: bool) -> (response: Response)
    ensures
        response@ == gone(volumes.deep_view(), balanced),
{
    let joined = join_with_commas(volumes);
    let mut headers: Vec<(String, String)> = Vec::new();
    headers.push(header("Content-Length", "0"));
    headers.push(header("Key-Volumes", joined.as_str()));
    headers.push(
        header(
            "Key-Balance",
            if balanced {
                "balanced"
            } else {
                "unbalanced"
            },
        ),
    );
    let response = Response { status: 410, headers, body: String::new() };
    assert(response@.headers =~= gone(volumes.deep_view(), balanced).headers);
    response
}

/// One step of a PUT: the next state and what the caller is to do, given
/// the state the request is in and what has just happened.
pub fn handle_put_record(
    ring: &Ring,
    verify_checksums: bool,
    key: &str,
    has_content_length: bool,
    body: &[u8],
    state: State,
    event: Event,
) -> (next: (State, Action))
    requires
        ring.can_place(),
        key_fits(key@),
    ensures
        next.0@ == put_next(
            ring@,
            verify_checksums,
            key@,
            has_content_length,
            body@,
            state@,
            event@,
        ).0,
        next.1@ == put_next(
            ring@,
            verify_checksums,
            key@,
            has_content_length,
            body@,
            state@,
            event@,
        ).1,
{
    match (state, event) {
        (State::Start, Event::Arrived) => {
            if !has_content_length || body.len() == 0 {
                (State::Done, Action::Respond { unlock: false, response: plain_response(411) })
            } else {
                (State::Locking, Action::Lock)
            }
        },
        (State::Locking, Event::Locked(held)) => {
            if held {
                (State::Reading, Action::Read)
            } else {
                (State::Done, Action::Respond { unlock: false, response: plain_response(409) })
            }
        },
        (State::Reading, Event::Read(read)) => {
            let live = match &read {
                ReadResult::Found(record) => record.deleted() == Deleted::No,
                _ => false,
            };
            match read {
                ReadResult::Failed => (
                    State::Done,
                    Action::Respond { unlock: true, response: plain_response(500) },
                ),
                _ => {
                    if live {
                        (
                            State::Done,
                            Action::Respond {
                                unlock: true,
                                response: overwrite_refused_response(),
                            },
                        )
                    } else {
                        let volumes = ring.get_volume(key);
                        let urls = get_replica_urls(&volumes, key);
                        (State::Writing { volumes }, Action::Write { urls })
                    }
                },
            }
        },
        (State::Writing { volumes }, Event::Written(statuses)) => {
            if all_replicas_written(&statuses, volumes.len()) {
                let hash = if verify_checksums {
                    let digest = md5_compute(body);
                    to_lower_hex(digest.as_slice())
                } else {
                    String::new()
                };
                (
                    State::Storing { status: 201 },
                    Action::Store { record: Record::new(Deleted::No, hash, volumes) },
                )
            } else {
                (
                    State::Storing { status: 500 },
                    Action::Store { record: Record::new(Deleted::Soft, String::new(), volumes) },
                )
            }
        },
        (State::Storing { status }, Event::Stored(ok)) => {
            let end: u16 = if ok {
                status
            } else {
                500
            };
            (State::Done, Action::Respond { unlock: true, response: plain_response(end) })
        },
        (state, _) => (state, Action::Nothing),
    }
}

/// One step of a GET or HEAD, with the replica to probe given by the caller.
pub fn handle_get_record_picked(
    ring: &Ring,
    key: &str,
    state: State,
    event: Event,
    pick: Option<String>,
) -> (next: (State, Action))
    requires
        ring.can_place(),
        key_fits(key@),
    ensures
        next.0@ == get_next(ring@, key@, state@, event@, picked(pick)).0,
        next.1@ == get_next(ring@, key@, state@, event@, picked(pick)).1,
{
    match (state, event) {
        (State::Start, Event::Arrived) => (State::Reading, Action::Read),
        (State::Reading, Event::Read(read)) => {
            match read {
                ReadResult::Failed => (
                    State::Done,
                    Action::Respond { unlock: false, response: plain_response(500) },
                ),
                ReadResult::Absent => {
                    let none = String::new();
                    (
                        State::Done,
                        Action::Respond {
                            unlock: false,
                            response: not_found_response(none.as_str()),
                        },
                    )
                },
                ReadResult::Found(record) => {
                    if record.deleted() != Deleted::No {
                        (
                            State::Done,
                            Action::Respond {
                                unlock: false,
                                response: not_found_response(record.hash()),
                            },
                        )
                    } else {
                        let replicas_volumes = ring.get_volume(key);
                        let balanced = !needs_rebalance(
                            replicas_volumes.as_slice(),
                            record.read_volumes().as_slice(),
                        );
                        let gone = gone_response(record.read_volumes(), balanced);
                        match pick {
                            None => (
                                State::Done,
                                Action::Respond { unlock: false, response: gone },
                            ),
                            Some(volume) => {
                                let url = get_replica_url(volume.as_str(), key);
                                let found = redirect_response(url.as_str(), record.hash());
                                (State::Probing { found, gone }, Action::Probe { url })
                            },
                        }
                    }
                },
            }
        },
        (State::Probing { found, gone }, Event::Probed(status)) => {
            let reachable = match status {
                Some(code) => head_is_accepted(code),
                None => false,
            };
            if reachable {
                (State::Done, Action::Respond { unlock: false, response: found })
            } else {
                (State::Done, Action::Respond { unlock: false, response: gone })
            }
        },
        (state, _) => (state, Action::Nothing),
    }
}

/// One step of a GET or HEAD. Where a live record was read, one of its
/// volumes is chosen at random to be probed.
pub fn handle_get_record(ring: &Ring, key: &str, state: State, event: Event) -> (next: (
    State,
    Action,
))
    requires
        ring.can_place(),
        key_fits(key@),
    ensures
        exists|pick: Option<Seq<char>>|
            pick_possible(event@, pick) && next.0@ == (#[trigger] get_next(
                ring@,
                key@,
                state@,
                event@,
                pick,
            )).0 && next.1@ == get_next(ring@, key@, state@, event@, pick).1,
{
    let pick = match &event {
        Event::Read(ReadResult::Found(record)) => {
            let volumes = record.read_volumes();
            let chosen = choose_volume(volumes.as_slice());
            proof {
                if chosen is Some {
                    let i = choose|i: int|
                        0 <= i < volumes@.len() && (#[trigger] volumes@[i])@ == chosen->Some_0@;
                    assert(record@.read_volumes[i] == chosen->Some_0@);
                }
            }
            chosen
        },
        _ => None,
    };
    proof {
        assert(pick_possible(event@, picked(pick)));
    }
    handle_get_record_picked(ring, key, state, event, pick)
}

/// One step of a DELETE.
pub fn handle_delete_record(state: State, event: Event) -> (next: (State, Action))
    ensures
        next.0@ == delete_next(state@, event@).0,
        next.1@ == delete_next(state@, event@).1,
{
    match (state, event) {
        (State::Start, Event::Arrived) => (State::Locking, Action::Lock),
        (State::Locking, Event::Locked(held)) => {
            if held {
                (State::Reading, Action::Read)
            } else {
                (State::Done, Action::Respond { unlock: false, response: plain_response(409) })
            }
        },
        (State::Reading, Event::Read(read)) => {
            match read {
                ReadResult::Failed => (
                    State::Done,
                    Action::Respond { unlock: true, response: plain_response(500) },
                ),
                ReadResult::Absent => {
                    let volumes: Vec<String> = Vec::new();
                    assert(volumes.deep_view() =~= Seq::empty());
                    (
                        State::Storing { status: 204 },
                        Action::Store { record: Record::new(Deleted::Soft, String::new(), volumes) },
                    )
                },
                ReadResult::Found(record) => {
                    if record.deleted() == Deleted::Hard || record.deleted() == Deleted::Soft {
                        (
                            State::Done,
                            Action::Respond { unlock: true, response: plain_response(404) },
                        )
                    } else {
                        let hash = String::from_str(record.hash());
                        let volumes = copy_texts(record.read_volumes());
                        (
                            State::Storing { status: 204 },
                            Action::Store { record: Record::new(Deleted::Soft, hash, volumes) },
                        )
                    }
                },
            }
        },
        (State::Storing { status }, Event::Stored(ok)) => {
            let end: u16 = if ok {
                status
            } else {
                500
            };
            (State::Done, Action::Respond { unlock: true, response: plain_response(end) })
        },
        (state, _) => (state, Action::Nothing),
    }
}

/// A PUT without a `Content-Length` header, or with an empty body, ends at
/// once with `411`, before the key's lock is asked for.
pub proof fn law_put_requires_length(
    ring: RingView,
    verify_checksums: bool,
    key: Seq<char>,
    has_content_length: bool,
    body: Seq<u8>,
)
    requires
        !has_content_length || body.len() == 0,
    ensures
        put_next(
            ring,
            verify_checksums,
            key,
            has_content_length,
            body,
            StateView::Start,
            EventView::Arrived,
        ) == (StateView::Done, ActionView::Respond { unlock: false, response: plain(411) }),
{
}

/// A PUT that finds a live record ends with `409`: the lock is released and
/// nothing is written, neither to a volume nor to the index.
pub proof fn law_put_refuses_live_key(
    ring: RingView,
    verify_checksums: bool,
    key: Seq<char>,
    has_content_length: bool,
    body: Seq<u8>,
    record: RecordView,
)
    requires
        record.deleted == Deleted::No,
    ensures
        put_next(
            ring,
            verify_checksums,
            key,
            has_content_length,
            body,
            StateView::Reading,
            EventView::Read(ReadResultView::Found(record)),
        ) == (
            StateView::Done,
            ActionView::Respond { unlock: true, response: overwrite_refused() },
        ),
        overwrite_refused().status == 409,
{
}

/// A PUT that finds no live record goes on to write the key's placement,
/// whatever else the index holds for the key: nothing, or a record that is
/// `Init`, `Soft` or `Hard`.
pub proof fn law_put_overwrites_what_is_not_live(
    ring: RingView,
    verify_checksums: bool,
    key: Seq<char>,
    has_content_length: bool,
    body: Seq<u8>,
    read: ReadResultView,
)
    requires
        !(read is Failed),
        current_record(read).deleted != Deleted::No,
    ensures
        put_next(
            ring,
            verify_checksums,
            key,
            has_content_length,
            body,
            StateView::Reading,
            EventView::Read(read),
        ).0 == (StateView::Writing {
            volumes: placement(key, ring.volumes, ring.replicas, ring.subvolumes),
        }),
{
}

/// A PUT whose replicas all accepted the payload stores a live record with
/// the key's placement, and ends with `201` once the index took the record.
/// A GET that then reads this record and probes one of its volumes ends, if
/// the volume answers with a 2xx status, with `302` and a `Location` on that
/// volume.
pub proof fn law_get_after_put(
    ring: RingView,
    verify_checksums: bool,
    key: Seq<char>,
    has_content_length: bool,
    body: Seq<u8>,
    statuses: Seq<Option<u16>>,
    pick: Seq<char>,
    probe: Option<u16>,
)
    requires
        all_written(statuses, placement(key, ring.volumes, ring.replicas, ring.subvolumes).len()),
        placement(key, ring.volumes, ring.replicas, ring.subvolumes).contains(pick),
        probe_succeeded(probe),
    ensures
        ({
            let volumes = placement(key, ring.volumes, ring.replicas, ring.subvolumes);
            let stored = RecordView {
                deleted: Deleted::No,
                hash: stored_checksum(verify_checksums, body),
                read_volumes: volumes,
            };
            let written = put_next(
                ring,
                verify_checksums,
                key,
                has_content_length,
                body,
                StateView::Writing { volumes },
                EventView::Written(statuses),
            );
            let put_end = put_next(
                ring,
                verify_checksums,
                key,
                has_content_length,
                body,
                written.0,
                EventView::Stored(true),
            );
            let read = get_next(
                ring,
                key,
                StateView::Reading,
                EventView::Read(ReadResultView::Found(stored)),
                Some(pick),
            );
            let get_end = get_next(ring, key, read.0, EventView::Probed(probe), Some(pick));
            &&& written.1 == ActionView::Store { record: stored }
            &&& put_end == (
                StateView::Done,
                ActionView::Respond { unlock: true, response: plain(201) },
            )
            &&& pick_possible(EventView::Read(ReadResultView::Found(stored)), Some(pick))
            &&& read.1 == ActionView::Probe { url: replica_url(pick, key) }
            &&& get_end == (
                StateView::Done,
                ActionView::Respond {
                    unlock: false,
                    response: redirect(replica_url(pick, key), stored.hash),
                },
            )
            &&& redirect(replica_url(pick, key), stored.hash).status == 302
            &&& redirect(replica_url(pick, key), stored.hash).headers[0] == (
                "Location"@,
                "http://"@ + pick + remote_path(key),
            )
        }),
{
}

/// A DELETE that finds a record that is neither `Soft` nor `Hard`, or none,
/// stores the record as `Soft` and ends with `204` once the index took it. A
/// GET that then reads this record ends with `404`, and so does a second
/// DELETE.
pub proof fn law_gone_after_delete(
    ring: RingView,
    key: Seq<char>,
    read: ReadResultView,
    pick: Option<Seq<char>>,
)
    requires
        !(read is Failed),
        current_record(read).deleted != Deleted::Soft,
        current_record(read).deleted != Deleted::Hard,
    ensures
        ({
            let stored = RecordView {
                deleted: Deleted::Soft,
                hash: current_record(read).hash,
                read_volumes: current_record(read).read_volumes,
            };
            let marked = delete_next(StateView::Reading, EventView::Read(read));
            let delete_end = delete_next(marked.0, EventView::Stored(true));
            let again = EventView::Read(ReadResultView::Found(stored));
            &&& marked.1 == ActionView::Store { record: stored }
            &&& delete_end == (
                StateView::Done,
                ActionView::Respond { unlock: true, response: plain(204) },
            )
            &&& get_next(ring, key, StateView::Reading, again, pick) == (
                StateView::Done,
                ActionView::Respond { unlock: false, response: not_found(stored.hash) },
            )
            &&& not_found(stored.hash).status == 404
            &&& delete_next(StateView::Reading, again) == (
                StateView::Done,
                ActionView::Respond { unlock: true, response: plain(404) },
            )
        }),
{
}

/// A PUT of which some replica did not accept the payload stores a `Soft`
/// record without a checksum and ends with `500`, whether or not the index
/// took the record. A GET that reads this record ends with `404`, and a new
/// PUT that reads it goes on to write.
pub proof fn law_failed_put_leaves_key_writable(
    ring: RingView,
    verify_checksums: bool,
    key: Seq<char>,
    has_content_length: bool,
    body: Seq<u8>,
    volumes: Seq<Seq<char>>,
    statuses: Seq<Option<u16>>,
    stored_ok: bool,
    pick: Option<Seq<char>>,
)
    requires
        !all_written(statuses, volumes.len()),
    ensures
        ({
            let stored = RecordView {
                deleted: Deleted::Soft,
                hash: Seq::empty(),
                read_volumes: volumes,
            };
            let failed = put_next(
                ring,
                verify_checksums,
                key,
                has_content_length,
                body,
                StateView::Writing { volumes },
                EventView::Written(statuses),
            );
            let put_end = put_next(
                ring,
                verify_checksums,
                key,
                has_content_length,
                body,
                failed.0,
                EventView::Stored(stored_ok),
            );
            let again = EventView::Read(ReadResultView::Found(stored));
            &&& failed.1 == ActionView::Store { record: stored }
            &&& put_end == (
                StateView::Done,
                ActionView::Respond { unlock: true, response: plain(500) },
            )
            &&& get_next(ring, key, StateView::Reading, again, pick).1 == ActionView::Respond {
                unlock: false,
                response: not_found(stored.hash),
            }
            &&& put_next(
                ring,
                verify_checksums,
                key,
                has_content_length,
                body,
                StateView::Reading,
                again,
            ).1 is Write
        }),
{
}

/// A request that holds the key's lock gives it back with its response: from
/// the moment a PUT or DELETE has the lock, every response releases it, and
/// no response before that does.
pub proof fn law_lock_released_with_response(
    ring: RingView,
    verify_checksums: bool,
    key: Seq<char>,
    has_content_length: bool,
    body: Seq<u8>,
    state: StateView,
    event: EventView,
)
    ensures
        put_next(ring, verify_checksums, key, has_content_length, body, state, event).1
            matches ActionView::Respond { unlock, .. } ==> (unlock <==> !(state is Start
            || state is Locking)),
        delete_next(state, event).1 matches ActionView::Respond { unlock, .. } ==> (unlock <==> !(
        state is Start || state is Locking)),
{
}

} // verus!
