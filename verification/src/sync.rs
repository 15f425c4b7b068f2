//! The synchronization engine of one cloud: what a device asks of the relay,
//! in which order, and what it makes of each answer.
//!
//! The engine performs no request itself. A tick begins with
//! [`RemoteCloud::tick`]; from then on every step names the request to
//! make next, and takes the answer to it. A step that names no request ends
//! the tick.

use vstd::prelude::*;
use vstd::array::array_as_slice;
use vstd::string::*;
use vstd::utf8::*;
use crate::cloud::Cloud;
use crate::cloud::open_envelope;
use crate::cloud::seal;
use crate::codec::bytes_eq;
use crate::codec::enc_bytes;
use crate::codec::enc_u64;
use crate::codec::get_bytes;
use crate::codec::get_u64;
use crate::codec::lemma_enc_bytes_of_parse;
use crate::codec::lemma_enc_u64_len;
use crate::codec::lemma_enc_u64_of_parse;
use crate::codec::lemma_parse_bytes_of_enc;
use crate::codec::lemma_parse_u64_of_enc;
use crate::codec::lemma_stands_join;
use crate::codec::lemma_stands_split;
use crate::codec::lemma_stands_whole;
use crate::codec::parse_bytes;
use crate::codec::parse_u64;
use crate::codec::put_bytes;
use crate::codec::put_u64;
use crate::codec::stands_at;
use crate::crypto::KEYSTREAM_LIMIT;
use crate::crypto::mldsa_verifying_key;
use crate::crypto::random_bytes32;
use crate::journal::append_check;
use crate::journal::chained;
use crate::journal::JournalError;
use crate::metadata::string_from_utf8;
use crate::mutation::decode_mutation;
use crate::mutation::encode_mutation;
use crate::mutation::EnvelopeError;
use crate::mutation::Mutation;
use crate::relay::lemma_next_verified_is_taken;
use crate::relay::mutate_status;
use crate::relay::STATUS_ACCEPTED;
use crate::transaction::encode_transaction;
use crate::transaction::transaction_hash;
use crate::transaction::TransactionView;
use crate::wire::Response;
use crate::wire::ResponseView;

verus! {

/// Where a cloud is synchronized with, unless its state says otherwise.
pub const DEFAULT_SYNC_HTTP_URL: &'static str = "https://btk_worker.jchancehud.workers.dev";

/// Where a cloud listens for notifications, unless its state says otherwise.
pub const DEFAULT_SYNC_WS_URL: &'static str = "wss://btk_worker.jchancehud.workers.dev";

/// What a device remembers about the synchronization of one cloud. It is kept
/// on the device and never replicated.
#[derive(Clone, Debug, PartialEq, Eq)]
pub struct CloudSyncState {
    pub http_url: String,
    pub ws_url: String,
    /// The device and the relay agree on all mutations up to and including
    /// this index.
    pub latest_confirmed_index: Option<u64>,
    pub synchronization_enabled: bool,
}

/// A [`CloudSyncState`] as plain mathematical data.
pub struct SyncStateView {
    pub http_url: Seq<char>,
    pub ws_url: Seq<char>,
    pub latest_confirmed_index: Option<u64>,
    pub synchronization_enabled: bool,
}

impl View for CloudSyncState {
    type V = SyncStateView;

    open spec fn view(&self) -> SyncStateView {
        SyncStateView {
            http_url: self.http_url@,
            ws_url: self.ws_url@,
            latest_confirmed_index: self.latest_confirmed_index,
            synchronization_enabled: self.synchronization_enabled,
        }
    }
}

impl SyncStateView {
    /// The addresses are short enough for their length prefixes.
    pub open spec fn wf(self) -> bool {
        &&& encode_utf8(self.http_url).len() <= u64::MAX
        &&& encode_utf8(self.ws_url).len() <= u64::MAX
    }
}

/// The kept form of a cursor: a zero byte, or a one byte and the index.
pub open spec fn encode_cursor(cursor: Option<u64>) -> Seq<u8> {
    match cursor {
        None => seq![0u8],
        Some(index) => seq![1u8] + enc_u64(index),
    }
}

/// The kept form of the state: the two addresses as UTF-8 with their
/// lengths in front, the cursor, and a byte that is one where
/// synchronization is switched on.
pub open spec fn encode_sync_state(state: SyncStateView) -> Seq<u8> {
    enc_bytes(encode_utf8(state.http_url)) + enc_bytes(encode_utf8(state.ws_url)) + encode_cursor(
        state.latest_confirmed_index,
    ) + seq![
        if state.synchronization_enabled {
            1u8
        } else {
            0u8
        },
    ]
}

/// Reads a cursor at `pos`.
pub open spec fn parse_cursor(s: Seq<u8>, pos: int) -> Option<(Option<u64>, int)> {
    if 0 <= pos < s.len() {
        if s[pos] == 0 {
            Some((None, pos + 1))
        } else if s[pos] == 1 {
            match parse_u64(s, pos + 1) {
                Some((index, next)) => Some((Some(index), next)),
                None => None,
            }
        } else {
            None
        }
    } else {
        None
    }
}

/// The state that a whole byte string encodes, if it encodes one.
pub open spec fn decode_sync_state(s: Seq<u8>) -> Option<SyncStateView> {
    match parse_bytes(s, 0) {
        Some((http_url, pos1)) => match parse_bytes(s, pos1) {
            Some((ws_url, pos2)) => match parse_cursor(s, pos2) {
                Some((cursor, pos3)) => if pos3 + 1 == s.len() && s[pos3] <= 1 && valid_utf8(http_url)
                    && valid_utf8(ws_url) {
                    Some(
                        SyncStateView {
                            http_url: decode_utf8(http_url),
                            ws_url: decode_utf8(ws_url),
                            latest_confirmed_index: cursor,
                            synchronization_enabled: s[pos3] == 1,
                        },
                    )
                } else {
                    None
                },
                None => None,
            },
            None => None,
        },
        None => None,
    }
}

/// Decoding undoes encoding.
pub proof fn lemma_decode_encode_sync_state(state: SyncStateView)
    requires
        state.wf(),
    ensures
        decode_sync_state(encode_sync_state(state)) == Some(state),
{
    broadcast use encode_utf8_valid_utf8, encode_utf8_decode_utf8;

    let s = encode_sync_state(state);
    let e1 = enc_bytes(encode_utf8(state.http_url));
    let e2 = enc_bytes(encode_utf8(state.ws_url));
    let e3 = encode_cursor(state.latest_confirmed_index);
    let e4 = seq![
        if state.synchronization_enabled {
            1u8
        } else {
            0u8
        },
    ];
    lemma_stands_whole(s);
    lemma_stands_split(s, 0, e1 + e2 + e3, e4);
    lemma_stands_split(s, 0, e1 + e2, e3);
    lemma_stands_split(s, 0, e1, e2);
    lemma_parse_bytes_of_enc(s, 0, encode_utf8(state.http_url));
    lemma_parse_bytes_of_enc(s, e1.len() as int, encode_utf8(state.ws_url));
    let pos2 = e1.len() as int + e2.len() as int;
    assert(s[pos2] == s.subrange(pos2, pos2 + e3.len())[0]);
    match state.latest_confirmed_index {
        None => {},
        Some(index) => {
            lemma_stands_split(s, pos2, seq![1u8], enc_u64(index));
            lemma_enc_u64_len(index);
            lemma_parse_u64_of_enc(s, pos2 + 1, index);
        },
    }
    let pos3 = pos2 + e3.len() as int;
    assert(s[pos3] == s.subrange(pos3, pos3 + 1)[0]);
}

/// Only the encoding of a state decodes to it: the kept form is unique.
pub proof fn lemma_encode_decode_sync_state(s: Seq<u8>)
    requires
        decode_sync_state(s) is Some,
    ensures
        decode_sync_state(s).unwrap().wf(),
        encode_sync_state(decode_sync_state(s).unwrap()) == s,
{
    broadcast use decode_utf8_encode_utf8;

    let state = decode_sync_state(s).unwrap();
    let (http_url, pos1) = parse_bytes(s, 0).unwrap();
    let (ws_url, pos2) = parse_bytes(s, pos1).unwrap();
    let (cursor, pos3) = parse_cursor(s, pos2).unwrap();
    lemma_enc_bytes_of_parse(s, 0);
    lemma_enc_bytes_of_parse(s, pos1);
    if s[pos2] == 0 {
        assert(s.subrange(pos2, pos2 + 1) =~= seq![0u8]);
    } else {
        assert(s.subrange(pos2, pos2 + 1) =~= seq![1u8]);
        lemma_enc_u64_of_parse(s, pos2 + 1);
        lemma_enc_u64_len(cursor.unwrap());
        lemma_stands_join(s, pos2, seq![1u8], enc_u64(cursor.unwrap()));
    }
    assert(stands_at(s, pos2, encode_cursor(cursor)));
    let flag = seq![s[pos3]];
    assert(s.subrange(pos3, pos3 + 1) =~= flag);
    lemma_stands_join(s, 0, enc_bytes(http_url), enc_bytes(ws_url));
    lemma_stands_join(s, 0, enc_bytes(http_url) + enc_bytes(ws_url), encode_cursor(cursor));
    lemma_stands_join(
        s,
        0,
        enc_bytes(http_url) + enc_bytes(ws_url) + encode_cursor(cursor),
        flag,
    );
    assert(s.subrange(0, s.len() as int) =~= s);
}

impl CloudSyncState {
    /// The form in which the state is kept on the device.
    pub fn to_bytes(&self) -> (bytes: Vec<u8>)
        ensures
            bytes@ == encode_sync_state(self@),
            self@.wf(),
    {
        let mut out: Vec<u8> = Vec::new();
        let http_url = self.http_url.as_str().as_bytes();
        let ws_url = self.ws_url.as_str().as_bytes();
        assert(http_url@.len() == http_url.len() && ws_url@.len() == ws_url.len());
        put_bytes(&mut out, http_url);
        put_bytes(&mut out, ws_url);
        match self.latest_confirmed_index {
            None => {
                out.push(0u8);
            },
            Some(index) => {
                out.push(1u8);
                put_u64(&mut out, index);
            },
        }
        if self.synchronization_enabled {
            out.push(1u8);
        } else {
            out.push(0u8);
        }
        assert(out@ =~= encode_sync_state(self@));
        out
    }

    /// Reads a state from the form in which it was kept. Bytes that are not
    /// that form of any state, or that go on behind one, are refused.
    pub fn from_bytes(bytes: &[u8]) -> (r: Option<CloudSyncState>)
        ensures
            match r {
                Some(state) => decode_sync_state(bytes@) == Some(state@),
                None => decode_sync_state(bytes@) is None,
            },
    {
        let (http_url, pos1) = match get_bytes(bytes, 0) {
            Some(x) => x,
            None => return None,
        };
        let (ws_url, pos2) = match get_bytes(bytes, pos1) {
            Some(x) => x,
            None => return None,
        };
        if pos2 >= bytes.len() {
            return None;
        }
        let tag = bytes[pos2];
        let (latest_confirmed_index, pos3) = if tag == 0 {
            (None, pos2 + 1)
        } else if tag == 1 {
            match get_u64(bytes, pos2 + 1) {
                Some((index, next)) => (Some(index), next),
                None => return None,
            }
        } else {
            return None;
        };
        if pos3 >= bytes.len() || bytes.len() - pos3 != 1 || bytes[pos3] > 1 {
            return None;
        }
        let synchronization_enabled = bytes[pos3] == 1;
        let http_url = match string_from_utf8(http_url) {
            Some(x) => x,
            None => return None,
        };
        let ws_url = match string_from_utf8(ws_url) {
            Some(x) => x,
            None => return None,
        };
        Some(CloudSyncState { http_url, ws_url, latest_confirmed_index, synchronization_enabled })
    }
}

/// The state of a cloud that has never been synchronized: the default
/// addresses, nothing confirmed, synchronization switched on.
pub open spec fn default_sync_state() -> SyncStateView {
    SyncStateView {
        http_url: DEFAULT_SYNC_HTTP_URL@,
        ws_url: DEFAULT_SYNC_WS_URL@,
        latest_confirmed_index: None,
        synchronization_enabled: true,
    }
}

impl Default for CloudSyncState {
    fn default() -> (state: CloudSyncState)
        ensures
            state@ == default_sync_state(),
    {
        CloudSyncState {
            http_url: DEFAULT_SYNC_HTTP_URL.to_owned(),
            ws_url: DEFAULT_SYNC_WS_URL.to_owned(),
            latest_confirmed_index: None,
            synchronization_enabled: true,
        }
    }
}

/// How long the notification channel may stay silent before it is pinged.
pub const KEEPALIVE_SECONDS: u64 = 20;

/// Where a tick stands between two requests.
#[derive(Clone, Copy, Debug, PartialEq, Eq, Structural)]
pub enum SyncPhase {
    /// No tick is under way.
    Idle,
    /// The relay was asked for the mutation at `index`, to hold it against
    /// the local transaction there.
    Comparing { index: u64 },
    /// The local transaction at `index` was sent to the relay.
    Posting { index: u64 },
    /// The relay was asked how many mutations it holds.
    AwaitingState,
    /// The relay was asked for the mutation at `index`, which the journal
    /// does not have yet; the relay holds `remote_len`.
    Pulling { index: u64, remote_len: u64 },
}

/// What the device is to ask of the relay next.
#[derive(Clone, Debug, PartialEq, Eq)]
pub enum SyncRequest {
    /// `GET /mutation` for the cloud and this index.
    GetMutation { index: u64 },
    /// `POST /mutate` for the cloud with this body.
    PostMutation { body: Vec<u8> },
    /// `GET /state` for the cloud.
    GetState,
}

/// A [`SyncRequest`] as plain mathematical data.
pub enum RequestView {
    GetMutation { index: u64 },
    PostMutation { body: Seq<u8> },
    GetState,
}

impl View for SyncRequest {
    type V = RequestView;

    open spec fn view(&self) -> RequestView {
        match *self {
            SyncRequest::GetMutation { index } => RequestView::GetMutation { index },
            SyncRequest::PostMutation { body } => RequestView::PostMutation { body: body@ },
            SyncRequest::GetState => RequestView::GetState,
        }
    }
}

/// What a step has to say to whoever watches the synchronization.
#[derive(Clone, Copy, Debug, PartialEq, Eq, Structural)]
pub enum SyncStatus {
    /// Synchronization is switched off for this cloud.
    Disabled,
    /// The relay holds the same transaction at `index`; the journal holds
    /// `of` transactions.
    Confirmed { index: u64, of: u64 },
    /// The relay holds another transaction at `index`. Synchronization
    /// stops here until the user forks the cloud or lets it go.
    Diverged { index: u64 },
    /// A local transaction is on its way to the relay: the `number`-th of
    /// the journal, counted from one.
    Broadcasting { number: u64 },
    /// The relay did not take the transaction at `index`.
    PushFailed { index: u64 },
    /// The relay answered something the engine has no use for, or did not
    /// answer. The next tick tries again.
    TransportError,
    /// The relay did not say how many mutations it holds.
    StateFailed,
    /// The mutation at `index` is being fetched.
    Downloading { index: u64 },
    /// The relay did not hand out the mutation at `index`.
    DownloadFailed { index: u64 },
    /// Journal and relay hold the same `local == remote` transactions, and
    /// all of them are confirmed.
    FullySynchronized { local: u64, remote: u64 },
    /// What the relay sent does not open under the cloud's secret.
    DecryptFailure(EnvelopeError),
    /// What the relay sent does not continue the journal.
    ChainBreak(JournalError),
}

/// What one step of the engine hands back.
#[derive(Clone, Debug, PartialEq, Eq)]
pub struct SyncStep {
    /// What there is to report, if anything.
    pub status: Option<SyncStatus>,
    /// The request to make next. Without one the tick is over.
    pub request: Option<SyncRequest>,
    /// Whether the step put a transaction from the relay into the journal.
    pub cloud_updated: bool,
}

/// A step as plain mathematical data: where the engine stands after it,
/// what it reports and asks for, and what it put into the journal.
pub struct StepView {
    pub phase: SyncPhase,
    pub cursor: Option<u64>,
    pub status: Option<SyncStatus>,
    pub request: Option<RequestView>,
    pub appended: Option<TransactionView>,
}

/// The first index that is not confirmed yet.
pub open spec fn next_unconfirmed(cursor: Option<u64>) -> int {
    match cursor {
        Some(c) => c + 1,
        None => 0,
    }
}

/// The order of cursors: none before any, and then by index.
pub open spec fn cursor_leq(earlier: Option<u64>, later: Option<u64>) -> bool {
    next_unconfirmed(earlier) <= next_unconfirmed(later)
}

/// The cursor after `index` was confirmed. It never moves back.
pub open spec fn confirm(cursor: Option<u64>, index: u64) -> Option<u64> {
    if next_unconfirmed(cursor) > index {
        cursor
    } else {
        Some(index)
    }
}

/// An answer that carries what was asked for.
pub open spec fn is_success(status: u16) -> bool {
    200 <= status < 300
}

/// An answer that says the relay has no mutation at the index: 404 from a
/// relay of this library, 424 from relays of an older kind.
pub open spec fn is_missing(status: u16) -> bool {
    status == 404 || status == 424
}

/// The count that the body of a state answer carries.
pub open spec fn decode_count(body: Seq<u8>) -> Option<u64> {
    match parse_u64(body, 0) {
        Some((count, next)) => if next == body.len() {
            Some(count)
        } else {
            None
        },
        None => None,
    }
}

/// A step that ends the tick.
pub open spec fn halted(cursor: Option<u64>, status: Option<SyncStatus>) -> StepView {
    StepView { phase: SyncPhase::Idle, cursor, status, request: None, appended: None }
}

/// A step that goes on with the push: to the first unconfirmed transaction,
/// if the journal has one, else to asking the relay for its count.
pub open spec fn advance(cursor: Option<u64>, len: nat, status: Option<SyncStatus>) -> StepView {
    let next = next_unconfirmed(cursor);
    if next < len {
        StepView {
            phase: SyncPhase::Comparing { index: next as u64 },
            cursor,
            status,
            request: Some(RequestView::GetMutation { index: next as u64 }),
            appended: None,
        }
    } else {
        StepView {
            phase: SyncPhase::AwaitingState,
            cursor,
            status,
            request: Some(RequestView::GetState),
            appended: None,
        }
    }
}

/// How a tick begins.
pub open spec fn begin_view(enabled: bool, cursor: Option<u64>, len: nat) -> StepView {
    if !enabled {
        halted(cursor, Some(SyncStatus::Disabled))
    } else {
        advance(cursor, len, None)
    }
}

/// What the engine makes of the relay's answer to `GET /mutation` at an
/// index where the journal has a transaction of its own.
pub open spec fn compare_view(
    secret: Seq<u8>,
    log: Seq<TransactionView>,
    cursor: Option<u64>,
    index: u64,
    status: u16,
    body: Seq<u8>,
    salt: Seq<u8>,
) -> StepView {
    if index >= log.len() {
        halted(cursor, None)
    } else if is_success(status) {
        match decode_mutation(body) {
            None => halted(cursor, Some(SyncStatus::DecryptFailure(EnvelopeError::Malformed))),
            Some(m) => match open_envelope(secret, m) {
                Err(e) => halted(cursor, Some(SyncStatus::DecryptFailure(e))),
                Ok((tx, at)) => if at != index {
                    halted(cursor, Some(SyncStatus::DecryptFailure(EnvelopeError::IndexMismatch)))
                } else if transaction_hash(tx) == transaction_hash(log[index as int]) {
                    advance(
                        confirm(cursor, index),
                        log.len(),
                        Some(SyncStatus::Confirmed { index, of: log.len() as u64 }),
                    )
                } else {
                    halted(cursor, Some(SyncStatus::Diverged { index }))
                },
            },
        }
    } else if is_missing(status) {
        if encode_transaction(log[index as int]).len() > KEYSTREAM_LIMIT {
            halted(cursor, Some(SyncStatus::PushFailed { index }))
        } else {
            StepView {
                phase: SyncPhase::Posting { index },
                cursor,
                status: Some(SyncStatus::Broadcasting { number: (index + 1) as u64 }),
                request: Some(
                    RequestView::PostMutation {
                        body: encode_mutation(seal(secret, log[index as int], salt)),
                    },
                ),
                appended: None,
            }
        }
    } else {
        halted(cursor, Some(SyncStatus::TransportError))
    }
}

/// What the engine makes of the relay's answer to `POST /mutate`.
pub open spec fn post_view(len: nat, cursor: Option<u64>, index: u64, status: u16) -> StepView {
    if index >= len {
        halted(cursor, None)
    } else if is_success(status) {
        advance(confirm(cursor, index), len, None)
    } else {
        halted(cursor, Some(SyncStatus::PushFailed { index }))
    }
}

/// What the engine makes of the relay's answer to `GET /state`.
pub open spec fn state_view(len: nat, cursor: Option<u64>, status: u16, body: Seq<u8>) -> StepView {
    if !is_success(status) {
        halted(cursor, Some(SyncStatus::StateFailed))
    } else {
        match decode_count(body) {
            None => halted(cursor, Some(SyncStatus::StateFailed)),
            Some(remote) => if next_unconfirmed(cursor) != len {
                halted(cursor, None)
            } else if len < remote {
                StepView {
                    phase: SyncPhase::Pulling { index: len as u64, remote_len: remote },
                    cursor,
                    status: Some(SyncStatus::Downloading { index: len as u64 }),
                    request: Some(RequestView::GetMutation { index: len as u64 }),
                    appended: None,
                }
            } else if len == remote {
                halted(
                    cursor,
                    Some(SyncStatus::FullySynchronized { local: len as u64, remote }),
                )
            } else {
                halted(cursor, None)
            },
        }
    }
}

/// What the engine makes of the relay's answer to `GET /mutation` at the
/// index right behind the journal.
pub open spec fn pull_view(
    secret: Seq<u8>,
    log: Seq<TransactionView>,
    cursor: Option<u64>,
    index: u64,
    remote_len: u64,
    status: u16,
    body: Seq<u8>,
) -> StepView {
    if !is_success(status) {
        halted(cursor, Some(SyncStatus::DownloadFailed { index }))
    } else {
        match decode_mutation(body) {
            None => halted(cursor, Some(SyncStatus::DecryptFailure(EnvelopeError::Malformed))),
            Some(m) => match open_envelope(secret, m) {
                Err(e) => halted(cursor, Some(SyncStatus::DecryptFailure(e))),
                Ok((tx, at)) => match append_check(log, tx) {
                    Err(e) => halted(cursor, Some(SyncStatus::ChainBreak(e))),
                    Ok(()) => {
                        let confirmed = confirm(cursor, tx.index);
                        let len = log.len() + 1;
                        if len < remote_len {
                            StepView {
                                phase: SyncPhase::Pulling { index: len as u64, remote_len },
                                cursor: confirmed,
                                status: Some(SyncStatus::Downloading { index: len as u64 }),
                                request: Some(RequestView::GetMutation { index: len as u64 }),
                                appended: Some(tx),
                            }
                        } else if len == remote_len {
                            StepView {
                                phase: SyncPhase::Idle,
                                cursor: confirmed,
                                status: Some(
                                    SyncStatus::FullySynchronized {
                                        local: len as u64,
                                        remote: remote_len,
                                    },
                                ),
                                request: None,
                                appended: Some(tx),
                            }
                        } else {
                            StepView {
                                phase: SyncPhase::Idle,
                                cursor: confirmed,
                                status: None,
                                request: None,
                                appended: Some(tx),
                            }
                        }
                    },
                },
            },
        }
    }
}

/// What the engine makes of an answer, by the phase in which the answer
/// finds it. An answer that nobody asked for is let go.
pub open spec fn reply_view(
    phase: SyncPhase,
    secret: Seq<u8>,
    log: Seq<TransactionView>,
    cursor: Option<u64>,
    status: u16,
    body: Seq<u8>,
    salt: Seq<u8>,
) -> StepView {
    match phase {
        SyncPhase::Idle => halted(cursor, None),
        SyncPhase::Comparing { index } => compare_view(
            secret,
            log,
            cursor,
            index,
            status,
            body,
            salt,
        ),
        SyncPhase::Posting { index } => post_view(log.len(), cursor, index, status),
        SyncPhase::AwaitingState => state_view(log.len(), cursor, status, body),
        SyncPhase::Pulling { index, remote_len } => pull_view(
            secret,
            log,
            cursor,
            index,
            remote_len,
            status,
            body,
        ),
    }
}

/// What holds of every answer the engine takes, whatever salt it draws:
/// the step is the one [`reply_view`] gives for some salt, the cloud keeps
/// its secret and metadata, its journal grows by what the step appended
/// and is chained as before: every transaction names the hash of the one
/// before it,
/// the cursor does not move back and stays within the journal, and full
/// synchronization is reported only where journal and relay are level and
/// everything is confirmed.
pub open spec fn replied(
    before: &RemoteCloud,
    cloud_before: &Cloud,
    status: u16,
    body: Seq<u8>,
    step: SyncStep,
    after: &RemoteCloud,
    cloud_after: &Cloud,
) -> bool {
    &&& cloud_after.wf()
    &&& chained(cloud_after.journal().log())
    &&& cloud_after.secret() == cloud_before.secret()
    &&& cloud_after.metadata_view() == cloud_before.metadata_view()
    &&& after.within(cloud_after)
    &&& cursor_leq(before.cursor(), after.cursor())
    &&& before.phase_view() matches SyncPhase::Comparing { index } ==> post_will_be_taken(
        cloud_before.secret(),
        index,
        step.request,
    )
    &&& exists|salt: Seq<u8>|
        {
            let view = #[trigger] reply_view(
                before.phase_view(),
                cloud_before.secret(),
                cloud_before.journal().log(),
                before.cursor(),
                status,
                body,
                salt,
            );
            &&& after.stands_as(step, view, before)
            &&& cloud_after.journal().log() == log_after(cloud_before.journal().log(), view)
            &&& synchronized_means_equal(view, cloud_after.journal().log().len())
        }
}

/// The log after a step: with the transaction the step appended, if it
/// appended one.
pub open spec fn log_after(log: Seq<TransactionView>, step: StepView) -> Seq<TransactionView> {
    match step.appended {
        Some(tx) => log.push(tx),
        None => log,
    }
}

/// A step that reports full synchronization leaves journal and relay with
/// the same number of transactions, all of them confirmed.
pub open spec fn synchronized_means_equal(step: StepView, len_after: nat) -> bool {
    step.status matches Some(SyncStatus::FullySynchronized { local, remote }) ==> local == remote
        && local == len_after && next_unconfirmed(step.cursor) == len_after
}

/// No step of the engine moves the cursor back, none moves it beyond the
/// journal, and none reports full synchronization unless journal and relay
/// are level and everything is confirmed.
pub proof fn lemma_steps_are_sound(
    secret: Seq<u8>,
    log: Seq<TransactionView>,
    cursor: Option<u64>,
    enabled: bool,
    index: u64,
    remote_len: u64,
    status: u16,
    body: Seq<u8>,
    salt: Seq<u8>,
)
    requires
        next_unconfirmed(cursor) <= log.len() <= u64::MAX,
    ensures
        step_is_sound(log, cursor, begin_view(enabled, cursor, log.len())),
        step_is_sound(log, cursor, compare_view(secret, log, cursor, index, status, body, salt)),
        step_is_sound(log, cursor, post_view(log.len(), cursor, index, status)),
        step_is_sound(log, cursor, state_view(log.len(), cursor, status, body)),
        step_is_sound(
            log,
            cursor,
            pull_view(secret, log, cursor, index, remote_len, status, body),
        ),
{
}

/// What [`lemma_steps_are_sound`] says of one step.
pub open spec fn step_is_sound(log: Seq<TransactionView>, cursor: Option<u64>, step: StepView) -> bool {
    let after = log_after(log, step);
    &&& cursor_leq(cursor, step.cursor)
    &&& next_unconfirmed(step.cursor) <= after.len()
    &&& synchronized_means_equal(step, after.len())
    &&& step.request is None <==> step.phase == SyncPhase::Idle
}

/// What the engine posts is what a relay takes that holds as many mutations
/// of the cloud as the posted one's index says and, where it holds any,
/// knows the cloud by its key.
pub open spec fn post_will_be_taken(secret: Seq<u8>, index: u64, request: Option<SyncRequest>) -> bool {
    request matches Some(SyncRequest::PostMutation { body }) ==> forall|known: Option<Seq<u8>>|
        (index > 0 ==> known == Some(mldsa_verifying_key(secret))) ==> #[trigger] mutate_status(
            index as nat,
            known,
            body@,
        ) == STATUS_ACCEPTED
}

/// A step that ends the tick.
fn halt(status: Option<SyncStatus>) -> (step: SyncStep)
    ensures
        step.status == status,
        step.request is None,
        !step.cloud_updated,
{
    SyncStep { status, request: None, cloud_updated: false }
}

/// Reads the count out of the body of a state answer.
pub fn read_count(body: &[u8]) -> (r: Option<u64>)
    ensures
        r == decode_count(body@),
{
    match get_u64(body, 0) {
        Some((count, next)) => {
            if next == body.len() {
                Some(count)
            } else {
                None
            }
        },
        None => None,
    }
}

/// The synchronization of one cloud with its relay: the address of the relay,
/// the cursor up to which device and relay are known to agree, and the place
/// where the current tick stands.
pub struct RemoteCloud {
    sync_state: CloudSyncState,
    phase: SyncPhase,
    last_keepalive: u64,
}

impl RemoteCloud {
    /// What the device remembers about this synchronization.
    pub closed spec fn state(&self) -> SyncStateView {
        self.sync_state@
    }

    /// Where the current tick stands.
    pub closed spec fn phase_view(&self) -> SyncPhase {
        self.phase
    }

    /// The second at which the notification channel was last kept alive.
    pub closed spec fn kept_alive_at(&self) -> u64 {
        self.last_keepalive
    }

    /// The cursor, for short.
    pub open spec fn cursor(&self) -> Option<u64> {
        self.state().latest_confirmed_index
    }

    /// The cursor does not point beyond the journal of `cloud`.
    pub open spec fn within(&self, cloud: &Cloud) -> bool {
        next_unconfirmed(self.cursor()) <= cloud.journal().log().len()
    }

    /// The engine and the request it names stand as the step says.
    pub open spec fn stands_as(&self, made: SyncStep, step: StepView, before: &RemoteCloud) -> bool {
        &&& self.phase_view() == step.phase
        &&& self.state() == (SyncStateView { latest_confirmed_index: step.cursor, ..before.state() })
        &&& made.status == step.status
        &&& match made.request {
            Some(request) => step.request == Some(request@),
            None => step.request is None,
        }
        &&& made.cloud_updated == step.appended is Some
    }

    /// The engine for a cloud whose journal holds `journal_len` transactions,
    /// from the state the device kept. A cursor that points beyond the
    /// journal says nothing about this journal and is let go.
    pub fn new(sync_state: CloudSyncState, journal_len: u64) -> (remote: RemoteCloud)
        ensures
            remote.phase_view() == SyncPhase::Idle,
            remote.state() == (SyncStateView {
                latest_confirmed_index: if next_unconfirmed(sync_state@.latest_confirmed_index)
                    <= journal_len {
                    sync_state@.latest_confirmed_index
                } else {
                    None
                },
                ..sync_state@
            }),
    {
        let mut sync_state = sync_state;
        match sync_state.latest_confirmed_index {
            Some(c) => {
                if c >= journal_len {
                    sync_state.latest_confirmed_index = None;
                }
            },
            None => {},
        }
        RemoteCloud { sync_state, phase: SyncPhase::Idle, last_keepalive: 0 }
    }

    /// Switches synchronization on or off. A tick that is under way is
    /// dropped when it is switched off.
    pub fn set_synchronization_enabled(&mut self, enabled: bool)
        ensures
            final(self).state() == (SyncStateView {
                synchronization_enabled: enabled,
                ..old(self).state()
            }),
            final(self).phase_view() == if enabled {
                old(self).phase_view()
            } else {
                SyncPhase::Idle
            },
    {
        self.sync_state.synchronization_enabled = enabled;
        if !enabled {
            self.phase = SyncPhase::Idle;
        }
    }

    /// Whether synchronization is switched on.
    pub fn synchronization_enabled(&self) -> (enabled: bool)
        ensures
            enabled == self.state().synchronization_enabled,
    {
        self.sync_state.synchronization_enabled
    }

    /// The index up to which device and relay are known to agree.
    pub fn latest_confirmed_index(&self) -> (index: Option<u64>)
        ensures
            index == self.cursor(),
    {
        self.sync_state.latest_confirmed_index
    }

    /// Where the relay answers requests.
    pub fn http_url(&self) -> (url: String)
        ensures
            url@ == self.state().http_url,
    {
        self.sync_state.http_url.clone()
    }

    /// Where the relay sends notifications.
    pub fn ws_url(&self) -> (url: String)
        ensures
            url@ == self.state().ws_url,
    {
        self.sync_state.ws_url.clone()
    }

    /// The bytes to keep on the device, so that the next start takes up
    /// where this one left off.
    pub fn write_sync_state(&self) -> (bytes: Vec<u8>)
        ensures
            bytes@ == encode_sync_state(self.state()),
            self.state().wf(),
    {
        self.sync_state.to_bytes()
    }

    /// What the device remembers about this synchronization.
    pub fn sync_state(&self) -> (state: &CloudSyncState)
        ensures
            state@ == self.state(),
    {
        &self.sync_state
    }

    /// Where the current tick stands.
    pub fn phase(&self) -> (phase: SyncPhase)
        ensures
            phase == self.phase_view(),
    {
        self.phase
    }

    /// Says whether the notification channel is due for a keepalive at the
    /// second `now`: more than twenty seconds after the last one. If it is,
    /// `now` counts as the last one from here on.
    pub fn keepalive_due(&mut self, now: u64) -> (due: bool)
        ensures
            due == (now - old(self).kept_alive_at() > KEEPALIVE_SECONDS),
            final(self).kept_alive_at() == if due {
                now
            } else {
                old(self).kept_alive_at()
            },
            final(self).state() == old(self).state(),
            final(self).phase_view() == old(self).phase_view(),
    {
        if now > self.last_keepalive && now - self.last_keepalive > KEEPALIVE_SECONDS {
            self.last_keepalive = now;
            true
        } else {
            false
        }
    }

    /// The notification channel was opened anew at the second `now`.
    pub fn connected_at(&mut self, now: u64)
        ensures
            final(self).kept_alive_at() == now,
            final(self).state() == old(self).state(),
            final(self).phase_view() == old(self).phase_view(),
    {
        self.last_keepalive = now;
    }

    /// Says whether what the relay sent over the notification channel is
    /// news: a count of mutations beyond what the journal holds. News is a
    /// reason to tick, and nothing more.
    pub fn is_news(response: &Response, journal_len: u64) -> (news: bool)
        ensures
            news == (response@ matches ResponseView::CloudMutated(count, _) && count > journal_len),
    {
        match response {
            Response::CloudMutated(count, _) => *count > journal_len,
            _ => false,
        }
    }

    /// Moves the cursor to `index`, unless it is there or further already.
    /// Addresses and the switch stay as they are.
    fn set_latest_confirmed_index(&mut self, index: u64)
        ensures
            final(self).phase_view() == old(self).phase_view(),
            final(self).state() == (SyncStateView {
                latest_confirmed_index: confirm(old(self).cursor(), index),
                ..old(self).state()
            }),
    {
        let behind = match self.sync_state.latest_confirmed_index {
            Some(c) => c < index,
            None => true,
        };
        if behind {
            self.sync_state.latest_confirmed_index = Some(index);
        }
    }

    /// Goes on with the push: to the first unconfirmed transaction, if the
    /// journal has one, else to asking the relay for its count.
    fn advance_push(&mut self, journal_len: u64, status: Option<SyncStatus>) -> (step: SyncStep)
        requires
            next_unconfirmed(old(self).cursor()) <= journal_len,
        ensures
            final(self).stands_as(
                step,
                advance(old(self).cursor(), journal_len as nat, status),
                old(self),
            ),
    {
        let next: u64 = match self.sync_state.latest_confirmed_index {
            Some(c) => c + 1,
            None => 0,
        };
        if next < journal_len {
            self.phase = SyncPhase::Comparing { index: next };
            SyncStep {
                status,
                request: Some(SyncRequest::GetMutation { index: next }),
                cloud_updated: false,
            }
        } else {
            self.phase = SyncPhase::AwaitingState;
            SyncStep { status, request: Some(SyncRequest::GetState), cloud_updated: false }
        }
    }

    /// Begins a tick. Where synchronization is switched off the tick ends at
    /// once; else it names the first request.
    pub fn tick(&mut self, cloud: &Cloud) -> (step: SyncStep)
        requires
            cloud.wf(),
            old(self).within(cloud),
        ensures
            final(self).within(cloud),
            final(self).stands_as(
                step,
                begin_view(
                    old(self).state().synchronization_enabled,
                    old(self).cursor(),
                    cloud.journal().log().len(),
                ),
                old(self),
            ),
    {
        if !self.sync_state.synchronization_enabled {
            self.phase = SyncPhase::Idle;
            return halt(Some(SyncStatus::Disabled));
        }
        let len = cloud.db().journal_tx_len();
        self.advance_push(len, None)
    }

    /// The request failed before the relay answered: the tick ends, and the
    /// next one tries again.
    pub fn on_transport_error(&mut self) -> (step: SyncStep)
        ensures
            final(self).stands_as(
                step,
                halted(old(self).cursor(), Some(SyncStatus::TransportError)),
                old(self),
            ),
    {
        self.phase = SyncPhase::Idle;
        halt(Some(SyncStatus::TransportError))
    }

    /// Takes the relay's answer to `GET /mutation` at `index`, where the
    /// journal has a transaction of its own. A mutation that opens to a
    /// transaction with the same content hash confirms the index, and the
    /// push goes on; one that opens to another is a divergence. Where the
    /// relay has none, the local transaction is sealed with `salt` and sent.
    pub fn on_compare_reply(
        &mut self,
        cloud: &Cloud,
        index: u64,
        status: u16,
        body: &[u8],
        salt: [u8; 32],
    ) -> (step: SyncStep)
        requires
            cloud.wf(),
            old(self).within(cloud),
        ensures
            final(self).within(cloud),
            cursor_leq(old(self).cursor(), final(self).cursor()),
            final(self).stands_as(
                step,
                compare_view(
                    cloud.secret(),
                    cloud.journal().log(),
                    old(self).cursor(),
                    index,
                    status,
                    body@,
                    salt@,
                ),
                old(self),
            ),
            post_will_be_taken(cloud.secret(), index, step.request),
    {
        proof {
            cloud.lemma_wf_parts();
            cloud.journal().lemma_len_fits();
        }
        self.phase = SyncPhase::Idle;
        let len = cloud.db().journal_tx_len();
        let local = match cloud.db().journal_tx_by_index(index) {
            Some(tx) => tx,
            None => return halt(None),
        };
        if 200 <= status && status < 300 {
            let mutation = match Mutation::from_bytes(body) {
                Some(m) => m,
                None => return halt(Some(SyncStatus::DecryptFailure(EnvelopeError::Malformed))),
            };
            let (remote, at) = match cloud.decrypt_tx(mutation) {
                Ok(opened) => opened,
                Err(e) => return halt(Some(SyncStatus::DecryptFailure(e))),
            };
            if at != index {
                return halt(Some(SyncStatus::DecryptFailure(EnvelopeError::IndexMismatch)));
            }
            let remote_hash = remote.hash();
            let local_hash = local.hash();
            if bytes_eq(array_as_slice(&remote_hash), array_as_slice(&local_hash)) {
                self.set_latest_confirmed_index(index);
                self.advance_push(len, Some(SyncStatus::Confirmed { index, of: len }))
            } else {
                halt(Some(SyncStatus::Diverged { index }))
            }
        } else if status == 404 || status == 424 {
            match cloud.encrypt_tx_with_salt(&local, salt) {
                Err(_) => halt(Some(SyncStatus::PushFailed { index })),
                Ok(mutation) => {
                    self.phase = SyncPhase::Posting { index };
                    let body = mutation.to_bytes();
                    proof {
                        cloud.journal().lemma_indices_contiguous();
                        assert forall|known: Option<Seq<u8>>|
                            (index > 0 ==> known == Some(
                                mldsa_verifying_key(cloud.secret()),
                            )) implies #[trigger] mutate_status(index as nat, known, body@)
                            == STATUS_ACCEPTED by {
                            lemma_next_verified_is_taken(
                                mutation@,
                                mldsa_verifying_key(cloud.secret()),
                                index as nat,
                                known,
                            );
                        }
                    }
                    SyncStep {
                        status: Some(SyncStatus::Broadcasting { number: index + 1 }),
                        request: Some(SyncRequest::PostMutation { body }),
                        cloud_updated: false,
                    }
                },
            }
        } else {
            halt(Some(SyncStatus::TransportError))
        }
    }

    /// Takes the relay's answer to `POST /mutate` for the transaction at
    /// `index`. Taken, the index is confirmed and the push goes on; refused,
    /// the tick ends.
    pub fn on_post_reply(&mut self, cloud: &Cloud, index: u64, status: u16) -> (step: SyncStep)
        requires
            cloud.wf(),
            old(self).within(cloud),
        ensures
            final(self).within(cloud),
            cursor_leq(old(self).cursor(), final(self).cursor()),
            final(self).stands_as(
                step,
                post_view(cloud.journal().log().len(), old(self).cursor(), index, status),
                old(self),
            ),
    {
        self.phase = SyncPhase::Idle;
        let len = cloud.db().journal_tx_len();
        if index >= len {
            return halt(None);
        }
        if 200 <= status && status < 300 {
            self.set_latest_confirmed_index(index);
            self.advance_push(len, None)
        } else {
            halt(Some(SyncStatus::PushFailed { index }))
        }
    }

    /// Takes the relay's answer to `GET /state`. Where the relay holds more
    /// than the journal, the pull begins; where both hold the same and all of
    /// it is confirmed, the cloud is fully synchronized.
    pub fn on_state_reply(&mut self, cloud: &Cloud, status: u16, body: &[u8]) -> (step: SyncStep)
        requires
            cloud.wf(),
            old(self).within(cloud),
        ensures
            final(self).within(cloud),
            final(self).cursor() == old(self).cursor(),
            final(self).stands_as(
                step,
                state_view(cloud.journal().log().len(), old(self).cursor(), status, body@),
                old(self),
            ),
            synchronized_means_equal(
                state_view(cloud.journal().log().len(), old(self).cursor(), status, body@),
                cloud.journal().log().len(),
            ),
    {
        self.phase = SyncPhase::Idle;
        if !(200 <= status && status < 300) {
            return halt(Some(SyncStatus::StateFailed));
        }
        let remote = match read_count(body) {
            Some(count) => count,
            None => return halt(Some(SyncStatus::StateFailed)),
        };
        let len = cloud.db().journal_tx_len();
        let next: u64 = match self.sync_state.latest_confirmed_index {
            Some(c) => c + 1,
            None => 0,
        };
        if next != len {
            halt(None)
        } else if len < remote {
            self.phase = SyncPhase::Pulling { index: len, remote_len: remote };
            SyncStep {
                status: Some(SyncStatus::Downloading { index: len }),
                request: Some(SyncRequest::GetMutation { index: len }),
                cloud_updated: false,
            }
        } else if len == remote {
            halt(Some(SyncStatus::FullySynchronized { local: len, remote }))
        } else {
            halt(None)
        }
    }

    /// Takes the relay's answer to `GET /mutation` at the index right behind
    /// the journal. A mutation that opens and continues the chain is put
    /// into the journal and confirmed; then the pull goes on, or, with the
    /// relay's count reached, the cloud is fully synchronized. Anything else
    /// ends the tick and leaves the journal as it was.
    pub fn on_pull_reply(
        &mut self,
        cloud: &mut Cloud,
        index: u64,
        remote_len: u64,
        status: u16,
        body: &[u8],
    ) -> (step: SyncStep)
        requires
            old(cloud).wf(),
            old(self).within(old(cloud)),
        ensures
            final(cloud).wf(),
            chained(final(cloud).journal().log()),
            final(cloud).secret() == old(cloud).secret(),
            final(cloud).metadata_view() == old(cloud).metadata_view(),
            final(self).within(final(cloud)),
            cursor_leq(old(self).cursor(), final(self).cursor()),
            final(self).stands_as(
                step,
                pull_view(
                    old(cloud).secret(),
                    old(cloud).journal().log(),
                    old(self).cursor(),
                    index,
                    remote_len,
                    status,
                    body@,
                ),
                old(self),
            ),
            final(cloud).journal().log() == log_after(
                old(cloud).journal().log(),
                pull_view(
                    old(cloud).secret(),
                    old(cloud).journal().log(),
                    old(self).cursor(),
                    index,
                    remote_len,
                    status,
                    body@,
                ),
            ),
            synchronized_means_equal(
                pull_view(
                    old(cloud).secret(),
                    old(cloud).journal().log(),
                    old(self).cursor(),
                    index,
                    remote_len,
                    status,
                    body@,
                ),
                final(cloud).journal().log().len(),
            ),
    {
        proof {
            cloud.lemma_wf_parts();
            cloud.journal().lemma_len_fits();
        }
        self.phase = SyncPhase::Idle;
        if !(200 <= status && status < 300) {
            return halt(Some(SyncStatus::DownloadFailed { index }));
        }
        let mutation = match Mutation::from_bytes(body) {
            Some(m) => m,
            None => return halt(Some(SyncStatus::DecryptFailure(EnvelopeError::Malformed))),
        };
        let (tx, at) = match cloud.decrypt_tx(mutation) {
            Ok(opened) => opened,
            Err(e) => return halt(Some(SyncStatus::DecryptFailure(e))),
        };
        let confirmed = tx.index;
        match cloud.append_tx(tx) {
            Err(e) => return halt(Some(SyncStatus::ChainBreak(e))),
            Ok(()) => {},
        }
        proof {
            cloud.lemma_wf_parts();
            cloud.journal().lemma_len_fits();
        }
        self.set_latest_confirmed_index(confirmed);
        let len = cloud.db().journal_tx_len();
        if len < remote_len {
            self.phase = SyncPhase::Pulling { index: len, remote_len };
            SyncStep {
                status: Some(SyncStatus::Downloading { index: len }),
                request: Some(SyncRequest::GetMutation { index: len }),
                cloud_updated: true,
            }
        } else if len == remote_len {
            SyncStep {
                status: Some(SyncStatus::FullySynchronized { local: len, remote: remote_len }),
                request: None,
                cloud_updated: true,
            }
        } else {
            SyncStep { status: None, request: None, cloud_updated: true }
        }
    }

    /// Takes the relay's answer to the request that the last step named,
    /// whichever it was. `salt` is used where a local transaction has to be
    /// sealed.
    pub fn on_reply_with_salt(
        &mut self,
        cloud: &mut Cloud,
        status: u16,
        body: &[u8],
        salt: [u8; 32],
    ) -> (step: SyncStep)
        requires
            old(cloud).wf(),
            old(self).within(old(cloud)),
        ensures
            final(cloud).wf(),
            chained(final(cloud).journal().log()),
            final(cloud).secret() == old(cloud).secret(),
            final(cloud).metadata_view() == old(cloud).metadata_view(),
            final(self).within(final(cloud)),
            cursor_leq(old(self).cursor(), final(self).cursor()),
            old(self).phase_view() matches SyncPhase::Comparing { index } ==> post_will_be_taken(
                old(cloud).secret(),
                index,
                step.request,
            ),
            final(self).stands_as(
                step,
                reply_view(
                    old(self).phase_view(),
                    old(cloud).secret(),
                    old(cloud).journal().log(),
                    old(self).cursor(),
                    status,
                    body@,
                    salt@,
                ),
                old(self),
            ),
            final(cloud).journal().log() == log_after(
                old(cloud).journal().log(),
                reply_view(
                    old(self).phase_view(),
                    old(cloud).secret(),
                    old(cloud).journal().log(),
                    old(self).cursor(),
                    status,
                    body@,
                    salt@,
                ),
            ),
            synchronized_means_equal(
                reply_view(
                    old(self).phase_view(),
                    old(cloud).secret(),
                    old(cloud).journal().log(),
                    old(self).cursor(),
                    status,
                    body@,
                    salt@,
                ),
                final(cloud).journal().log().len(),
            ),
    {
        proof {
            cloud.lemma_wf_parts();
        }
        match self.phase {
            SyncPhase::Idle => halt(None),
            SyncPhase::Comparing { index } => self.on_compare_reply(
                cloud,
                index,
                status,
                body,
                salt,
            ),
            SyncPhase::Posting { index } => self.on_post_reply(cloud, index, status),
            SyncPhase::AwaitingState => self.on_state_reply(cloud, status, body),
            SyncPhase::Pulling { index, remote_len } => self.on_pull_reply(
                cloud,
                index,
                remote_len,
                status,
                body,
            ),
        }
    }

    /// Takes the relay's answer to the request that the last step named. A
    /// local transaction that has to be sealed is sealed under a salt drawn
    /// at random. Whatever the salt, the cursor does not move back and stays
    /// within the journal, the journal only grows, and full synchronization
    /// is reported only where journal and relay are level and everything is
    /// confirmed.
    pub fn on_reply(&mut self, cloud: &mut Cloud, status: u16, body: &[u8]) -> (step: SyncStep)
        requires
            old(cloud).wf(),
            old(self).within(old(cloud)),
        ensures
            replied(old(self), old(cloud), status, body@, step, final(self), final(cloud)),
    {
        let salt = random_bytes32();
        self.on_reply_with_salt(cloud, status, body, salt)
    }
}

} // verus!
