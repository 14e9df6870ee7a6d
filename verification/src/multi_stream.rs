//! State machine of a fully-established connection whose substreams are handled by the
//! transport, such as WebRTC.
//!
//! The transport opens and closes the streams and moves their bytes. The [`MultiStream`]
//! frames what goes through each of them (see [`crate::envelope`]), keeps the identifiers that
//! the upper layers know the substreams by, and queues the events to report.
//!
//! What happens inside a substream (negotiating a protocol, a request, notifications, pings) is
//! decided by one state machine per substream, which the user of the [`MultiStream`] owns and
//! runs. Wherever one of them has something to do, the [`MultiStream`] says so in what it
//! returns, and is told the outcome by the next call: see [`Step`].

use crate::envelope;
use crate::leb128;
use crate::read_write::ReadWrite;
use crate::table::{
    id_map_entries, id_map_get, id_map_insert, id_map_remove, id_map_with_capacity, IdMap, Table,
};
use std::collections::VecDeque;
use vstd::prelude::*;

verus! {

/// Number of queued events from which no substream is processed any further.
pub const MAX_PENDING_EVENTS: usize = 4;

/// Minimum space for writing below which no substream is processed: an envelope that holds
/// only a flag must always fit.
pub const MIN_OUTGOING_SPACE: usize = 6;

/// Space kept free in an envelope for everything but the data it carries.
pub const ENVELOPE_OVERHEAD: usize = 10;

/// Configuration of a [`MultiStream`].
pub struct Config {
    /// Seed of the randomness that the connection uses, for ping payloads among others.
    pub randomness_seed: [u8; 32],
    /// Number of substreams to allocate space for.
    pub substreams_capacity: usize,
    /// Maximum number of substreams that the remote can have open at once.
    pub max_inbound_substreams: usize,
    /// Maximum length in bytes of a protocol name that the remote can propose.
    pub max_protocol_name_len: usize,
    /// Name of the ping protocol.
    pub ping_protocol: String,
    /// Time between two outgoing pings.
    pub ping_interval: u64,
    /// Time after which an outgoing ping is considered failed.
    pub ping_timeout: u64,
    /// Moment of the first outgoing ping.
    pub first_out_ping: u64,
}

/// Which kind of connection a [`SubstreamId`] belongs to.
#[derive(Debug, Copy, Clone, PartialEq, Eq, Hash)]
pub enum SubstreamIdInner {
    /// Substream of a connection with a single stream multiplexed by the connection itself.
    SingleStream(u32),
    /// Substream of a connection whose substreams the transport handles.
    MultiStream(u32),
}

/// Identifier of a substream for the upper layers.
#[derive(Debug, Copy, Clone, PartialEq, Eq, Hash)]
pub struct SubstreamId(pub SubstreamIdInner);

impl SubstreamId {
    /// The number that a [`MultiStream`] knows the substream by, if it is one of its kind.
    pub open spec fn number(self) -> Option<u32> {
        match self.0 {
            SubstreamIdInner::MultiStream(n) => Some(n),
            SubstreamIdInner::SingleStream(_) => None,
        }
    }
}

/// Whether a substream should remain open or be killed.
#[derive(Debug, Copy, Clone, PartialEq, Eq, Hash)]
pub enum SubstreamFate {
    /// Substream remains open.
    Continue,
    /// Substream is now considered dead and has been removed from the state machine. Its
    /// identifier is now invalid.
    Reset,
}

/// Description of the state machine to create for a substream that was opened.
#[derive(Debug, PartialEq, Eq)]
pub enum Opening {
    /// Substream opened by the remote, which is going to propose a protocol.
    Ingoing { max_protocol_name_len: usize },
    /// Substream for outgoing pings, of the protocol [`MultiStream::ping_protocol`].
    PingOut,
    /// Substream that sends a request and waits for the response.
    RequestOut {
        protocol_name: String,
        timeout: u64,
        request: Option<Vec<u8>>,
        max_response_size: usize,
    },
    /// Substream that opens a stream of notifications.
    NotificationsOut {
        timeout: u64,
        protocol_name: String,
        handshake: Vec<u8>,
        max_handshake_size: usize,
    },
}

/// What a substream state machine reports. `TErr` is what it says of a failure, which is
/// handed on unchanged.
#[derive(Debug, PartialEq, Eq)]
pub enum SubstreamEvent<TErr> {
    InboundError { error: TErr, was_accepted: bool },
    InboundNegotiated(String),
    InboundNegotiatedCancel,
    RequestIn { request: Vec<u8> },
    Response { response: Result<Vec<u8>, TErr> },
    NotificationsInOpen { handshake: Vec<u8> },
    NotificationsInOpenCancel,
    NotificationIn { notification: Vec<u8> },
    NotificationsInClose { outcome: Result<(), TErr> },
    NotificationsOutResult { result: Result<(), TErr> },
    NotificationsOutCloseDemanded,
    NotificationsOutReset,
    PingOutSuccess,
    PingOutError { num_pings: usize },
}

/// Event that happened on the connection.
#[derive(Debug, PartialEq, Eq)]
pub enum Event<TSubUd, TErr> {
    /// A substream opened by the remote failed before it was accepted.
    InboundError(TErr),
    /// The remote proposes a protocol on a substream that it opened.
    InboundNegotiated { id: SubstreamId, protocol_name: String },
    /// A substream opened by the remote was closed after it had been accepted.
    InboundAcceptedCancel { id: SubstreamId, user_data: TSubUd },
    /// The remote sent a request.
    RequestIn { id: SubstreamId, request: Vec<u8> },
    /// The remote answered a request, or the request failed.
    Response { id: SubstreamId, response: Result<Vec<u8>, TErr>, user_data: TSubUd },
    /// The remote wants to open a stream of notifications.
    NotificationsInOpen { id: SubstreamId, handshake: Vec<u8> },
    /// The remote gave up opening a stream of notifications.
    NotificationsInOpenCancel { id: SubstreamId },
    /// The remote sent a notification.
    NotificationIn { id: SubstreamId, notification: Vec<u8> },
    /// The remote closed a stream of notifications that it had opened.
    NotificationsInClose { id: SubstreamId, outcome: Result<(), TErr>, user_data: TSubUd },
    /// The remote accepted or refused a stream of notifications.
    NotificationsOutResult { id: SubstreamId, result: Result<(), (TErr, TSubUd)> },
    /// The remote asks for a stream of notifications to be closed.
    NotificationsOutCloseDemanded { id: SubstreamId },
    /// The remote closed a stream of notifications opened locally.
    NotificationsOutReset { id: SubstreamId, user_data: TSubUd },
    /// An outgoing ping was answered.
    PingOutSuccess,
    /// One or more outgoing pings failed.
    PingOutFailed,
}

/// What a substream is waiting for from its state machine.
#[derive(Debug, Copy, Clone, PartialEq, Eq)]
pub enum Awaiting {
    /// Nothing: the substream can be read and written.
    Idle,
    /// The outcome of reading and writing. `offered` is the number of bytes that the state
    /// machine was given to read, and `progress` whether the step that led here changed
    /// anything already.
    ReadWrite { offered: usize, progress: bool },
    /// What the state machine reports when reset.
    Reset,
}

/// State of one substream.
pub struct Substream<TSubUd> {
    /// Number that the upper layers know the substream by.
    pub id: u32,
    /// Opaque data decided by the user. `None` if the substream does not exist for the upper
    /// layers yet, or not anymore.
    pub user_data: Option<TSubUd>,
    /// `false` once the state machine of the substream is gone.
    pub inner_alive: bool,
    /// Data received and not yet discarded: the envelope being processed, and what follows it.
    pub read_buffer: Vec<u8>,
    /// Number of bytes of the data in the first envelope of `read_buffer` that the state
    /// machine has processed.
    pub read_buffer_partial_read: usize,
    /// `true` once the remote has announced that it sends no more data.
    pub remote_writing_side_closed: bool,
    /// `true` once the remote was told that no more data follows.
    pub local_writing_side_closed: bool,
    /// What the substream is waiting for.
    pub awaiting: Awaiting,
}

/// Value of a [`Substream`].
pub struct SubstreamView<TSubUd> {
    pub id: u32,
    pub user_data: Option<TSubUd>,
    pub inner_alive: bool,
    pub read_buffer: Seq<u8>,
    pub read_buffer_partial_read: nat,
    pub remote_writing_side_closed: bool,
    pub local_writing_side_closed: bool,
    pub awaiting: Awaiting,
}

impl<TSubUd> View for Substream<TSubUd> {
    type V = SubstreamView<TSubUd>;

    open spec fn view(&self) -> SubstreamView<TSubUd> {
        SubstreamView {
            id: self.id,
            user_data: self.user_data,
            inner_alive: self.inner_alive,
            read_buffer: self.read_buffer@,
            read_buffer_partial_read: self.read_buffer_partial_read as nat,
            remote_writing_side_closed: self.remote_writing_side_closed,
            local_writing_side_closed: self.local_writing_side_closed,
            awaiting: self.awaiting,
        }
    }
}

/// A substream that was just opened, with the number `id`.
pub open spec fn fresh_substream<TSubUd>(id: u32, user_data: Option<TSubUd>) -> SubstreamView<
    TSubUd,
> {
    SubstreamView {
        id,
        user_data,
        inner_alive: true,
        read_buffer: Seq::empty(),
        read_buffer_partial_read: 0,
        remote_writing_side_closed: false,
        local_writing_side_closed: false,
        awaiting: Awaiting::Idle,
    }
}

/// Outgoing substream that the transport has yet to open.
pub struct Desired<TSubUd> {
    /// Number that the upper layers know the substream by.
    pub id: u32,
    /// Opaque data decided by the user.
    pub user_data: TSubUd,
    /// State machine to create once the substream is open.
    pub opening: Opening,
}

/// `rand_chacha::ChaCha20Rng`, of which nothing is known.
#[verifier::external_type_specification]
#[verifier::external_body]
pub struct ExChaCha20Rng(rand_chacha::ChaCha20Rng);

/// `rand_chacha::ChaCha20Rng::from_seed`: a generator whose output depends on the seed alone.
#[verifier::external_body]
fn rng_from_seed(seed: [u8; 32]) -> rand_chacha::ChaCha20Rng {
    rand::SeedableRng::from_seed(seed)
}

/// `rand::Rng::sample` of the standard distribution: sixteen bytes drawn from the generator.
#[verifier::external_body]
fn rng_sample_key(rng: &mut rand_chacha::ChaCha20Rng) -> [u8; 16] {
    rand::Rng::sample(rng, rand::distributions::Standard)
}

/// `rand::Rng::sample` of the standard distribution: thirty-two bytes drawn from the
/// generator.
#[verifier::external_body]
fn rng_sample_payload(rng: &mut rand_chacha::ChaCha20Rng) -> [u8; 32] {
    rand::Rng::sample(rng, rand::distributions::Standard)
}

/// State machine of a fully-established connection where substreams are handled externally.
pub struct MultiStream<TSubUd, TErr> {
    /// Events that should be yielded from [`MultiStream::pull_event`].
    pending_events: VecDeque<Event<TSubUd, TErr>>,
    /// All open substreams, both inbound and outbound, by the identifier that the transport
    /// gave them.
    in_substreams: Table<Substream<TSubUd>>,
    /// For the number of each open substream, the identifier that the transport gave it.
    out_in_substreams_map: IdMap,
    /// Number of the next substream.
    next_out_substream_id: u32,
    /// Outgoing substreams that are not opened yet. Does not include the ping substream.
    desired_out_substreams: VecDeque<Desired<TSubUd>>,
    /// Substream used for outgoing pings, once there is one.
    ping_substream: Option<u64>,
    /// When to start the next ping attempt.
    next_ping: u64,
    /// Source of randomness to generate ping payloads.
    ping_payload_randomness: rand_chacha::ChaCha20Rng,
    /// See [`Config::max_inbound_substreams`].
    max_inbound_substreams: usize,
    /// See [`Config::max_protocol_name_len`].
    max_protocol_name_len: usize,
    /// See [`Config::ping_protocol`].
    ping_protocol: String,
    /// See [`Config::ping_interval`].
    ping_interval: u64,
    /// See [`Config::ping_timeout`].
    ping_timeout: u64,
}

/// What [`MultiStream::add_substream`] did with a substream.
#[derive(Debug, PartialEq, Eq)]
pub struct Added {
    /// [`SubstreamFate::Reset`] if the substream was not taken in and should be reset.
    pub fate: SubstreamFate,
    /// State machine to create for the substream, if it was taken in.
    pub opening: Option<Opening>,
}

/// Number of outbound substreams wanted for a queue of `queued` and a ping substream that is
/// absent or not.
pub open spec fn desired_count(queued: nat, ping_absent: bool) -> nat {
    let wanted = queued + if ping_absent {
        1nat
    } else {
        0nat
    };
    if wanted > u32::MAX {
        u32::MAX as nat
    } else {
        wanted
    }
}

/// Whether reporting `event` takes the user data of the substream away.
pub open spec fn takes_user_data<TErr>(event: SubstreamEvent<TErr>) -> bool {
    match event {
        SubstreamEvent::InboundError { error, was_accepted } => was_accepted,
        SubstreamEvent::InboundNegotiatedCancel => true,
        SubstreamEvent::Response { response } => true,
        SubstreamEvent::NotificationsInClose { outcome } => true,
        SubstreamEvent::NotificationsOutResult { result } => result is Err,
        SubstreamEvent::NotificationsOutReset => true,
        _ => false,
    }
}

/// The event of the connection that stands for `event`, reported by the state machine of
/// the substream with the number `number` and the user data `user_data`.
pub open spec fn as_event<TSubUd, TErr>(
    event: SubstreamEvent<TErr>,
    number: u32,
    user_data: Option<TSubUd>,
) -> Event<TSubUd, TErr> {
    let id = SubstreamId(SubstreamIdInner::MultiStream(number));
    match event {
        SubstreamEvent::InboundError { error, was_accepted } => if was_accepted {
            Event::InboundAcceptedCancel { id, user_data: user_data.unwrap() }
        } else {
            Event::InboundError(error)
        },
        SubstreamEvent::InboundNegotiated(protocol_name) => Event::InboundNegotiated {
            id,
            protocol_name,
        },
        SubstreamEvent::InboundNegotiatedCancel => Event::InboundAcceptedCancel {
            id,
            user_data: user_data.unwrap(),
        },
        SubstreamEvent::RequestIn { request } => Event::RequestIn { id, request },
        SubstreamEvent::Response { response } => Event::Response {
            id,
            response,
            user_data: user_data.unwrap(),
        },
        SubstreamEvent::NotificationsInOpen { handshake } => Event::NotificationsInOpen {
            id,
            handshake,
        },
        SubstreamEvent::NotificationsInOpenCancel => Event::NotificationsInOpenCancel { id },
        SubstreamEvent::NotificationIn { notification } => Event::NotificationIn {
            id,
            notification,
        },
        SubstreamEvent::NotificationsInClose { outcome } => Event::NotificationsInClose {
            id,
            outcome,
            user_data: user_data.unwrap(),
        },
        SubstreamEvent::NotificationsOutResult { result } => Event::NotificationsOutResult {
            id,
            result: match result {
                Ok(()) => Ok(()),
                Err(error) => Err((error, user_data.unwrap())),
            },
        },
        SubstreamEvent::NotificationsOutCloseDemanded => Event::NotificationsOutCloseDemanded {
            id,
        },
        SubstreamEvent::NotificationsOutReset => Event::NotificationsOutReset {
            id,
            user_data: user_data.unwrap(),
        },
        SubstreamEvent::PingOutSuccess => Event::PingOutSuccess,
        SubstreamEvent::PingOutError { num_pings } => Event::PingOutFailed,
    }
}

/// The user data that a substream is left with once `event` was reported.
pub open spec fn user_data_after<TSubUd, TErr>(
    event: SubstreamEvent<TErr>,
    user_data: Option<TSubUd>,
) -> Option<TSubUd> {
    if takes_user_data(event) {
        None
    } else {
        user_data
    }
}

/// The queue `events` once what a state machine reported, if anything, was added.
pub open spec fn with_reported<TSubUd, TErr>(
    events: Seq<Event<TSubUd, TErr>>,
    reported: Option<SubstreamEvent<TErr>>,
    number: u32,
    user_data: Option<TSubUd>,
) -> Seq<Event<TSubUd, TErr>> {
    match reported {
        Some(event) => events.push(as_event(event, number, user_data)),
        None => events,
    }
}

/// Turns what a substream state machine reported into an event of the connection and adds it
/// to the queue.
pub fn on_substream_event<TSubUd, TErr>(
    pending_events: &mut VecDeque<Event<TSubUd, TErr>>,
    substream_id: u32,
    substream_user_data: &mut Option<TSubUd>,
    event: SubstreamEvent<TErr>,
)
    requires
        takes_user_data(event) ==> *old(substream_user_data) is Some,
    ensures
        final(pending_events)@ == old(pending_events)@.push(
            as_event(event, substream_id, *old(substream_user_data)),
        ),
        *final(substream_user_data) == user_data_after(event, *old(substream_user_data)),
{
    let id = SubstreamId(SubstreamIdInner::MultiStream(substream_id));
    let queued = match event {
        SubstreamEvent::InboundError { error, was_accepted } => {
            if was_accepted {
                match substream_user_data.take() {
                    Some(user_data) => Event::InboundAcceptedCancel { id, user_data },
                    None => vstd::pervasive::unreached(),
                }
            } else {
                Event::InboundError(error)
            }
        },
        SubstreamEvent::InboundNegotiated(protocol_name) => Event::InboundNegotiated {
            id,
            protocol_name,
        },
        SubstreamEvent::InboundNegotiatedCancel => {
            match substream_user_data.take() {
                Some(user_data) => Event::InboundAcceptedCancel { id, user_data },
                None => vstd::pervasive::unreached(),
            }
        },
        SubstreamEvent::RequestIn { request } => Event::RequestIn { id, request },
        SubstreamEvent::Response { response } => {
            match substream_user_data.take() {
                Some(user_data) => Event::Response { id, response, user_data },
                None => vstd::pervasive::unreached(),
            }
        },
        SubstreamEvent::NotificationsInOpen { handshake } => Event::NotificationsInOpen {
            id,
            handshake,
        },
        SubstreamEvent::NotificationsInOpenCancel => Event::NotificationsInOpenCancel { id },
        SubstreamEvent::NotificationIn { notification } => Event::NotificationIn {
            id,
            notification,
        },
        SubstreamEvent::NotificationsInClose { outcome } => {
            match substream_user_data.take() {
                Some(user_data) => Event::NotificationsInClose { id, outcome, user_data },
                None => vstd::pervasive::unreached(),
            }
        },
        SubstreamEvent::NotificationsOutResult { result } => {
            match result {
                Ok(()) => Event::NotificationsOutResult { id, result: Ok(()) },
                Err(error) => match substream_user_data.take() {
                    Some(user_data) => Event::NotificationsOutResult {
                        id,
                        result: Err((error, user_data)),
                    },
                    None => vstd::pervasive::unreached(),
                },
            }
        },
        SubstreamEvent::NotificationsOutCloseDemanded => Event::NotificationsOutCloseDemanded {
            id,
        },
        SubstreamEvent::NotificationsOutReset => {
            match substream_user_data.take() {
                Some(user_data) => Event::NotificationsOutReset { id, user_data },
                None => vstd::pervasive::unreached(),
            }
        },
        SubstreamEvent::PingOutSuccess => Event::PingOutSuccess,
        // One report becomes one event, however many failed pings it counts: nobody has
        // asked for each of them.
        SubstreamEvent::PingOutError { num_pings } => Event::PingOutFailed,
    };
    pending_events.push_back(queued);
}


/// Number of bytes that the state machine of a substream was given to read and has yet to
/// answer for.
pub open spec fn offered(awaiting: Awaiting) -> nat {
    match awaiting {
        Awaiting::ReadWrite { offered, progress } => offered as nat,
        _ => 0,
    }
}

/// Where a substream stands once the data that the transport received was taken in.
pub struct Intake {
    /// Data received and not yet discarded.
    pub read_buffer: Seq<u8>,
    /// Number of bytes taken from the transport.
    pub taken: nat,
    /// Number of bytes of the data in the first envelope that were processed.
    pub partial_read: nat,
    /// Whether the remote has announced that it sends no more data.
    pub remote_closed: bool,
    /// Data of the first envelope that the state machine has yet to process. `None` if the
    /// substream must be reset, because the remote asked for it or sent something that is no
    /// envelope.
    pub message: Option<Seq<u8>>,
}

/// The smaller of two numbers.
pub open spec fn smaller(a: nat, b: nat) -> nat {
    if a < b {
        a
    } else {
        b
    }
}

/// Takes in the data `unread` received by the transport, on a substream that holds `buffer`.
///
/// As much data as fits goes to the buffer. While the buffer starts with an envelope whose
/// data was processed entirely, the envelope is discarded and its flag obeyed, and more data is
/// taken in. `taken` is the number of bytes taken before.
pub open spec fn intake(
    buffer: Seq<u8>,
    unread: Seq<u8>,
    partial_read: nat,
    remote_closed: bool,
    taken: nat,
) -> Intake
    recommends
        buffer.len() <= envelope::MAX_FRAME_LEN,
    decreases buffer.len() + unread.len(),
{
    let n = smaller(unread.len(), (envelope::MAX_FRAME_LEN - buffer.len()) as nat);
    let filled = buffer.add(unread.take(n as int));
    let rest = unread.skip(n as int);
    match envelope::parse(filled) {
        envelope::Parsed::Invalid => Intake {
            read_buffer: filled,
            taken: taken + n,
            partial_read,
            remote_closed,
            message: None,
        },
        envelope::Parsed::Incomplete => Intake {
            read_buffer: filled,
            taken: taken + n,
            partial_read,
            remote_closed,
            message: Some(Seq::empty()),
        },
        envelope::Parsed::Frame { frame_len, fields } => {
            proof {
                envelope::lemma_parse_bounds(filled);
            }
            let message = match fields.message {
                Some(m) => m,
                None => Seq::empty(),
            };
            if message.len() > partial_read {
                Intake {
                    read_buffer: filled,
                    taken: taken + n,
                    partial_read,
                    remote_closed,
                    message: Some(message.skip(partial_read as int)),
                }
            } else if fields.flags == Some(envelope::FLAG_RESET_STREAM) {
                Intake {
                    read_buffer: filled.skip(frame_len as int),
                    taken: taken + n,
                    partial_read: 0,
                    remote_closed: true,
                    message: None,
                }
            } else {
                intake(
                    filled.skip(frame_len as int),
                    rest,
                    0,
                    remote_closed || fields.flags == Some(envelope::FLAG_FIN),
                    taken + n,
                )
            }
        },
    }
}

/// What the state machine of a substream is asked to read and write.
#[derive(Debug, PartialEq, Eq)]
pub struct InnerReadWrite {
    /// Moment of the call.
    pub now: u64,
    /// Data to process. `None` if the remote has closed its writing side.
    pub incoming_buffer: Option<Vec<u8>>,
    /// Maximum number of bytes to write. `None` if the local writing side is closed.
    pub outgoing_capacity: Option<usize>,
}

/// What the state machine of a substream did when asked to read and write.
pub struct InnerOutcome<TErr> {
    /// `false` if the state machine is gone.
    pub alive: bool,
    /// Number of bytes that it processed.
    pub read_bytes: usize,
    /// What it wrote.
    pub written: Vec<u8>,
    /// Whether its writing side is closed now.
    pub write_closed: bool,
    /// If `Some`, when it wants to be called again at the latest.
    pub wake_up_after: Option<u64>,
    /// What it reported.
    pub event: Option<SubstreamEvent<TErr>>,
}

/// A ping to queue in the state machine of the ping substream.
#[derive(Debug, Copy, Clone, PartialEq, Eq)]
pub struct QueuePing {
    /// Payload of the ping.
    pub payload: [u8; 32],
    /// Moment after which the ping has failed.
    pub timeout: u64,
}

/// What is to be done next about a substream that is being read and written.
#[derive(Debug, PartialEq, Eq)]
pub enum Step {
    /// Nothing: the call is over.
    Done(SubstreamFate),
    /// The state machine of the substream has to read and write what is given here. Its
    /// outcome goes to [`MultiStream::substream_read_write_done`].
    ReadWrite(InnerReadWrite),
    /// The state machine of the substream has to be reset. What it reports then goes to
    /// [`MultiStream::reset_substream`], and the substream is dead.
    Reset,
    /// [`MultiStream::substream_read_write_resume`] has to be called.
    Again,
}

/// Maximum number of bytes that a substream may write when `available` bytes can be written
/// on the stream: what an envelope can carry, and fits.
pub open spec fn write_capacity(available: nat) -> nat {
    let capped = smaller(available, envelope::MAX_FRAME_LEN as nat);
    if capped < ENVELOPE_OVERHEAD {
        0
    } else {
        (capped - ENVELOPE_OVERHEAD) as nat
    }
}

/// The flag to send after a substream state machine has read and written: a reset if it is
/// gone while a side was still open, and a closing if it closed its writing side.
pub open spec fn flag_to_write(
    alive: bool,
    write_closed: bool,
    remote_closed: bool,
    local_closed: bool,
) -> Option<u64> {
    if !alive && (!remote_closed || !write_closed) {
        Some(envelope::FLAG_RESET_STREAM)
    } else if !local_closed && write_closed {
        Some(envelope::FLAG_FIN)
    } else {
        None
    }
}

/// What is sent after a substream state machine has written `written` and `flag` is to be
/// sent: one envelope, or nothing if there is neither data nor a flag.
pub open spec fn sent(flag: Option<u64>, written: Seq<u8>) -> Seq<u8> {
    if flag is Some || written.len() > 0 {
        envelope::envelope(
            envelope::Fields {
                flags: flag,
                message: if written.len() > 0 {
                    Some(written)
                } else {
                    None
                },
            },
        )
    } else {
        Seq::empty()
    }
}

/// What is sent after a substream state machine has read and written is one envelope within
/// the maximum size, from which the remote reads the flag and the data that were sent.
pub proof fn lemma_sent_reads_back(flag: Option<u64>, written: Seq<u8>)
    requires
        flag matches Some(f) ==> f < 128,
        written.len() <= envelope::MAX_FRAME_LEN - ENVELOPE_OVERHEAD,
        flag is Some || written.len() > 0,
    ensures
        sent(flag, written).len() <= envelope::MAX_FRAME_LEN,
        envelope::parse(sent(flag, written)) == (envelope::Parsed::Frame {
            frame_len: sent(flag, written).len(),
            fields: envelope::Fields {
                flags: flag,
                message: if written.len() > 0 {
                    Some(written)
                } else {
                    None
                },
            },
        }),
{
    let fields = envelope::Fields {
        flags: flag,
        message: if written.len() > 0 {
            Some(written)
        } else {
            None
        },
    };
    envelope::lemma_envelope_len(fields);
    envelope::lemma_parse_envelope(fields, Seq::empty());
    assert(envelope::envelope(fields).add(Seq::empty()) =~= envelope::envelope(fields));
}

/// What a substream state machine writes within the capacity that it is given makes an
/// envelope that fits in the space of the stream, and is no longer than the maximum.
pub proof fn lemma_sent_fits(flag: Option<u64>, written: Seq<u8>, available: nat)
    requires
        flag matches Some(f) ==> f < 128,
        available >= MIN_OUTGOING_SPACE,
        written.len() <= write_capacity(available),
    ensures
        sent(flag, written).len() <= smaller(available, envelope::MAX_FRAME_LEN as nat),
{
    if flag is Some || written.len() > 0 {
        envelope::lemma_envelope_len(
            envelope::Fields {
                flags: flag,
                message: if written.len() > 0 {
                    Some(written)
                } else {
                    None
                },
            },
        );
    }
}

/// Whatever the transport has received, taking it in leaves no more in the buffer of the
/// substream than an envelope can occupy, takes as much as fits in the buffer at first, and
/// never takes more than was received.
pub proof fn lemma_intake_bounds(
    buffer: Seq<u8>,
    unread: Seq<u8>,
    partial_read: nat,
    remote_closed: bool,
    taken: nat,
)
    requires
        buffer.len() <= envelope::MAX_FRAME_LEN,
    ensures
        intake(buffer, unread, partial_read, remote_closed, taken).read_buffer.len()
            <= envelope::MAX_FRAME_LEN,
        intake(buffer, unread, partial_read, remote_closed, taken).taken <= taken + unread.len(),
        intake(buffer, unread, partial_read, remote_closed, taken).taken >= taken + smaller(
            unread.len(),
            (envelope::MAX_FRAME_LEN - buffer.len()) as nat,
        ),
    decreases buffer.len() + unread.len(),
{
    let n = smaller(unread.len(), (envelope::MAX_FRAME_LEN - buffer.len()) as nat);
    let filled = buffer.add(unread.take(n as int));
    let rest = unread.skip(n as int);
    envelope::lemma_parse_bounds(filled);
    match envelope::parse(filled) {
        envelope::Parsed::Frame { frame_len, fields } => {
            let message = match fields.message {
                Some(m) => m,
                None => Seq::empty(),
            };
            if message.len() <= partial_read && fields.flags != Some(
                envelope::FLAG_RESET_STREAM,
            ) {
                lemma_intake_bounds(
                    filled.skip(frame_len as int),
                    rest,
                    0,
                    remote_closed || fields.flags == Some(envelope::FLAG_FIN),
                    taken + n,
                );
            }
        },
        _ => {},
    }
}

/// An envelope within the maximum size that holds data, received on a substream whose buffer
/// is empty, is taken in as far as the buffer goes, and its data is what the state machine of
/// the substream is given to process. An envelope of exactly the maximum size is no exception.
pub proof fn lemma_intake_envelope(fields: envelope::Fields, rest: Seq<u8>, remote_closed: bool)
    requires
        envelope::envelope(fields).len() <= envelope::MAX_FRAME_LEN,
        fields.message matches Some(m) && m.len() > 0,
    ensures
        intake(
            Seq::empty(),
            envelope::envelope(fields).add(rest),
            0,
            remote_closed,
            0,
        ) == (Intake {
            read_buffer: envelope::envelope(fields).add(rest).take(
                smaller(
                    envelope::envelope(fields).len() + rest.len(),
                    envelope::MAX_FRAME_LEN as nat,
                ) as int,
            ),
            taken: smaller(
                envelope::envelope(fields).len() + rest.len(),
                envelope::MAX_FRAME_LEN as nat,
            ),
            partial_read: 0,
            remote_closed,
            message: fields.message,
        }),
{
    let whole = envelope::envelope(fields);
    let unread = whole.add(rest);
    let n = smaller(unread.len(), envelope::MAX_FRAME_LEN as nat);
    let filled = Seq::<u8>::empty().add(unread.take(n as int));
    let tail = rest.take(n - whole.len());
    assert(filled =~= whole.add(tail));
    assert(filled =~= unread.take(n as int));
    envelope::lemma_parse_envelope(fields, tail);
    let m = fields.message.unwrap();
    assert(m.skip(0) =~= m);
}

/// Bytes that start with an envelope beyond the maximum size, received on a substream whose
/// buffer is empty, make the substream one to reset.
pub proof fn lemma_intake_oversized(fields: envelope::Fields, rest: Seq<u8>, remote_closed: bool)
    requires
        envelope::envelope(fields).len() > envelope::MAX_FRAME_LEN,
        envelope::body(fields).len() <= u64::MAX,
    ensures
        intake(
            Seq::empty(),
            envelope::envelope(fields).add(rest),
            0,
            remote_closed,
            0,
        ).message is None,
{
    let b = envelope::body(fields);
    let prefix = leb128::encode(b.len());
    let unread = envelope::envelope(fields).add(rest);
    let n = smaller(unread.len(), envelope::MAX_FRAME_LEN as nat);
    let filled = Seq::<u8>::empty().add(unread.take(n as int));
    leb128::lemma_encode_len(b.len(), 0);
    let tail = b.add(rest).take(n - prefix.len());
    assert(filled =~= prefix.add(tail));
    leb128::lemma_parse_encode(b.len(), tail);
}

/// The earlier of the wake-up moment `current` and the moment `wanted`, if one is wanted.
pub open spec fn woken(current: Option<u64>, wanted: Option<u64>) -> Option<u64> {
    match wanted {
        Some(after) => ReadWrite::earlier(current, after),
        None => current,
    }
}

/// Appends the bytes `from..to` of `source` to `out`.
fn append_range(out: &mut Vec<u8>, source: &Vec<u8>, from: usize, to: usize)
    requires
        from <= to <= source@.len(),
    ensures
        final(out)@ == old(out)@.add(source@.subrange(from as int, to as int)),
{
    let part = vstd::slice::slice_subrange(source.as_slice(), from, to);
    envelope::append_bytes(out, part);
}


impl<TSubUd, TErr> MultiStream<TSubUd, TErr> {
    /// The open substreams, by the identifier that the transport gave them.
    pub closed spec fn substreams(&self) -> Map<u64, SubstreamView<TSubUd>> {
        self.in_substreams@.map_values(|s: Substream<TSubUd>| s@)
    }

    /// For the number of each open substream, the identifier that the transport gave it.
    pub closed spec fn ids(&self) -> Map<u32, u64> {
        Map::new(
            |n: u32| id_map_entries(self.out_in_substreams_map).contains_key(n as u64),
            |n: u32| id_map_entries(self.out_in_substreams_map)[n as u64],
        )
    }

    /// The events that were queued and not pulled yet, oldest first.
    pub closed spec fn events(&self) -> Seq<Event<TSubUd, TErr>> {
        self.pending_events@
    }

    /// The outgoing substreams that the transport has yet to open, oldest first.
    pub closed spec fn desired(&self) -> Seq<Desired<TSubUd>> {
        self.desired_out_substreams@
    }

    /// The substream used for outgoing pings.
    pub closed spec fn ping(&self) -> Option<u64> {
        self.ping_substream
    }

    /// Moment of the next outgoing ping.
    pub closed spec fn next_ping_at(&self) -> u64 {
        self.next_ping
    }

    /// Number of the next substream.
    pub closed spec fn next_id(&self) -> u32 {
        self.next_out_substream_id
    }

    /// Time between two outgoing pings.
    pub closed spec fn interval(&self) -> u64 {
        self.ping_interval
    }

    /// Time after which an outgoing ping is considered failed.
    pub closed spec fn timeout(&self) -> u64 {
        self.ping_timeout
    }

    /// Maximum length of the protocol names that the remote can propose.
    pub closed spec fn name_len(&self) -> usize {
        self.max_protocol_name_len
    }

    /// Name of the ping protocol.
    pub closed spec fn ping_name(&self) -> String {
        self.ping_protocol
    }

    /// What always holds of a connection.
    ///
    /// Whether the table of the substreams is in order.
    pub closed spec fn stored(&self) -> bool {
        self.in_substreams.wf()
    }

    /// The two tables of substreams mirror each other: the number of each open substream leads
    /// to the identifier of that substream, and to no other. No buffer holds more than an
    /// envelope of the maximum size. The numbers of the substreams to open are unused and all
    /// different, and the ping substream is open.
    pub open spec fn wf(&self) -> bool {
        &&& self.stored()
        &&& forall|t: u64| #[trigger]
            self.substreams().contains_key(t) ==> {
                let s = self.substreams()[t];
                &&& self.ids().contains_key(s.id)
                &&& self.ids()[s.id] == t
                &&& s.id < self.next_id()
                &&& s.read_buffer.len() <= envelope::MAX_FRAME_LEN
                &&& s.read_buffer_partial_read + offered(s.awaiting) <= envelope::MAX_FRAME_LEN
            }
        &&& forall|n: u32| #[trigger]
            self.ids().contains_key(n) ==> {
                &&& self.substreams().contains_key(self.ids()[n])
                &&& self.substreams()[self.ids()[n]].id == n
            }
        &&& forall|i: int|
            0 <= i < self.desired().len() ==> {
                &&& (#[trigger] self.desired()[i]).id < self.next_id()
                &&& !self.ids().contains_key(self.desired()[i].id)
            }
        &&& forall|i: int, j: int|
            0 <= i < j < self.desired().len() ==> (#[trigger] self.desired()[i]).id != (
            #[trigger] self.desired()[j]).id
        &&& self.ping() matches Some(p) ==> self.substreams().contains_key(p)
    }

    /// Creates a new connection from the given configuration.
    pub fn webrtc(config: Config) -> (connection: Self)
        ensures
            connection.wf(),
            forall|t: u64| !connection.substreams().contains_key(t),
            forall|n: u32| !connection.ids().contains_key(n),
            connection.events().len() == 0,
            connection.desired().len() == 0,
            connection.ping() is None,
            connection.next_id() == 0,
            connection.next_ping_at() == config.first_out_ping,
            connection.interval() == config.ping_interval,
            connection.timeout() == config.ping_timeout,
            connection.name_len() == config.max_protocol_name_len,
            connection.ping_name() == config.ping_protocol,
    {
        let mut randomness = rng_from_seed(config.randomness_seed);
        // The first sixteen bytes drawn are set aside for keying a table of substreams, so that
        // the ping payloads of a seed do not depend on how the substreams are stored.
        let _key = rng_sample_key(&mut randomness);
        let connection = MultiStream {
            pending_events: VecDeque::new(),
            in_substreams: Table::with_capacity(config.substreams_capacity),
            out_in_substreams_map: id_map_with_capacity(config.substreams_capacity),
            next_out_substream_id: 0,
            desired_out_substreams: VecDeque::new(),
            ping_substream: None,
            next_ping: config.first_out_ping,
            ping_payload_randomness: randomness,
            max_inbound_substreams: config.max_inbound_substreams,
            max_protocol_name_len: config.max_protocol_name_len,
            ping_protocol: config.ping_protocol,
            ping_interval: config.ping_interval,
            ping_timeout: config.ping_timeout,
        };
        connection
    }

    /// Returns whether a ping is to be sent if the substream `substream_id` is read and
    /// written at the moment `now`, and if so, whether the moment at which that ping has
    /// failed and the moment of the ping after it are moments that the clock can reach.
    pub fn ping_due(&self, substream_id: u64, now: u64) -> (due: Option<bool>)
        ensures
            due is Some <==> self.ping() == Some(substream_id) && now >= self.next_ping_at(),
            due matches Some(reachable) ==> reachable == (now + self.timeout() <= u64::MAX && now
                + self.interval() <= u64::MAX),
    {
        if self.ping_substream == Some(substream_id) && now >= self.next_ping {
            Some(now <= u64::MAX - self.ping_timeout && now <= u64::MAX - self.ping_interval)
        } else {
            None
        }
    }

    /// Returns the identifier that the transport gave the substream used for outgoing pings,
    /// or `None` if no such substream is open.
    pub fn ping_substream(&self) -> (id: Option<u64>)
        ensures
            id == self.ping(),
    {
        self.ping_substream
    }

    /// Returns the name of the ping protocol.
    pub fn ping_protocol(&self) -> (name: &String)
        ensures
            *name == self.ping_name(),
    {
        &self.ping_protocol
    }

    /// Removes an event from the queue of events and returns it.
    ///
    /// This method should be called after [`MultiStream::substream_read_write`] or
    /// [`MultiStream::reset_substream`] is called.
    pub fn pull_event(&mut self) -> (event: Option<Event<TSubUd, TErr>>)
        requires
            old(self).wf(),
        ensures
            final(self).wf(),
            final(self).substreams() == old(self).substreams(),
            final(self).ids() == old(self).ids(),
            final(self).desired() == old(self).desired(),
            final(self).ping() == old(self).ping(),
            final(self).next_ping_at() == old(self).next_ping_at(),
            final(self).next_id() == old(self).next_id(),
            final(self).interval() == old(self).interval(),
            final(self).timeout() == old(self).timeout(),
            final(self).name_len() == old(self).name_len(),
            final(self).ping_name() == old(self).ping_name(),
            old(self).events().len() == 0 ==> event is None && final(self).events() == old(
                self,
            ).events(),
            old(self).events().len() > 0 ==> event == Some(old(self).events()[0])
                && final(self).events() == old(self).events().skip(1),
    {
        let event = self.pending_events.pop_front();
        proof {
            if old(self).events().len() > 0 {
                assert(old(self).events().skip(1) =~= old(self).events().subrange(
                    1,
                    old(self).events().len() as int,
                ));
            }
        }
        event
    }

    /// Returns the number of new outbound substreams that the state machine would like to see
    /// opened.
    ///
    /// Note that the user is expected to track the number of substreams that are currently being
    /// opened. For example, if this function returns 2 and there are already 2 substreams
    /// currently being opened, then there is no need to open any additional one.
    pub fn desired_outbound_substreams(&self) -> (n: u32)
        ensures
            n == desired_count(self.desired().len(), self.ping() is None),
    {
        let queued: usize = self.desired_out_substreams.len();
        let base: u32 = if queued > u32::MAX as usize {
            u32::MAX
        } else {
            queued as u32
        };
        if self.ping_substream.is_none() {
            if base == u32::MAX {
                u32::MAX
            } else {
                base + 1
            }
        } else {
            base
        }
    }
}

impl<TSubUd, TErr> MultiStream<TSubUd, TErr> {
    /// Whether the settings of the connection and its ping schedule are those of `other`.
    pub open spec fn same_settings(&self, other: &Self) -> bool {
        &&& self.next_ping_at() == other.next_ping_at()
        &&& self.interval() == other.interval()
        &&& self.timeout() == other.timeout()
        &&& self.name_len() == other.name_len()
        &&& self.ping_name() == other.ping_name()
    }

    /// Whether `self` is `before` with one more substream, which the transport calls `id` and
    /// the upper layers `number`.
    pub open spec fn with_substream(
        &self,
        before: &Self,
        id: u64,
        number: u32,
        user_data: Option<TSubUd>,
    ) -> bool {
        &&& self.substreams() == before.substreams().insert(id, fresh_substream(number, user_data))
        &&& self.ids() == before.ids().insert(number, id)
        &&& self.events() == before.events()
        &&& self.same_settings(before)
    }

    /// Whether `self` is `before` without the substream that the transport calls `id`.
    pub open spec fn without_substream(&self, before: &Self, id: u64) -> bool {
        &&& self.substreams() == before.substreams().remove(id)
        &&& self.ids() == before.ids().remove(before.substreams()[id].id)
        &&& self.ping() == (if before.ping() == Some(id) {
            None
        } else {
            before.ping()
        })
        &&& self.desired() == before.desired()
        &&& self.next_id() == before.next_id()
        &&& self.same_settings(before)
    }

    /// Notifies the state machine that a new substream has been opened.
    ///
    /// `outbound` indicates whether the substream has been opened by the remote (`false`) or
    /// locally (`true`). A substream opened locally becomes the ping substream if there is
    /// none, and else the oldest of the substreams that the connection wants to open. If it
    /// wants none, the substream is not taken in and should be reset.
    ///
    /// The identifier must not be the one of a substream that is open already.
    pub fn add_substream(&mut self, id: u64, outbound: bool) -> (added: Added)
        requires
            old(self).wf(),
            !old(self).substreams().contains_key(id),
            !outbound || old(self).ping() is None ==> old(self).next_id() < u32::MAX,
        ensures
            final(self).wf(),
            !outbound ==> {
                &&& added.fate == SubstreamFate::Continue
                &&& added.opening == Some(
                    Opening::Ingoing { max_protocol_name_len: old(self).name_len() },
                )
                &&& final(self).with_substream(old(self), id, old(self).next_id(), None)
                &&& final(self).next_id() == old(self).next_id() + 1
                &&& final(self).ping() == old(self).ping()
                &&& final(self).desired() == old(self).desired()
            },
            outbound && old(self).ping() is None ==> {
                &&& added.fate == SubstreamFate::Continue
                &&& added.opening == Some(Opening::PingOut)
                &&& final(self).with_substream(old(self), id, old(self).next_id(), None)
                &&& final(self).next_id() == old(self).next_id() + 1
                &&& final(self).ping() == Some(id)
                &&& final(self).desired() == old(self).desired()
            },
            outbound && old(self).ping() is Some && old(self).desired().len() > 0 ==> {
                &&& added.fate == SubstreamFate::Continue
                &&& added.opening == Some(old(self).desired()[0].opening)
                &&& final(self).with_substream(
                    old(self),
                    id,
                    old(self).desired()[0].id,
                    Some(old(self).desired()[0].user_data),
                )
                &&& final(self).next_id() == old(self).next_id()
                &&& final(self).ping() == old(self).ping()
                &&& final(self).desired() == old(self).desired().skip(1)
            },
            outbound && old(self).ping() is Some && old(self).desired().len() == 0 ==> {
                &&& added.fate == SubstreamFate::Reset
                &&& added.opening is None
                &&& final(self).substreams() == old(self).substreams()
                &&& final(self).ids() == old(self).ids()
                &&& final(self).events() == old(self).events()
                &&& final(self).same_settings(old(self))
                &&& final(self).next_id() == old(self).next_id()
                &&& final(self).ping() == old(self).ping()
                &&& final(self).desired() == old(self).desired()
            },
            outbound ==> desired_count(final(self).desired().len(), final(self).ping() is None)
                <= desired_count(old(self).desired().len(), old(self).ping() is None),
    {
        let (number, user_data, opening) = if !outbound {
            let number: u32 = self.next_out_substream_id;
            self.next_out_substream_id = number + 1;
            (number, None, Opening::Ingoing { max_protocol_name_len: self.max_protocol_name_len })
        } else if self.ping_substream.is_none() {
            let number: u32 = self.next_out_substream_id;
            self.next_out_substream_id = number + 1;
            self.ping_substream = Some(id);
            (number, None, Opening::PingOut)
        } else {
            match self.desired_out_substreams.pop_front() {
                Some(desired) => (desired.id, Some(desired.user_data), desired.opening),
                None => {
                    return Added { fate: SubstreamFate::Reset, opening: None };
                },
            }
        };
        proof {
            if outbound && old(self).ping() is Some {
                assert(old(self).desired().skip(1) =~= old(self).desired().subrange(
                    1,
                    old(self).desired().len() as int,
                ));
                assert(forall|i: int|
                    0 <= i < self.desired().len() ==> self.desired()[i] == old(self).desired()[i
                        + 1]);
            }
        }
        let substream = Substream {
            id: number,
            user_data,
            inner_alive: true,
            read_buffer: Vec::new(),
            read_buffer_partial_read: 0,
            remote_writing_side_closed: false,
            local_writing_side_closed: false,
            awaiting: Awaiting::Idle,
        };
        let ghost inserted = substream@;
        let _previous = id_map_insert(&mut self.out_in_substreams_map, number as u64, id);
        let _previous_substream = self.in_substreams.insert(id, substream);
        proof {
            assert(self.ids() =~= old(self).ids().insert(number, id));
            assert(self.substreams() =~= old(self).substreams().insert(id, inserted));
            assert(inserted == fresh_substream(number, user_data));
        }
        Added { fate: SubstreamFate::Continue, opening: Some(opening) }
    }

    /// Immediately destroys the substream with the given identifier, which must be the one of
    /// an open substream.
    ///
    /// `reported` is what the state machine of the substream reported when it was reset. It
    /// must not be one of the events that hand the user data of a substream back if the
    /// substream has none.
    pub fn reset_substream(&mut self, substream_id: u64, reported: Option<SubstreamEvent<TErr>>)
        requires
            old(self).wf(),
            old(self).substreams().contains_key(substream_id),
            reported matches Some(event) ==> (takes_user_data(event) ==> old(
                self,
            ).substreams()[substream_id].user_data is Some),
        ensures
            final(self).wf(),
            final(self).without_substream(old(self), substream_id),
            final(self).events() == with_reported(
                old(self).events(),
                reported,
                old(self).substreams()[substream_id].id,
                old(self).substreams()[substream_id].user_data,
            ),
    {
        let removed = self.in_substreams.remove(substream_id);
        let mut substream = match removed {
            Some(substream) => substream,
            None => {
                proof {
                    assert(old(self).in_substreams@.contains_key(substream_id));
                }
                vstd::pervasive::unreached()
            },
        };
        let _previous = id_map_remove(&mut self.out_in_substreams_map, substream.id as u64);
        if self.ping_substream == Some(substream_id) {
            self.ping_substream = None;
        }
        proof {
            assert(self.ids() =~= old(self).ids().remove(substream.id));
            assert(self.substreams() =~= old(self).substreams().remove(substream_id));
        }
        match reported {
            Some(event) => {
                on_substream_event(
                    &mut self.pending_events,
                    substream.id,
                    &mut substream.user_data,
                    event,
                );
            },
            None => {},
        }
    }

    /// Whether the connection can hand out another substream number.
    pub fn has_free_substream_number(&self) -> (free: bool)
        ensures
            free == (self.next_id() < u32::MAX),
    {
        self.next_out_substream_id < u32::MAX
    }

    /// Queues the substream `opening` to open, for the user data `user_data`.
    fn queue_desired(&mut self, opening: Opening, user_data: TSubUd) -> (id: SubstreamId)
        requires
            old(self).wf(),
            old(self).next_id() < u32::MAX,
        ensures
            final(self).wf(),
            id == SubstreamId(SubstreamIdInner::MultiStream(old(self).next_id())),
            final(self).next_id() == old(self).next_id() + 1,
            final(self).desired() == old(self).desired().push(
                Desired { id: old(self).next_id(), user_data, opening },
            ),
            final(self).substreams() == old(self).substreams(),
            final(self).ids() == old(self).ids(),
            final(self).events() == old(self).events(),
            final(self).ping() == old(self).ping(),
            final(self).same_settings(old(self)),
    {
        let number: u32 = self.next_out_substream_id;
        self.next_out_substream_id = number + 1;
        self.desired_out_substreams.push_back(Desired { id: number, user_data, opening });
        SubstreamId(SubstreamIdInner::MultiStream(number))
    }

    /// Sends a request to the remote.
    ///
    /// This method only inserts the request into the connection object. The substream of the
    /// request is opened once the transport has opened a substream for it, which
    /// [`MultiStream::desired_outbound_substreams`] asks for.
    ///
    /// If `request` is `None`, then no request is sent to the remote at all. If `request` is
    /// `Some`, then a (potentially-empty) request is sent.
    ///
    /// After the remote has sent back a response, an [`Event::Response`] event will be generated
    /// locally. The `user_data` parameter will be passed back.
    pub fn add_request(
        &mut self,
        protocol_name: String,
        request: Option<Vec<u8>>,
        timeout: u64,
        max_response_size: usize,
        user_data: TSubUd,
    ) -> (id: SubstreamId)
        requires
            old(self).wf(),
            old(self).next_id() < u32::MAX,
        ensures
            final(self).wf(),
            id == SubstreamId(SubstreamIdInner::MultiStream(old(self).next_id())),
            final(self).next_id() == old(self).next_id() + 1,
            final(self).desired() == old(self).desired().push(
                Desired {
                    id: old(self).next_id(),
                    user_data,
                    opening: Opening::RequestOut {
                        protocol_name,
                        timeout,
                        request,
                        max_response_size,
                    },
                },
            ),
            final(self).substreams() == old(self).substreams(),
            final(self).ids() == old(self).ids(),
            final(self).events() == old(self).events(),
            final(self).ping() == old(self).ping(),
            final(self).same_settings(old(self)),
    {
        self.queue_desired(
            Opening::RequestOut { protocol_name, timeout, request, max_response_size },
            user_data,
        )
    }

    /// Opens a outgoing substream with the given protocol, destined for a stream of
    /// notifications.
    ///
    /// The remote must first accept (or reject) the substream before notifications can be sent
    /// on it.
    ///
    /// This method only inserts the opening handshake into the connection object. The
    /// substream is opened once the transport has opened a substream for it.
    pub fn open_notifications_substream(
        &mut self,
        protocol_name: String,
        max_handshake_size: usize,
        handshake: Vec<u8>,
        timeout: u64,
        user_data: TSubUd,
    ) -> (id: SubstreamId)
        requires
            old(self).wf(),
            old(self).next_id() < u32::MAX,
        ensures
            final(self).wf(),
            id == SubstreamId(SubstreamIdInner::MultiStream(old(self).next_id())),
            final(self).next_id() == old(self).next_id() + 1,
            final(self).desired() == old(self).desired().push(
                Desired {
                    id: old(self).next_id(),
                    user_data,
                    opening: Opening::NotificationsOut {
                        timeout,
                        protocol_name,
                        handshake,
                        max_handshake_size,
                    },
                },
            ),
            final(self).substreams() == old(self).substreams(),
            final(self).ids() == old(self).ids(),
            final(self).events() == old(self).events(),
            final(self).ping() == old(self).ping(),
            final(self).same_settings(old(self)),
    {
        self.queue_desired(
            Opening::NotificationsOut { timeout, protocol_name, handshake, max_handshake_size },
            user_data,
        )
    }
}

/// Moves as much of the data that the transport received as fits into the buffer of
/// `substream`. Returns the number of bytes moved.
fn fill<TSubUd>(substream: &mut Substream<TSubUd>, read_write: &mut ReadWrite) -> (n: usize)
    requires
        old(substream)@.read_buffer.len() <= envelope::MAX_FRAME_LEN,
        old(read_write).wf(),
        old(read_write).incoming_buffer is Some,
    ensures
        final(read_write).wf(),
        final(read_write).now == old(read_write).now,
        final(read_write).incoming_buffer == old(read_write).incoming_buffer,
        final(read_write).outgoing_buffer == old(read_write).outgoing_buffer,
        final(read_write).outgoing_capacity == old(read_write).outgoing_capacity,
        final(read_write).wake_up_after == old(read_write).wake_up_after,
        final(read_write).read_bytes == old(read_write).read_bytes + n,
        final(read_write).unread() == old(read_write).unread().skip(n as int),
        n == smaller(
            old(read_write).unread().len(),
            (envelope::MAX_FRAME_LEN - old(substream)@.read_buffer.len()) as nat,
        ),
        final(substream)@ == (SubstreamView {
            read_buffer: old(substream)@.read_buffer.add(old(read_write).unread().take(n as int)),
            ..old(substream)@
        }),
        final(substream)@.read_buffer.len() <= envelope::MAX_FRAME_LEN,
{
    let ghost unread = read_write.unread();
    let available: usize = read_write.incoming_buffer_available();
    let room: usize = envelope::MAX_FRAME_LEN - substream.read_buffer.len();
    let n: usize = if available < room {
        available
    } else {
        room
    };
    let from: usize = read_write.read_bytes;
    match &read_write.incoming_buffer {
        Some(incoming) => {
            let total: usize = incoming.len();
            assert(available == total - from);
            proof {
                assert(incoming@.subrange(from as int, from + n) =~= unread.take(n as int));
            }
            append_range(&mut substream.read_buffer, incoming, from, from + n);
        },
        None => {},
    }
    read_write.advance_read(n);
    n
}

/// Takes the data that the transport received into the buffer of `substream`, and discards
/// the envelopes at its start that were processed. Returns where in the buffer the data stands
/// that the state machine has yet to process, or `None` if the substream must be reset.
#[verifier::rlimit(60)]
fn take_in<TSubUd>(substream: &mut Substream<TSubUd>, read_write: &mut ReadWrite) -> (message:
    Option<(usize, usize)>)
    requires
        old(substream)@.read_buffer.len() <= envelope::MAX_FRAME_LEN,
        old(read_write).wf(),
        old(read_write).incoming_buffer is Some,
    ensures
        final(read_write).wf(),
        final(read_write).now == old(read_write).now,
        final(read_write).incoming_buffer == old(read_write).incoming_buffer,
        final(read_write).outgoing_buffer == old(read_write).outgoing_buffer,
        final(read_write).outgoing_capacity == old(read_write).outgoing_capacity,
        final(read_write).wake_up_after == old(read_write).wake_up_after,
        final(substream)@.read_buffer.len() <= envelope::MAX_FRAME_LEN,
        ({
            let before = old(substream)@;
            let r = intake(
                before.read_buffer,
                old(read_write).unread(),
                before.read_buffer_partial_read,
                before.remote_writing_side_closed,
                0,
            );
            &&& final(read_write).read_bytes == old(read_write).read_bytes + r.taken
            &&& r.taken <= old(read_write).unread().len()
            &&& final(substream)@ == SubstreamView {
                read_buffer: r.read_buffer,
                read_buffer_partial_read: r.partial_read,
                remote_writing_side_closed: r.remote_closed,
                ..before
            }
            &&& r.partial_read <= before.read_buffer_partial_read
            &&& match message {
                Some((from, to)) => {
                    &&& from <= to <= r.read_buffer.len()
                    &&& r.message == Some(r.read_buffer.subrange(from as int, to as int))
                    &&& to - from > 0 ==> r.partial_read + (to - from) <= envelope::MAX_FRAME_LEN
                },
                None => r.message is None,
            }
        }),
{
    let ghost buffer0 = substream@.read_buffer;
    let ghost unread0 = read_write.unread();
    let ghost partial0 = substream@.read_buffer_partial_read;
    let ghost closed0 = substream@.remote_writing_side_closed;
    let ghost mut taken: nat = 0;
    loop
        invariant
            read_write.wf(),
            read_write.incoming_buffer is Some,
            read_write.now == old(read_write).now,
            read_write.incoming_buffer == old(read_write).incoming_buffer,
            read_write.outgoing_buffer == old(read_write).outgoing_buffer,
            read_write.outgoing_capacity == old(read_write).outgoing_capacity,
            read_write.wake_up_after == old(read_write).wake_up_after,
            read_write.read_bytes == old(read_write).read_bytes + taken,
            taken + read_write.unread().len() == unread0.len(),
            unread0 == old(read_write).unread(),
            substream@.read_buffer.len() <= envelope::MAX_FRAME_LEN,
            substream@.read_buffer_partial_read <= partial0,
            substream@ == (SubstreamView {
                read_buffer: substream@.read_buffer,
                read_buffer_partial_read: substream@.read_buffer_partial_read,
                remote_writing_side_closed: substream@.remote_writing_side_closed,
                ..old(substream)@
            }),
            buffer0 == old(substream)@.read_buffer,
            partial0 == old(substream)@.read_buffer_partial_read,
            closed0 == old(substream)@.remote_writing_side_closed,
            intake(buffer0, unread0, partial0, closed0, 0) == intake(
                substream@.read_buffer,
                read_write.unread(),
                substream@.read_buffer_partial_read,
                substream@.remote_writing_side_closed,
                taken,
            ),
        decreases substream@.read_buffer.len() + read_write.unread().len(),
    {
        let ghost buffer = substream@.read_buffer;
        let ghost unread = read_write.unread();
        let n: usize = fill(substream, read_write);
        let ghost filled = substream@.read_buffer;
        proof {
            envelope::lemma_parse_bounds(filled);
            taken = taken + n as nat;
        }
        match envelope::decode(substream.read_buffer.as_slice()) {
            envelope::Decoded::Invalid => {
                return None;
            },
            envelope::Decoded::Incomplete => {
                proof {
                    assert(filled.subrange(0, 0) =~= Seq::<u8>::empty());
                }
                return Some((0, 0));
            },
            envelope::Decoded::Frame { frame_len, flags, message } => {
                let (start, end) = match message {
                    Some(range) => range,
                    None => {
                        proof {
                            assert(filled.subrange(0, 0) =~= Seq::<u8>::empty());
                        }
                        (0, 0)
                    },
                };
                if end - start > substream.read_buffer_partial_read {
                    let at: usize = start + substream.read_buffer_partial_read;
                    proof {
                        assert(filled.subrange(start as int, end as int).skip(
                            substream.read_buffer_partial_read as int,
                        ) =~= filled.subrange(at as int, end as int));
                    }
                    return Some((at, end));
                }
                let tail = substream.read_buffer.split_off(frame_len);
                substream.read_buffer = tail;
                substream.read_buffer_partial_read = 0;
                proof {
                    assert(substream@.read_buffer =~= filled.skip(frame_len as int));
                }
                let reset = match flags {
                    Some(f) => {
                        if f == envelope::FLAG_FIN || f == envelope::FLAG_RESET_STREAM {
                            substream.remote_writing_side_closed = true;
                        }
                        f == envelope::FLAG_RESET_STREAM
                    },
                    None => false,
                };
                if reset {
                    return None;
                }
            },
        }
    }
}

impl<TSubUd, TErr> MultiStream<TSubUd, TErr> {
    /// Whether `self` and `after` are `before` and `rw_before` once the substream `id` has
    /// gone through one round of taking data in, which ended in `step`.
    ///
    /// Nothing happens while four events or more are queued, or while less than six bytes can
    /// be written. Else the data received is taken in (see [`intake`]), and the state machine
    /// of the substream is asked to read and write, or to reset if the substream is over.
    pub open spec fn resumed(
        &self,
        before: &Self,
        rw_before: ReadWrite,
        rw_after: ReadWrite,
        id: u64,
        step: Step,
    ) -> bool {
        let s = before.substreams()[id];
        &&& self.ids() == before.ids()
        &&& self.events() == before.events()
        &&& self.desired() == before.desired()
        &&& self.ping() == before.ping()
        &&& self.next_id() == before.next_id()
        &&& self.interval() == before.interval()
        &&& self.timeout() == before.timeout()
        &&& self.name_len() == before.name_len()
        &&& self.ping_name() == before.ping_name()
        &&& rw_after.now == rw_before.now
        &&& rw_after.incoming_buffer == rw_before.incoming_buffer
        &&& rw_after.outgoing_buffer == rw_before.outgoing_buffer
        &&& rw_after.outgoing_capacity == rw_before.outgoing_capacity
        &&& if before.events().len() >= MAX_PENDING_EVENTS || rw_before.available()
            < MIN_OUTGOING_SPACE {
            &&& step == Step::Done(SubstreamFate::Continue)
            &&& self.substreams() == before.substreams()
            &&& rw_after.read_bytes == rw_before.read_bytes
        } else {
            let r = intake(
                s.read_buffer,
                rw_before.unread(),
                s.read_buffer_partial_read,
                s.remote_writing_side_closed,
                0,
            );
            &&& rw_after.read_bytes == rw_before.read_bytes + r.taken
            &&& match r.message {
                Some(message) => {
                    let given = if r.remote_closed {
                        0
                    } else {
                        message.len()
                    };
                    &&& self.substreams() == before.substreams().insert(
                        id,
                        SubstreamView {
                            read_buffer: r.read_buffer,
                            read_buffer_partial_read: r.partial_read,
                            remote_writing_side_closed: r.remote_closed,
                            awaiting: Awaiting::ReadWrite {
                                offered: given as usize,
                                progress: r.taken < rw_before.unread().len(),
                            },
                            ..s
                        },
                    )
                    &&& step matches Step::ReadWrite(call)
                    &&& call.now == rw_before.now
                    &&& match call.incoming_buffer {
                        Some(data) => !r.remote_closed && data@ == message,
                        None => r.remote_closed,
                    }
                    &&& match call.outgoing_capacity {
                        Some(capacity) => !s.local_writing_side_closed && capacity
                            == write_capacity(rw_before.available()),
                        None => s.local_writing_side_closed,
                    }
                },
                None => {
                    &&& self.substreams() == before.substreams().insert(
                        id,
                        SubstreamView {
                            read_buffer: r.read_buffer,
                            read_buffer_partial_read: r.partial_read,
                            remote_writing_side_closed: r.remote_closed,
                            inner_alive: false,
                            awaiting: Awaiting::Reset,
                            ..s
                        },
                    )
                    &&& step == Step::Reset
                },
            }
        }
    }

    /// Goes on reading and writing the substream `substream_id`, after
    /// [`MultiStream::substream_read_write_done`] has returned [`Step::Again`].
    ///
    /// The substream must be open and waiting for nothing, and both sides of the stream open.
    pub fn substream_read_write_resume(
        &mut self,
        substream_id: u64,
        read_write: &mut ReadWrite,
    ) -> (step: Step)
        requires
            old(self).wf(),
            old(self).substreams().contains_key(substream_id),
            old(self).substreams()[substream_id].awaiting == Awaiting::Idle,
            old(self).substreams()[substream_id].inner_alive,
            old(read_write).wf(),
            old(read_write).incoming_buffer is Some,
            old(read_write).outgoing_buffer is Some,
        ensures
            final(self).wf(),
            final(read_write).wf(),
            final(self).next_ping_at() == old(self).next_ping_at(),
            final(read_write).wake_up_after == old(read_write).wake_up_after,
            final(self).resumed(old(self), *old(read_write), *final(read_write), substream_id, step),
    {
        if self.pending_events.len() >= MAX_PENDING_EVENTS {
            return Step::Done(SubstreamFate::Continue);
        }
        let available: usize = read_write.outgoing_buffer_available();
        if available < MIN_OUTGOING_SPACE {
            return Step::Done(SubstreamFate::Continue);
        }
        let mut substream = match self.in_substreams.remove(substream_id) {
            Some(substream) => substream,
            None => {
                proof {
                    assert(old(self).in_substreams@.contains_key(substream_id));
                }
                vstd::pervasive::unreached()
            },
        };
        let ghost unread = read_write.unread();
        let message = take_in(&mut substream, read_write);
        let step = match message {
            None => {
                substream.inner_alive = false;
                substream.awaiting = Awaiting::Reset;
                Step::Reset
            },
            Some((from, to)) => {
                let incoming_buffer = if substream.remote_writing_side_closed {
                    None
                } else {
                    let mut data: Vec<u8> = Vec::new();
                    append_range(&mut data, &substream.read_buffer, from, to);
                    proof {
                        assert(data@ =~= substream@.read_buffer.subrange(from as int, to as int));
                    }
                    Some(data)
                };
                let outgoing_capacity = if substream.local_writing_side_closed {
                    None
                } else {
                    let capped: usize = if available < envelope::MAX_FRAME_LEN {
                        available
                    } else {
                        envelope::MAX_FRAME_LEN
                    };
                    Some(
                        if capped < ENVELOPE_OVERHEAD {
                            0
                        } else {
                            capped - ENVELOPE_OVERHEAD
                        },
                    )
                };
                let given: usize = if substream.remote_writing_side_closed {
                    0
                } else {
                    to - from
                };
                substream.awaiting = Awaiting::ReadWrite {
                    offered: given,
                    progress: read_write.incoming_buffer_available() > 0,
                };
                Step::ReadWrite(
                    InnerReadWrite { now: read_write.now, incoming_buffer, outgoing_capacity },
                )
            },
        };
        let ghost inserted = substream@;
        let _previous = self.in_substreams.insert(substream_id, substream);
        proof {
            assert(self.substreams() =~= old(self).substreams().insert(substream_id, inserted));
        }
        step
    }
}

/// What [`MultiStream::substream_read_write`] wants done.
#[derive(Debug, PartialEq, Eq)]
pub struct Started {
    /// A ping to queue in the state machine of the substream before anything else.
    pub queue_ping: Option<QueuePing>,
    /// What is to be done next.
    pub step: Step,
}

/// Error potentially returned by [`MultiStream::respond_in_request`].
#[derive(Debug, Copy, Clone, PartialEq, Eq)]
pub enum RespondInRequestError {
    /// The substream has already been closed.
    SubstreamClosed,
}

impl<TSubUd, TErr> MultiStream<TSubUd, TErr> {
    /// Whether `self` and `after` are `before` and `rw_before` once the state machine of the
    /// substream `id` has read and written with the outcome `outcome`, which ended in `step`.
    ///
    /// What the state machine wrote is sent in one envelope, with a flag if it is gone or has
    /// closed its writing side. What it reported is queued. If it is gone, so is the
    /// substream. Else the substream is read and written again if anything happened at all.
    pub open spec fn finished(
        &self,
        before: &Self,
        rw_before: ReadWrite,
        rw_after: ReadWrite,
        id: u64,
        outcome: InnerOutcome<TErr>,
        step: Step,
    ) -> bool {
        let s = before.substreams()[id];
        let flag = flag_to_write(
            outcome.alive,
            outcome.write_closed,
            s.remote_writing_side_closed,
            s.local_writing_side_closed,
        );
        let progress = (s.awaiting matches Awaiting::ReadWrite { offered, progress } && progress)
            || outcome.read_bytes != 0 || outcome.written@.len() != 0 || flag is Some
            || outcome.event is Some;
        &&& rw_after.outgoing() == rw_before.outgoing().add(sent(flag, outcome.written@))
        &&& sent(flag, outcome.written@).len() <= envelope::MAX_FRAME_LEN
        &&& rw_after.wake_up_after == woken(rw_before.wake_up_after, outcome.wake_up_after)
        &&& rw_after.now == rw_before.now
        &&& rw_after.incoming_buffer == rw_before.incoming_buffer
        &&& rw_after.read_bytes == rw_before.read_bytes
        &&& rw_after.outgoing_capacity == rw_before.outgoing_capacity
        &&& self.events() == with_reported(before.events(), outcome.event, s.id, s.user_data)
        &&& if !outcome.alive {
            &&& self.without_substream(before, id)
            &&& step == Step::Done(SubstreamFate::Reset)
        } else {
            &&& self.substreams() == before.substreams().insert(
                id,
                SubstreamView {
                    read_buffer_partial_read: (s.read_buffer_partial_read + outcome.read_bytes) as nat,
                    local_writing_side_closed: s.local_writing_side_closed || flag == Some(
                        envelope::FLAG_FIN,
                    ),
                    user_data: match outcome.event {
                        Some(event) => user_data_after(event, s.user_data),
                        None => s.user_data,
                    },
                    awaiting: Awaiting::Idle,
                    ..s
                },
            )
            &&& self.ids() == before.ids()
            &&& self.desired() == before.desired()
            &&& self.ping() == before.ping()
            &&& self.next_id() == before.next_id()
            &&& self.same_settings(before)
            &&& step == (if progress {
                Step::Again
            } else {
                Step::Done(SubstreamFate::Continue)
            })
        }
    }

    /// Takes note of what the state machine of the substream `substream_id` did when asked to
    /// read and write by the [`Step::ReadWrite`] returned last.
    ///
    /// `read_write` is the one that was read and written then. The state machine must not
    /// have read more than it was given, nor written more than it was allowed, and nothing at
    /// all if its writing side was closed already. It must not report an event that hands the
    /// user data of the substream back if the substream has none.
    pub fn substream_read_write_done(
        &mut self,
        substream_id: u64,
        read_write: &mut ReadWrite,
        outcome: InnerOutcome<TErr>,
    ) -> (step: Step)
        requires
            old(self).wf(),
            old(self).substreams().contains_key(substream_id),
            old(self).substreams()[substream_id].awaiting is ReadWrite,
            outcome.read_bytes <= offered(old(self).substreams()[substream_id].awaiting),
            old(read_write).wf(),
            old(read_write).outgoing_buffer is Some,
            old(read_write).available() >= MIN_OUTGOING_SPACE,
            outcome.written@.len() <= write_capacity(old(read_write).available()),
            old(self).substreams()[substream_id].local_writing_side_closed
                ==> outcome.written@.len() == 0 && outcome.write_closed,
            outcome.event matches Some(event) ==> (takes_user_data(event) ==> old(
                self,
            ).substreams()[substream_id].user_data is Some),
        ensures
            final(self).wf(),
            final(read_write).wf(),
            final(read_write).outgoing_buffer is Some,
            final(self).finished(
                old(self),
                *old(read_write),
                *final(read_write),
                substream_id,
                outcome,
                step,
            ),
    {
        let mut substream = match self.in_substreams.remove(substream_id) {
            Some(substream) => substream,
            None => {
                proof {
                    assert(old(self).in_substreams@.contains_key(substream_id));
                }
                vstd::pervasive::unreached()
            },
        };
        let ghost before = substream@;
        let mut progress: bool = match substream.awaiting {
            Awaiting::ReadWrite { offered, progress } => progress,
            _ => false,
        };
        substream.awaiting = Awaiting::Idle;
        substream.read_buffer_partial_read = substream.read_buffer_partial_read
            + outcome.read_bytes;
        match outcome.wake_up_after {
            Some(after) => {
                read_write.wake_up_after(after);
            },
            None => {},
        }
        if outcome.read_bytes != 0 || outcome.written.len() != 0 {
            progress = true;
        }
        let flag: Option<u64> = if !outcome.alive && (!substream.remote_writing_side_closed
            || !outcome.write_closed) {
            Some(envelope::FLAG_RESET_STREAM)
        } else if !substream.local_writing_side_closed && outcome.write_closed {
            substream.local_writing_side_closed = true;
            Some(envelope::FLAG_FIN)
        } else {
            None
        };
        if flag.is_some() || outcome.written.len() != 0 {
            let message: Option<&[u8]> = if outcome.written.len() != 0 {
                Some(outcome.written.as_slice())
            } else {
                None
            };
            let frame = envelope::encode(flag, message);
            proof {
                envelope::lemma_envelope_len(
                    envelope::Fields { flags: flag, message: envelope::message_view(message) },
                );
            }
            read_write.write_out(frame.as_slice());
            progress = true;
        } else {
            proof {
                assert(read_write.outgoing().add(Seq::<u8>::empty()) =~= read_write.outgoing());
            }
        }
        match outcome.event {
            Some(event) => {
                progress = true;
                on_substream_event(
                    &mut self.pending_events,
                    substream.id,
                    &mut substream.user_data,
                    event,
                );
            },
            None => {},
        }
        if !outcome.alive {
            if self.ping_substream == Some(substream_id) {
                self.ping_substream = None;
            }
            let _previous = id_map_remove(&mut self.out_in_substreams_map, substream.id as u64);
            proof {
                assert(self.ids() =~= old(self).ids().remove(substream.id));
                assert(self.substreams() =~= old(self).substreams().remove(substream_id));
            }
            return Step::Done(SubstreamFate::Reset);
        }
        let ghost inserted = substream@;
        let _previous = self.in_substreams.insert(substream_id, substream);
        proof {
            assert(self.substreams() =~= old(self).substreams().insert(substream_id, inserted));
        }
        if progress {
            Step::Again
        } else {
            Step::Done(SubstreamFate::Continue)
        }
    }

    /// Reads/writes data on the substream.
    ///
    /// If this is the ping substream and the moment of the next ping has come, a ping is to
    /// be queued in its state machine, and the next one is due one interval from now. The
    /// call is then to be made again at the moment of the next ping at the latest.
    ///
    /// Then the substream is read and written as [`MultiStream::substream_read_write_resume`]
    /// does. This method refuses to accept data if too many events are already queued. Use
    /// [`MultiStream::pull_event`] to empty the queue of events between calls to this method.
    ///
    /// The substream must be open and waiting for nothing, and both sides of the stream open.
    pub fn substream_read_write(&mut self, substream_id: u64, read_write: &mut ReadWrite) -> (started:
        Started)
        requires
            old(self).wf(),
            old(self).substreams().contains_key(substream_id),
            old(self).substreams()[substream_id].awaiting == Awaiting::Idle,
            old(self).substreams()[substream_id].inner_alive,
            old(read_write).wf(),
            old(read_write).incoming_buffer is Some,
            old(read_write).outgoing_buffer is Some,
            old(self).ping() == Some(substream_id) && old(read_write).now >= old(
                self,
            ).next_ping_at() ==> old(read_write).now + old(self).timeout() <= u64::MAX && old(
                read_write,
            ).now + old(self).interval() <= u64::MAX,
        ensures
            final(self).wf(),
            final(read_write).wf(),
            ({
                let is_ping = old(self).ping() == Some(substream_id);
                let due = is_ping && old(read_write).now >= old(self).next_ping_at();
                &&& started.queue_ping is Some <==> due
                &&& started.queue_ping matches Some(ping) ==> ping.timeout == old(read_write).now
                    + old(self).timeout()
                &&& final(self).next_ping_at() == (if due {
                    (old(read_write).now + old(self).interval()) as u64
                } else {
                    old(self).next_ping_at()
                })
                &&& final(read_write).wake_up_after == (if is_ping {
                    ReadWrite::earlier(old(read_write).wake_up_after, final(self).next_ping_at())
                } else {
                    old(read_write).wake_up_after
                })
            }),
            final(self).resumed(
                old(self),
                *old(read_write),
                *final(read_write),
                substream_id,
                started.step,
            ),
    {
        let mut queue_ping: Option<QueuePing> = None;
        if self.ping_substream == Some(substream_id) {
            if read_write.now >= self.next_ping {
                let payload = rng_sample_payload(&mut self.ping_payload_randomness);
                queue_ping = Some(QueuePing { payload, timeout: read_write.now + self.ping_timeout });
                self.next_ping = read_write.now + self.ping_interval;
            }
            read_write.wake_up_after(self.next_ping);
        }
        let step = self.substream_read_write_resume(substream_id, read_write);
        Started { queue_ping, step }
    }

    /// Returns the identifier that the transport gave the substream that the upper layers
    /// know as `substream_id`, or `None` if they know no such substream of this connection.
    pub fn inner_substream(&self, substream_id: SubstreamId) -> (id: Option<u64>)
        requires
            self.wf(),
        ensures
            match substream_id.number() {
                Some(n) => id == (if self.ids().contains_key(n) {
                    Some(self.ids()[n])
                } else {
                    None
                }),
                None => id is None,
            },
            id matches Some(t) ==> self.substreams().contains_key(t),
    {
        match substream_id.0 {
            SubstreamIdInner::MultiStream(n) => id_map_get(&self.out_in_substreams_map, n as u64),
            SubstreamIdInner::SingleStream(_) => None,
        }
    }

    /// Returns the identifier that the upper layers know the substream by that the transport
    /// calls `id`, or `None` if no such substream is open.
    pub fn substream_id(&self, id: u64) -> (substream_id: Option<SubstreamId>)
        requires
            self.wf(),
        ensures
            match substream_id {
                Some(known) => self.substreams().contains_key(id) && known.number() == Some(
                    self.substreams()[id].id,
                ),
                None => !self.substreams().contains_key(id),
            },
    {
        match self.in_substreams.get(id) {
            Some(substream) => Some(SubstreamId(SubstreamIdInner::MultiStream(substream.id))),
            None => None,
        }
    }

    /// Call after an [`Event::InboundNegotiated`] has been emitted in order to accept the
    /// protocol name. Gives the substream its user data, and returns the identifier that the
    /// transport gave the substream, whose state machine is to be told the kind of the
    /// protocol.
    ///
    /// The substream must be one that this connection has open.
    pub fn accept_inbound(&mut self, substream_id: SubstreamId, user_data: TSubUd) -> (id: u64)
        requires
            old(self).wf(),
            substream_id.number() matches Some(n) && old(self).ids().contains_key(n),
        ensures
            final(self).wf(),
            id == old(self).ids()[substream_id.number().unwrap()],
            final(self).substreams() == old(self).substreams().insert(
                id,
                SubstreamView { user_data: Some(user_data), ..old(self).substreams()[id] },
            ),
            final(self).ids() == old(self).ids(),
            final(self).events() == old(self).events(),
            final(self).desired() == old(self).desired(),
            final(self).ping() == old(self).ping(),
            final(self).next_id() == old(self).next_id(),
            final(self).same_settings(old(self)),
    {
        let id: u64 = match self.inner_substream(substream_id) {
            Some(id) => id,
            None => vstd::pervasive::unreached(),
        };
        let mut substream = match self.in_substreams.remove(id) {
            Some(substream) => substream,
            None => {
                proof {
                    assert(old(self).in_substreams@.contains_key(id));
                }
                vstd::pervasive::unreached()
            },
        };
        substream.user_data = Some(user_data);
        let ghost inserted = substream@;
        let _previous = self.in_substreams.insert(id, substream);
        proof {
            assert(self.substreams() =~= old(self).substreams().insert(id, inserted));
        }
        id
    }

    /// Responds to an incoming request. Must be called in response to a [`Event::RequestIn`].
    ///
    /// Returns the identifier that the transport gave the substream, whose state machine is
    /// to be given the response, or an error if the substream is not one of this connection.
    pub fn respond_in_request(&self, substream_id: SubstreamId) -> (r: Result<
        u64,
        RespondInRequestError,
    >)
        requires
            self.wf(),
            substream_id.number() matches Some(n) ==> self.ids().contains_key(n),
        ensures
            match substream_id.number() {
                Some(n) => r == Ok::<u64, RespondInRequestError>(self.ids()[n]),
                None => r == Err::<u64, RespondInRequestError>(
                    RespondInRequestError::SubstreamClosed,
                ),
            },
    {
        match self.inner_substream(substream_id) {
            Some(id) => Ok(id),
            None => Err(RespondInRequestError::SubstreamClosed),
        }
    }

    /// Returns the user data of the substream that the upper layers know as `substream_id`,
    /// or `None` if this connection has no such substream open or the substream has no user
    /// data.
    pub fn user_data(&self, substream_id: SubstreamId) -> (user_data: Option<&TSubUd>)
        requires
            self.wf(),
        ensures
            match substream_id.number() {
                Some(n) => if self.ids().contains_key(n) {
                    match self.substreams()[self.ids()[n]].user_data {
                        Some(ud) => user_data == Some(&ud),
                        None => user_data is None,
                    }
                } else {
                    user_data is None
                },
                None => user_data is None,
            },
    {
        match self.inner_substream(substream_id) {
            Some(id) => match self.in_substreams.get(id) {
                Some(substream) => substream.user_data.as_ref(),
                None => None,
            },
            None => None,
        }
    }
    /// Whether the substream that the upper layers know as `substream_id` is open and has
    /// user data.
    pub open spec fn has_user_data(&self, substream_id: SubstreamId) -> bool {
        substream_id.number() matches Some(n) && self.ids().contains_key(n)
            && self.substreams()[self.ids()[n]].user_data is Some
    }

    /// Changes the user data of the substream that the upper layers know as `substream_id`
    /// to `user_data`, and returns the user data that it had.
    ///
    /// Changes nothing and returns `None` if this connection has no such substream open or
    /// the substream has no user data.
    pub fn notifications_substream_user_data_mut(
        &mut self,
        substream_id: SubstreamId,
        user_data: TSubUd,
    ) -> (previous: Option<TSubUd>)
        requires
            old(self).wf(),
        ensures
            final(self).wf(),
            final(self).ids() == old(self).ids(),
            final(self).events() == old(self).events(),
            final(self).desired() == old(self).desired(),
            final(self).ping() == old(self).ping(),
            final(self).next_id() == old(self).next_id(),
            final(self).same_settings(old(self)),
            old(self).has_user_data(substream_id) ==> {
                let id = old(self).ids()[substream_id.number().unwrap()];
                &&& previous == old(self).substreams()[id].user_data
                &&& final(self).substreams() == old(self).substreams().insert(
                    id,
                    SubstreamView { user_data: Some(user_data), ..old(self).substreams()[id] },
                )
            },
            !old(self).has_user_data(substream_id) ==> previous is None
                && final(self).substreams() == old(self).substreams(),
    {
        let id: u64 = match self.inner_substream(substream_id) {
            Some(id) => id,
            None => {
                return None;
            },
        };
        let mut substream = match self.in_substreams.remove(id) {
            Some(substream) => substream,
            None => {
                proof {
                    assert(old(self).in_substreams@.contains_key(id));
                }
                vstd::pervasive::unreached()
            },
        };
        let previous: Option<TSubUd> = match substream.user_data.take() {
            Some(previous) => {
                substream.user_data = Some(user_data);
                Some(previous)
            },
            None => None,
        };
        let ghost inserted = substream@;
        let _previous = self.in_substreams.insert(id, substream);
        proof {
            assert(self.substreams() =~= old(self).substreams().insert(id, inserted));
            if !old(self).has_user_data(substream_id) {
                assert(inserted == old(self).substreams()[id]);
                assert(self.substreams() =~= old(self).substreams());
            }
        }
        previous
    }
}

impl<TSubUd, TErr> MultiStream<TSubUd, TErr> {
    /// A connection knows as many substreams by the identifier of the transport as it knows
    /// by number: the two tables have the same size.
    pub proof fn lemma_tables_have_same_size(&self)
        requires
            self.wf(),
        ensures
            self.substreams().dom().finite(),
            self.ids().dom().finite(),
            self.substreams().dom().len() == self.ids().dom().len(),
    {
        let by_transport = self.substreams().dom();
        let by_number = self.ids().dom();
        let number_of = |t: u64| self.substreams()[t].id;
        assert(by_transport =~= self.in_substreams@.dom());
        self.in_substreams.lemma_finite();
        assert(vstd::relations::injective_on(number_of, by_transport)) by {
            assert forall|a: u64, b: u64|
                by_transport.contains(a) && by_transport.contains(b) && #[trigger] number_of(a)
                    == #[trigger] number_of(b) implies a == b by {
                assert(self.substreams().contains_key(a));
                assert(self.substreams().contains_key(b));
            }
        }
        assert(by_transport.map(number_of) =~= by_number) by {
            assert forall|n: u32| by_transport.map(number_of).contains(n) implies by_number.contains(
                n,
            ) by {
                let t = choose|t: u64| by_transport.contains(t) && number_of(t) == n;
                assert(self.substreams().contains_key(t));
            }
            assert forall|n: u32| by_number.contains(n) implies by_transport.map(
                number_of,
            ).contains(n) by {
                assert(self.ids().contains_key(n));
                let t = self.ids()[n];
                assert(by_transport.contains(t) && number_of(t) == n);
            }
        }
        vstd::set_lib::lemma_map_size(by_transport, by_number, number_of);
    }

    /// A substream that is added makes each of the two tables one entry larger. The two new
    /// entries mirror each other, and the entries that were there are unchanged.
    pub proof fn lemma_one_more_substream(
        &self,
        before: &Self,
        id: u64,
        number: u32,
        user_data: Option<TSubUd>,
    )
        requires
            before.wf(),
            self.wf(),
            !before.substreams().contains_key(id),
            self.with_substream(before, id, number, user_data),
        ensures
            self.substreams().dom().len() == before.substreams().dom().len() + 1,
            self.ids().dom().len() == before.ids().dom().len() + 1,
            self.substreams()[id].id == number,
            self.ids()[number] == id,
            forall|t: u64| #[trigger]
                before.substreams().contains_key(t) ==> self.substreams()[t]
                    == before.substreams()[t],
            forall|n: u32| #[trigger]
                before.ids().contains_key(n) ==> self.ids()[n] == before.ids()[n],
    {
        before.lemma_tables_have_same_size();
        self.lemma_tables_have_same_size();
        assert(self.substreams().dom() =~= before.substreams().dom().insert(id));
        assert(self.substreams().contains_key(id));
        assert forall|n: u32| #[trigger] before.ids().contains_key(n) implies n != number by {
            let t = before.ids()[n];
            assert(before.substreams().contains_key(t));
            assert(self.substreams().contains_key(t));
        }
    }
}

} // verus!
