//! The command engine: one method per reader operation, each a checked
//! request/response exchange over the transport.
use vstd::prelude::*;
use crate::frame::{
    encode_frame, frame_bytes, status_ok, CMD_GET_FIRMWARE, CMD_SINGLE_POLL, CMD_GET_TX_POWER,
    CMD_SET_TX_POWER, CMD_STOP_MULTIPLE_POLL, CMD_SET_SELECT_PARAM, CMD_GET_SELECT_PARAM,
    CMD_SET_SELECT_MODE, CMD_GET_QUERY_PARAM, CMD_SET_QUERY_PARAM, CMD_GET_REGION,
    CMD_SET_REGION, CMD_GET_CHANNEL, CMD_SET_CHANNEL, CMD_SET_AUTO_FREQ_HOP, CMD_INSERT_CHANNEL,
    CMD_SET_CONTINUOUS_CARRIER, CMD_SET_BAUD_RATE, CMD_READ_TAG_DATA, CMD_WRITE_TAG_DATA,
    CMD_LOCK_TAG, CMD_KILL_TAG, CMD_INVENTORY_BUFFER, CMD_GET_BUFFER_DATA, CMD_CLEAR_BUFFER,
    CMD_GET_RF_LINK_PROFILE, CMD_SET_RF_LINK_PROFILE, CMD_GET_READER_SENSITIVITY,
    CMD_SET_READER_SENSITIVITY, CMD_BLOCK_PERMALOCK, CMD_NXP_READ_PROTECT,
    CMD_NXP_RESET_READ_PROTECT, CMD_NXP_CHANGE_EAS, CMD_NXP_EAS_ALARM, CMD_NXP_CHANGE_CONFIG,
    CMD_IMPINJ_MONZA_QT, CMD_MULTIPLE_POLL,
};
use crate::clock::{clock_now, millis_since, duration_millis, millis_of};
use core::time::Duration;
use crate::poll::{
    TagSink, CallbackSink, cut_frames, reassemble, frame_tags, round_end_index, is_round_end,
    pieces_since, lemma_round_end_index, lemma_round_end_index_props, lemma_frame_tags_concat,
    round_end_count, lemma_round_end_count_concat, lemma_round_end_no_tag, got_bytes, pieces_of,
    lemma_no_round_end_count, frame_tag, lemma_split_independent,
    count_below, PollStep, round_step, time_remains,
};
use crate::stream::{FrameAssembler, drain_frames, is_clean_frame, lemma_clean_frame, concat_pieces};
use crate::response::{
    decoded, decoded_view, is_invalid_response, decode_status, decode_device_status, decode_ack,
    ack_ok, tag_outcome, decode_tx_power, tx_power_reply, parse_firmware_version, firmware_reply, parse_tag,
    tag_reply, decode_select_param, select_reply, decode_query_param, query_reply, decode_region,
    region_reply, decode_byte, byte_reply, decode_tag_data, tag_data_reply, decode_buffer,
    buffer_reply, tag_views, decode_rf_link_profile, rf_link_profile_reply, decode_eas_alarm,
    eas_reply, decode_monza_qt, monza_qt_reply,
};
use crate::transport::RfidTransport;
use crate::types::{
    TagInfo, TagView, UhfError, MemoryBank, QueryParams, query_bytes, Region, RfLinkProfile, SelectMode,
    SelectParams, select_block, LockPayload, lock_bytes, QtControl, qt_byte,
};

verus! {

/// Settling time between writing a command and reading its answer.
pub const SETTLE_MS: u32 = 200;

/// How long to wait for the answer to a command.
pub const RESPONSE_TIMEOUT_MS: u32 = 500;

/// Size of the buffer an answer is read into.
pub const RESPONSE_CAPACITY: usize = 100;

/// Lowest transmit power the module accepts, in dBm.
pub const MIN_POWER_DBM: u16 = 18;

/// Highest transmit power the module accepts, in dBm.
pub const MAX_POWER_DBM: u16 = 26;

/// Longest Select mask, in bytes: its length goes out in bits, in one byte,
/// so a mask of 32 bytes (256 bits) cannot be announced.
pub const MAX_MASK_BYTES: usize = 31;

/// Longest tag memory write, in bytes.
pub const MAX_WRITE_BYTES: usize = 64;

/// Settling time after starting a multiple poll.
pub const POLL_START_MS: u32 = 100;

/// Longest wait for one piece of stream while polling.
pub const POLL_READ_TIMEOUT_MS: u32 = 50;

/// Pause after a read that brought nothing, in a round-bounded session.
pub const POLL_IDLE_MS: u32 = 50;

/// Size of the buffer each piece of stream is read into.
pub const POLL_CHUNK: usize = 256;

/// A round-bounded session ends after a read that brings nothing once more
/// than this many milliseconds have passed since bytes last arrived (or
/// since the session started).
pub const POLL_MAX_WAIT_MS: u128 = 3000;

/// Most read passes of one polling session, whatever the clock says: a
/// session always ends, even on a clock that stands still.
pub const MAX_POLL_PASSES: u32 = 16_000_000;

/// Pause after a read that brought nothing, in a time-bounded session.
pub const POLL_PAUSE_MS: u32 = 10;

/// Most reads made to discard trailing bytes after a time-bounded session.
pub const MAX_DRAIN_READS: u32 = 64;

/// `k` copies of `frame`.
pub open spec fn repeated(frame: Seq<u8>, k: nat) -> Seq<Seq<u8>> {
    Seq::new(k, |i: int| frame)
}

/// The frames of a time-bounded session: the start of continuous polling,
/// one restart for each round-end notification met while the clock showed
/// time left (readings below `timeout_ms`), and the stop.
pub open spec fn timed_requests(
    pre: Seq<Seq<u8>>,
    post: Seq<Seq<u8>>,
    restart_clocks: Seq<u128>,
    timeout_ms: u128,
) -> bool {
    let start = frame_bytes(CMD_MULTIPLE_POLL, multi_poll_params(0xFFFF));
    post == pre.push(start) + repeated(start, count_below(restart_clocks, timeout_ms)).push(
        frame_bytes(CMD_STOP_MULTIPLE_POLL, Seq::empty()),
    )
}

/// The reads after a stop command: each brought bytes but the last, which
/// brought nothing or failed, unless `MAX_DRAIN_READS` reads were made.
pub open spec fn trailing_reads(reads: Seq<Option<Seq<u8>>>) -> bool {
    &&& 1 <= reads.len() <= MAX_DRAIN_READS
    &&& forall|i: int| 0 <= i < reads.len() - 1 ==> got_bytes(#[trigger] reads[i])
    &&& !got_bytes(reads.last()) || reads.len() == MAX_DRAIN_READS
}

/// The parameters of a multiple poll of `rounds` rounds.
pub open spec fn multi_poll_params(rounds: u16) -> Seq<u8> {
    seq![0x22u8, (rounds / 256) as u8, (rounds % 256) as u8]
}

/// The tags a round-bounded session delivers from the pieces it read: those
/// of the frames before the first round-end notification.
pub open spec fn round_tags(pieces: Seq<Seq<u8>>) -> Seq<TagView> {
    let frames = reassemble(pieces).0;
    frame_tags(frames.take(round_end_index(frames, 0)))
}

/// A round-bounded session is over: a round-end notification came, or the
/// last read brought nothing and the clock reading after it was past the
/// wait budget, or the pass limit was reached.
pub open spec fn round_session_over(
    frames: Seq<Seq<u8>>,
    reads: Seq<Option<Seq<u8>>>,
    clocks: Seq<u128>,
) -> bool {
    ||| round_end_index(frames, 0) < frames.len()
    ||| (reads.len() > 0 && !got_bytes(reads.last()) && clocks.len() > 0 && clocks.last()
        > POLL_MAX_WAIT_MS)
    ||| reads.len() >= MAX_POLL_PASSES
}

/// Relies on the `Debug` formatting of the transport's error, to describe it.
#[verifier::external_body]
fn describe<E: core::fmt::Debug>(e: &E) -> String {
    format!("{:?}", e)
}

fn transport_error<E: core::fmt::Debug>(e: &E) -> (r: UhfError)
    ensures
        r is Transport,
{
    UhfError::Transport(describe(e))
}

fn invalid_parameter(msg: &str) -> (r: UhfError)
    ensures
        r is InvalidParameter,
{
    UhfError::InvalidParameter(msg.to_string())
}

/// The result is an `InvalidParameter` error.
pub open spec fn is_invalid_parameter<X>(r: Result<X, UhfError>) -> bool {
    r is Err && r->Err_0 is InvalidParameter
}

/// The result is a `Transport` error.
pub open spec fn is_transport_error<X>(r: Result<X, UhfError>) -> bool {
    r is Err && r->Err_0 is Transport
}

/// `Some(())` exactly when `ok` holds.
pub open spec fn accepted(ok: bool) -> Option<()> {
    if ok {
        Some(())
    } else {
        None
    }
}

/// `password` followed by `tail`.
fn with_password(password: &[u8; 4], tail: &[u8]) -> (r: Vec<u8>)
    ensures
        r@ == password@ + tail@,
{
    let mut r: Vec<u8> = Vec::new();
    r.push(password[0]);
    r.push(password[1]);
    r.push(password[2]);
    r.push(password[3]);
    let ghost head = r@;
    proof {
        assert(head =~= password@);
    }
    let mut i: usize = 0;
    while i < tail.len()
        invariant
            i <= tail@.len(),
            head == password@,
            r@ == head + tail@.take(i as int),
        decreases tail@.len() - i,
    {
        r.push(tail[i]);
        i = i + 1;
        proof {
            assert(r@ =~= head + tail@.take(i as int));
        }
    }
    proof {
        assert(tail@.take(i as int) =~= tail@);
    }
    r
}

/// A UHF RFID reader reached through the transport `T`.
///
/// Besides the transport, a reader keeps an account of its traffic: every
/// frame it handed to the transport, and every piece of bytes it read and
/// interpreted, in order; and, for the last polling session, every read
/// (with its outcome) and every clock reading that the session made. The
/// contracts of the operations are stated over that account.
pub struct UhfRfid<T: RfidTransport> {
    transport: T,
    requests: Ghost<Seq<Seq<u8>>>,
    replies: Ghost<Seq<Seq<u8>>>,
    session_reads: Ghost<Seq<Option<Seq<u8>>>>,
    session_clocks: Ghost<Seq<u128>>,
    session_restart_clocks: Ghost<Seq<u128>>,
    session_discarded: Ghost<Seq<Option<Seq<u8>>>>,
    session_timeout: Ghost<u128>,
    session_start: Ghost<Seq<TransportCall>>,
    session_tags: Ghost<Seq<TagView>>,
    exchange_calls: Ghost<Seq<TransportCall>>,
}

/// A call the driver made on its transport.
pub enum TransportCall {
    /// `clear_input`.
    ClearInput,
    /// `write` of these bytes.
    Write(Seq<u8>),
    /// `delay_ms` of this many milliseconds.
    Delay(u32),
    /// `read` with this timeout in milliseconds, into a buffer of this size.
    Read(u32, usize),
}

/// The transport calls that start a polling session with `frame`: clear the
/// input, then write the frame.
pub open spec fn start_calls(frame: Seq<u8>) -> Seq<TransportCall> {
    seq![TransportCall::ClearInput, TransportCall::Write(frame)]
}

/// The transport calls of a request/response exchange of `frame` that got
/// an answer: clear the input, write the frame, let the module settle, read.
pub open spec fn exchange_calls_for(frame: Seq<u8>) -> Seq<TransportCall> {
    seq![
        TransportCall::ClearInput,
        TransportCall::Write(frame),
        TransportCall::Delay(SETTLE_MS),
        TransportCall::Read(RESPONSE_TIMEOUT_MS, RESPONSE_CAPACITY),
    ]
}

impl<T: RfidTransport> UhfRfid<T> {
    /// The frames handed to the transport so far.
    pub closed spec fn requests(&self) -> Seq<Seq<u8>> {
        self.requests@
    }

    /// The answers and stream pieces read and interpreted so far.
    pub closed spec fn replies(&self) -> Seq<Seq<u8>> {
        self.replies@
    }

    /// The reads of the last polling session, in order: `None` for a read
    /// that failed, `Some(bytes)` for what a successful one brought (empty
    /// when nothing had arrived). Reads made after the stop command are not
    /// among them.
    pub closed spec fn session_reads(&self) -> Seq<Option<Seq<u8>>> {
        self.session_reads@
    }

    /// The clock readings, in milliseconds, on which the last polling session
    /// decided whether to go on: since the last bytes arrived (or the start)
    /// in a round-bounded session, since the start in a time-bounded one.
    pub closed spec fn session_clocks(&self) -> Seq<u128> {
        self.session_clocks@
    }

    /// The clock readings, in milliseconds since the start, on which the last
    /// time-bounded session decided whether to restart polling, one per
    /// round-end notification, in order.
    pub closed spec fn session_restart_clocks(&self) -> Seq<u128> {
        self.session_restart_clocks@
    }

    /// The transport calls of the last request/response exchange, in order.
    pub closed spec fn exchange_calls(&self) -> Seq<TransportCall> {
        self.exchange_calls@
    }

    /// The transport calls with which the last polling session started, in
    /// order.
    pub closed spec fn session_start(&self) -> Seq<TransportCall> {
        self.session_start@
    }

    /// The tags the last polling session handed on (to the caller's callback,
    /// or into the returned list), in order.
    pub closed spec fn session_tags(&self) -> Seq<TagView> {
        self.session_tags@
    }

    /// The length, in milliseconds, of the last time-bounded session.
    pub closed spec fn session_timeout(&self) -> u128 {
        self.session_timeout@
    }

    /// The reads made after the last time-bounded session's stop command,
    /// whose bytes were discarded.
    pub closed spec fn session_discarded(&self) -> Seq<Option<Seq<u8>>> {
        self.session_discarded@
    }

    /// One request/response exchange of `frame`. Either the input was
    /// cleared, the frame went out, and after the settling time an answer was
    /// read, which is then the last reply and of which `outcome` holds; or a
    /// transport call failed, no call followed it, nothing was read, and the
    /// result is a `Transport` error.
    pub open spec fn transacted<X>(
        pre: Self,
        post: Self,
        frame: Seq<u8>,
        r: Result<X, UhfError>,
        outcome: spec_fn(Seq<u8>) -> bool,
    ) -> bool {
        ||| {
            &&& post.requests() == pre.requests().push(frame)
            &&& post.replies().len() == pre.replies().len() + 1
            &&& post.replies().drop_last() == pre.replies()
            &&& post.exchange_calls() == exchange_calls_for(frame)
            &&& outcome(post.replies().last())
        }
        ||| {
            &&& post.replies() == pre.replies()
            &&& is_transport_error(r)
            &&& {
                ||| post.requests() == pre.requests() && post.exchange_calls() == exchange_calls_for(
                    frame,
                ).take(1)
                ||| post.requests() == pre.requests().push(frame) && post.exchange_calls()
                    == exchange_calls_for(frame).take(2)
                ||| post.requests() == pre.requests().push(frame) && post.exchange_calls()
                    == exchange_calls_for(frame)
            }
        }
    }

    /// Starting a session failed in the transport: clearing the input failed
    /// and nothing was written, or the start frame was written and that
    /// failed. Nothing was read, no tag was handed on, and the result is a
    /// `Transport` error.
    pub open spec fn start_failed<X>(pre: Self, post: Self, frame: Seq<u8>, r: Result<X, UhfError>) -> bool {
        &&& post.replies() == pre.replies()
        &&& post.requests() == pre.requests() && post.session_start() == start_calls(frame).take(1)
            || post.requests() == pre.requests().push(frame) && post.session_start()
            == start_calls(frame)
        &&& post.session_reads() == Seq::<Option<Seq<u8>>>::empty()
        &&& post.session_tags() == Seq::<TagView>::empty()
        &&& is_transport_error(r)
    }

    /// `post` has read on from where `pre` stood: its replies extend those of
    /// `pre`.
    pub open spec fn read_on(pre: Self, post: Self) -> bool {
        &&& pre.replies().len() <= post.replies().len()
        &&& post.replies().subrange(0, pre.replies().len() as int) == pre.replies()
    }

    /// A round-bounded session of `rounds` rounds that ended normally: the
    /// start frame went out, the stream pieces are what its reads brought,
    /// at most one read per pass, and the session is over.
    pub open spec fn round_session(pre: Self, post: Self, rounds: u16) -> bool {
        let pieces = pieces_since(pre.replies(), post.replies());
        &&& post.requests() == pre.requests().push(
            frame_bytes(CMD_MULTIPLE_POLL, multi_poll_params(rounds)),
        )
        &&& Self::read_on(pre, post)
        &&& pieces == pieces_of(post.session_reads())
        &&& post.session_reads().len() <= MAX_POLL_PASSES
        &&& round_session_over(reassemble(pieces).0, post.session_reads(), post.session_clocks())
        &&& post.session_start() == start_calls(
            frame_bytes(CMD_MULTIPLE_POLL, multi_poll_params(rounds)),
        )
        &&& post.session_tags() == round_tags(pieces)
    }

    /// A time-bounded session of `timeout_ms` milliseconds that ended
    /// normally. Each pass read the clock and read the stream only while the
    /// reading was below `timeout_ms`; the session ended on a reading at or
    /// past it, or at the pass limit. The stream pieces are what its reads
    /// brought; there is one restart clock reading per round-end
    /// notification among their frames; the frames sent are those of
    /// `timed_requests`; and the trailing reads are those of
    /// `trailing_reads`.
    pub open spec fn timed_session(pre: Self, post: Self, timeout_ms: u128) -> bool {
        let pieces = pieces_since(pre.replies(), post.replies());
        let reads = post.session_reads();
        let clocks = post.session_clocks();
        &&& Self::read_on(pre, post)
        &&& pieces == pieces_of(reads)
        &&& forall|i: int| 0 <= i < reads.len() ==> #[trigger] clocks[i] < timeout_ms
        &&& (clocks.len() == reads.len() + 1 && clocks.last() >= timeout_ms) || (clocks.len()
            == reads.len() && reads.len() == MAX_POLL_PASSES)
        &&& post.session_restart_clocks().len() == round_end_count(reassemble(pieces).0)
        &&& timed_requests(
            pre.requests(),
            post.requests(),
            post.session_restart_clocks(),
            timeout_ms,
        )
        &&& trailing_reads(post.session_discarded())
        &&& post.session_start() == start_calls(
            frame_bytes(CMD_MULTIPLE_POLL, multi_poll_params(0xFFFF)),
        )
        &&& post.session_tags() == frame_tags(reassemble(pieces).0)
    }

    /// Creates a reader on `transport`.
    pub fn new(transport: T) -> (r: Self)
        ensures
            r.requests() == Seq::<Seq<u8>>::empty(),
            r.replies() == Seq::<Seq<u8>>::empty(),
    {
        UhfRfid {
            transport,
            requests: Ghost(Seq::empty()),
            replies: Ghost(Seq::empty()),
            session_reads: Ghost(Seq::empty()),
            session_clocks: Ghost(Seq::empty()),
            session_restart_clocks: Ghost(Seq::empty()),
            session_discarded: Ghost(Seq::empty()),
            session_timeout: Ghost(0),
            session_start: Ghost(Seq::empty()),
            session_tags: Ghost(Seq::empty()),
            exchange_calls: Ghost(Seq::empty()),
        }
    }

    /// Builds the command frame for `command` with `params`.
    pub fn create_command(command: u8, params: &[u8]) -> (frame: Vec<u8>)
        requires
            params@.len() <= 0xFFFF,
        ensures
            frame@ == frame_bytes(command, params@),
    {
        encode_frame(command, params)
    }

    /// Clears pending input, writes `cmd`, lets the module settle, and reads
    /// its answer.
    fn exec(&mut self, cmd: &Vec<u8>) -> (r: Result<Vec<u8>, UhfError>)
        ensures
            Self::transacted(
                *old(self),
                *final(self),
                cmd@,
                r,
                |reply: Seq<u8>| r is Ok && r->Ok_0@ == reply,
            ),
    {
        self.exchange_calls = Ghost(Seq::empty().push(TransportCall::ClearInput));
        proof {
            assert(self.exchange_calls@ =~= exchange_calls_for(cmd@).take(1));
        }
        if let Err(e) = self.transport.clear_input() {
            return Err(transport_error(&e));
        }
        let written = self.transport.write(cmd.as_slice());
        self.requests = Ghost(self.requests@.push(cmd@));
        self.exchange_calls = Ghost(self.exchange_calls@.push(TransportCall::Write(cmd@)));
        proof {
            assert(self.exchange_calls@ =~= exchange_calls_for(cmd@).take(2));
        }
        if let Err(e) = written {
            return Err(transport_error(&e));
        }
        self.transport.delay_ms(SETTLE_MS);
        let mut response: Vec<u8> = vec![0u8; RESPONSE_CAPACITY];
        self.exchange_calls = Ghost(
            self.exchange_calls@.push(TransportCall::Delay(SETTLE_MS)).push(
                TransportCall::Read(RESPONSE_TIMEOUT_MS, RESPONSE_CAPACITY),
            ),
        );
        proof {
            assert(self.exchange_calls@ =~= exchange_calls_for(cmd@));
        }
        match self.transport.read(response.as_mut_slice(), RESPONSE_TIMEOUT_MS) {
            Ok(n) => {
                response.truncate(n);
                self.replies = Ghost(self.replies@.push(response@));
                proof {
                    assert(self.replies@.drop_last() =~= old(self).replies@);
                }
                Ok(response)
            },
            Err(e) => Err(transport_error(&e)),
        }
    }

    /// Sends `command` with `params` and accepts an answer with status zero.
    fn simple_command(&mut self, command: u8, params: &[u8], what: &str) -> (r: Result<
        (),
        UhfError,
    >)
        requires
            params@.len() <= 0xFFFF,
        ensures
            Self::transacted(
                *old(self),
                *final(self),
                frame_bytes(command, params@),
                r,
                |reply: Seq<u8>| decoded(r, accepted(status_ok(reply, command))),
            ),
    {
        let reply = self.exec(&encode_frame(command, params))?;
        decode_status(reply.as_slice(), command, what)
    }

    /// Sends the tag operation `command` with `params` and accepts an answer
    /// with status zero; a device error code is reported in the message.
    fn tag_command(&mut self, command: u8, params: &[u8], op: &str, what: &str) -> (r: Result<
        (),
        UhfError,
    >)
        requires
            params@.len() <= 0xFFFF,
        ensures
            Self::transacted(
                *old(self),
                *final(self),
                frame_bytes(command, params@),
                r,
                |reply: Seq<u8>| tag_outcome(reply, command, r),
            ),
    {
        let reply = self.exec(&encode_frame(command, params))?;
        decode_device_status(reply.as_slice(), command, op, what)
    }

    /// Reads the firmware version.
    pub fn get_firmware_version(&mut self) -> (r: Result<String, UhfError>)
        ensures
            Self::transacted(
                *old(self),
                *final(self),
                frame_bytes(CMD_GET_FIRMWARE, seq![0x01u8]),
                r,
                |reply: Seq<u8>| decoded_view(r, firmware_reply(reply)),
            ),
    {
        let params: [u8; 1] = [0x01];
        proof {
            assert(params@ =~= seq![0x01u8]);
        }
        let reply = self.exec(&encode_frame(CMD_GET_FIRMWARE, &params))?;
        parse_firmware_version(reply.as_slice())
    }

    /// Polls once for a tag; no tag in range is `Ok(None)`.
    pub fn single_poll(&mut self) -> (r: Result<Option<TagInfo>, UhfError>)
        ensures
            Self::transacted(
                *old(self),
                *final(self),
                frame_bytes(CMD_SINGLE_POLL, Seq::empty()),
                r,
                |reply: Seq<u8>|
                    match tag_reply(reply) {
                        None => is_invalid_response(r),
                        Some(None) => r == Ok::<Option<TagInfo>, UhfError>(None),
                        Some(Some(t)) => r is Ok && r->Ok_0 is Some && r->Ok_0->0@ == t,
                    },
            ),
    {
        let params: [u8; 0] = [];
        proof {
            assert(params@ =~= Seq::<u8>::empty());
        }
        let reply = self.exec(&encode_frame(CMD_SINGLE_POLL, &params))?;
        parse_tag(reply.as_slice())
    }

    /// Reads the transmit power, in dBm.
    pub fn get_tx_power(&mut self) -> (r: Result<u16, UhfError>)
        ensures
            Self::transacted(
                *old(self),
                *final(self),
                frame_bytes(CMD_GET_TX_POWER, Seq::empty()),
                r,
                |reply: Seq<u8>| decoded(r, tx_power_reply(reply)),
            ),
    {
        let params: [u8; 0] = [];
        proof {
            assert(params@ =~= Seq::<u8>::empty());
        }
        let reply = self.exec(&encode_frame(CMD_GET_TX_POWER, &params))?;
        decode_tx_power(reply.as_slice())
    }

    /// Sets the transmit power; only 18 to 26 dBm are accepted. The power is
    /// sent in hundredths of a dBm, big-endian.
    pub fn set_tx_power(&mut self, power_dbm: u16) -> (r: Result<(), UhfError>)
        ensures
            power_dbm < MIN_POWER_DBM || power_dbm > MAX_POWER_DBM ==> is_invalid_parameter(r)
                && *final(self) == *old(self),
            MIN_POWER_DBM <= power_dbm <= MAX_POWER_DBM ==> Self::transacted(
                *old(self),
                *final(self),
                frame_bytes(
                    CMD_SET_TX_POWER,
                    seq![((power_dbm * 100) / 256) as u8, ((power_dbm * 100) % 256) as u8],
                ),
                r,
                |reply: Seq<u8>| decoded(r, accepted(status_ok(reply, CMD_SET_TX_POWER))),
            ),
    {
        if power_dbm < MIN_POWER_DBM {
            return Err(invalid_parameter("Transmit power too low (minimum: 18 dBm)"));
        }
        if power_dbm > MAX_POWER_DBM {
            return Err(invalid_parameter("Transmit power too high (maximum: 26 dBm)"));
        }
        let power = power_dbm * 100;
        let params: [u8; 2] = [(power / 256) as u8, (power % 256) as u8];
        proof {
            assert(params@ =~= seq![((power_dbm * 100) / 256) as u8, ((power_dbm * 100) % 256) as u8]);
        }
        self.simple_command(CMD_SET_TX_POWER, &params, "Failed to set transmit power")
    }

    /// Stops a multiple-poll run.
    pub fn stop_multiple_poll(&mut self) -> (r: Result<(), UhfError>)
        ensures
            Self::transacted(
                *old(self),
                *final(self),
                frame_bytes(CMD_STOP_MULTIPLE_POLL, Seq::empty()),
                r,
                |reply: Seq<u8>| decoded(r, accepted(status_ok(reply, CMD_STOP_MULTIPLE_POLL))),
            ),
    {
        let params: [u8; 0] = [];
        proof {
            assert(params@ =~= Seq::<u8>::empty());
        }
        self.simple_command(CMD_STOP_MULTIPLE_POLL, &params, "Failed to stop multiple polling")
    }

    /// Sets the Select parameters, which filter later tag operations; masks
    /// of 32 bytes or more are refused.
    pub fn set_select_param(&mut self, params: &SelectParams) -> (r: Result<(), UhfError>)
        ensures
            params.mask@.len() > MAX_MASK_BYTES ==> is_invalid_parameter(r) && *final(self)
                == *old(self),
            params.mask@.len() <= MAX_MASK_BYTES ==> Self::transacted(
                *old(self),
                *final(self),
                frame_bytes(CMD_SET_SELECT_PARAM, select_block(params@)),
                r,
                |reply: Seq<u8>| decoded(r, accepted(status_ok(reply, CMD_SET_SELECT_PARAM))),
            ),
    {
        if params.mask.len() > MAX_MASK_BYTES {
            return Err(invalid_parameter("Mask length exceeds maximum of 31 bytes"));
        }
        let block = params.to_bytes();
        self.simple_command(CMD_SET_SELECT_PARAM, block.as_slice(), "Failed to set select parameters")
    }

    /// Reads the Select parameters.
    pub fn get_select_param(&mut self) -> (r: Result<SelectParams, UhfError>)
        ensures
            Self::transacted(
                *old(self),
                *final(self),
                frame_bytes(CMD_GET_SELECT_PARAM, Seq::empty()),
                r,
                |reply: Seq<u8>| decoded_view(r, select_reply(reply)),
            ),
    {
        let params: [u8; 0] = [];
        proof {
            assert(params@ =~= Seq::<u8>::empty());
        }
        let reply = self.exec(&encode_frame(CMD_GET_SELECT_PARAM, &params))?;
        decode_select_param(reply.as_slice())
    }

    /// Sets when the reader sends a Select command before tag operations.
    pub fn set_select_mode(&mut self, mode: SelectMode) -> (r: Result<(), UhfError>)
        ensures
            Self::transacted(
                *old(self),
                *final(self),
                frame_bytes(CMD_SET_SELECT_MODE, seq![mode.spec_code()]),
                r,
                |reply: Seq<u8>| decoded(r, accepted(ack_ok(reply))),
            ),
    {
        let params: [u8; 1] = [mode.code()];
        proof {
            assert(params@ =~= seq![mode.spec_code()]);
        }
        let reply = self.exec(&encode_frame(CMD_SET_SELECT_MODE, &params))?;
        decode_ack(reply.as_slice(), "Failed to set select mode")
    }

    /// Reads the Query parameters.
    pub fn get_query_param(&mut self) -> (r: Result<QueryParams, UhfError>)
        ensures
            Self::transacted(
                *old(self),
                *final(self),
                frame_bytes(CMD_GET_QUERY_PARAM, Seq::empty()),
                r,
                |reply: Seq<u8>| decoded(r, query_reply(reply)),
            ),
    {
        let params: [u8; 0] = [];
        proof {
            assert(params@ =~= Seq::<u8>::empty());
        }
        let reply = self.exec(&encode_frame(CMD_GET_QUERY_PARAM, &params))?;
        decode_query_param(reply.as_slice())
    }

    /// Sets the Query parameters; a Q above 15 is refused.
    pub fn set_query_param(&mut self, params: &QueryParams) -> (r: Result<(), UhfError>)
        ensures
            params.q > 15 ==> is_invalid_parameter(r) && *final(self) == *old(self),
            params.q <= 15 ==> Self::transacted(
                *old(self),
                *final(self),
                frame_bytes(CMD_SET_QUERY_PARAM, query_bytes(*params)),
                r,
                |reply: Seq<u8>| decoded(r, accepted(status_ok(reply, CMD_SET_QUERY_PARAM))),
            ),
    {
        if params.q > 15 {
            return Err(invalid_parameter("Q value must be 0-15"));
        }
        let bytes = params.to_bytes();
        self.simple_command(CMD_SET_QUERY_PARAM, &bytes, "Failed to set query parameters")
    }

    /// Reads the operating region.
    pub fn get_region(&mut self) -> (r: Result<Region, UhfError>)
        ensures
            Self::transacted(
                *old(self),
                *final(self),
                frame_bytes(CMD_GET_REGION, Seq::empty()),
                r,
                |reply: Seq<u8>| decoded(r, region_reply(reply)),
            ),
    {
        let params: [u8; 0] = [];
        proof {
            assert(params@ =~= Seq::<u8>::empty());
        }
        let reply = self.exec(&encode_frame(CMD_GET_REGION, &params))?;
        decode_region(reply.as_slice())
    }

    /// Sets the operating region.
    pub fn set_region(&mut self, region: Region) -> (r: Result<(), UhfError>)
        ensures
            Self::transacted(
                *old(self),
                *final(self),
                frame_bytes(CMD_SET_REGION, seq![region.spec_code()]),
                r,
                |reply: Seq<u8>| decoded(r, accepted(status_ok(reply, CMD_SET_REGION))),
            ),
    {
        let params: [u8; 1] = [region.code()];
        proof {
            assert(params@ =~= seq![region.spec_code()]);
        }
        self.simple_command(CMD_SET_REGION, &params, "Failed to set region")
    }

    /// Reads the operating channel index.
    pub fn get_channel(&mut self) -> (r: Result<u8, UhfError>)
        ensures
            Self::transacted(
                *old(self),
                *final(self),
                frame_bytes(CMD_GET_CHANNEL, Seq::empty()),
                r,
                |reply: Seq<u8>| decoded(r, byte_reply(reply, CMD_GET_CHANNEL)),
            ),
    {
        let params: [u8; 0] = [];
        proof {
            assert(params@ =~= Seq::<u8>::empty());
        }
        let reply = self.exec(&encode_frame(CMD_GET_CHANNEL, &params))?;
        decode_byte(reply.as_slice(), CMD_GET_CHANNEL, "Failed to get channel")
    }

    /// Sends a command whose single parameter byte is `param`.
    fn byte_command(&mut self, command: u8, param: u8, what: &str) -> (r: Result<(), UhfError>)
        ensures
            Self::transacted(
                *old(self),
                *final(self),
                frame_bytes(command, seq![param]),
                r,
                |reply: Seq<u8>| decoded(r, accepted(status_ok(reply, command))),
            ),
    {
        let params: [u8; 1] = [param];
        proof {
            assert(params@ =~= seq![param]);
        }
        self.simple_command(command, &params, what)
    }

    /// Sets the operating channel index.
    pub fn set_channel(&mut self, channel: u8) -> (r: Result<(), UhfError>)
        ensures
            Self::transacted(
                *old(self),
                *final(self),
                frame_bytes(CMD_SET_CHANNEL, seq![channel]),
                r,
                |reply: Seq<u8>| decoded(r, accepted(status_ok(reply, CMD_SET_CHANNEL))),
            ),
    {
        self.byte_command(CMD_SET_CHANNEL, channel, "Failed to set channel")
    }

    /// Turns automatic frequency hopping on (`0xFF`) or off (`0x00`).
    pub fn set_auto_freq_hop(&mut self, enabled: bool) -> (r: Result<(), UhfError>)
        ensures
            Self::transacted(
                *old(self),
                *final(self),
                frame_bytes(CMD_SET_AUTO_FREQ_HOP, seq![if enabled { 0xFFu8 } else { 0x00u8 }]),
                r,
                |reply: Seq<u8>| decoded(r, accepted(status_ok(reply, CMD_SET_AUTO_FREQ_HOP))),
            ),
    {
        let param: u8 = if enabled {
            0xFF
        } else {
            0x00
        };
        self.byte_command(CMD_SET_AUTO_FREQ_HOP, param, "Failed to set auto frequency hopping")
    }

    /// Adds a channel to the frequency hopping table.
    pub fn insert_channel(&mut self, channel: u8) -> (r: Result<(), UhfError>)
        ensures
            Self::transacted(
                *old(self),
                *final(self),
                frame_bytes(CMD_INSERT_CHANNEL, seq![channel]),
                r,
                |reply: Seq<u8>| decoded(r, accepted(status_ok(reply, CMD_INSERT_CHANNEL))),
            ),
    {
        self.byte_command(CMD_INSERT_CHANNEL, channel, "Failed to insert channel")
    }

    /// Turns the continuous unmodulated carrier on (`0xFF`) or off (`0x00`).
    pub fn set_continuous_carrier(&mut self, enabled: bool) -> (r: Result<(), UhfError>)
        ensures
            Self::transacted(
                *old(self),
                *final(self),
                frame_bytes(CMD_SET_CONTINUOUS_CARRIER, seq![if enabled { 0xFFu8 } else { 0x00u8 }]),
                r,
                |reply: Seq<u8>|
                    decoded(r, accepted(status_ok(reply, CMD_SET_CONTINUOUS_CARRIER))),
            ),
    {
        let param: u8 = if enabled {
            0xFF
        } else {
            0x00
        };
        self.byte_command(CMD_SET_CONTINUOUS_CARRIER, param, "Failed to set continuous carrier")
    }

    /// Sets the baud rate by index: 0 is 38400, 1 is 115200, 2 is 9600 bps;
    /// other indices are refused. The transport must follow the change.
    pub fn set_baud_rate(&mut self, rate_index: u8) -> (r: Result<(), UhfError>)
        ensures
            rate_index > 2 ==> is_invalid_parameter(r) && *final(self) == *old(self),
            rate_index <= 2 ==> Self::transacted(
                *old(self),
                *final(self),
                frame_bytes(CMD_SET_BAUD_RATE, seq![rate_index]),
                r,
                |reply: Seq<u8>| decoded(r, accepted(status_ok(reply, CMD_SET_BAUD_RATE))),
            ),
    {
        if rate_index > 2 {
            return Err(
                invalid_parameter("Baud rate index must be 0 (38400), 1 (115200), or 2 (9600)"),
            );
        }
        self.byte_command(CMD_SET_BAUD_RATE, rate_index, "Failed to set baud rate")
    }

    /// Reads `word_count` words from a tag's memory bank, starting at word
    /// `word_ptr`; a word count of zero is refused.
    pub fn read_tag_data(
        &mut self,
        access_password: &[u8; 4],
        mem_bank: MemoryBank,
        word_ptr: u8,
        word_count: u8,
    ) -> (r: Result<Vec<u8>, UhfError>)
        ensures
            word_count == 0 ==> is_invalid_parameter(r) && *final(self) == *old(self),
            word_count > 0 ==> Self::transacted(
                *old(self),
                *final(self),
                frame_bytes(
                    CMD_READ_TAG_DATA,
                    access_password@ + seq![mem_bank.spec_code(), word_ptr, word_count],
                ),
                r,
                |reply: Seq<u8>| decoded_view(r, tag_data_reply(reply)),
            ),
    {
        if word_count == 0 {
            return Err(invalid_parameter("Word count must be at least 1"));
        }
        let tail: [u8; 3] = [mem_bank.code(), word_ptr, word_count];
        proof {
            assert(tail@ =~= seq![mem_bank.spec_code(), word_ptr, word_count]);
        }
        let params = with_password(access_password, &tail);
        let reply = self.exec(&encode_frame(CMD_READ_TAG_DATA, params.as_slice()))?;
        decode_tag_data(reply.as_slice())
    }

    /// Writes `data` to a tag's memory bank from word `word_ptr` on. The data
    /// must be non-empty, of even length, and at most 64 bytes long.
    pub fn write_tag_data(
        &mut self,
        access_password: &[u8; 4],
        mem_bank: MemoryBank,
        word_ptr: u8,
        data: &[u8],
    ) -> (r: Result<(), UhfError>)
        ensures
            (data@.len() == 0 || data@.len() % 2 != 0 || data@.len() > MAX_WRITE_BYTES)
                ==> is_invalid_parameter(r) && *final(self) == *old(self),
            !(data@.len() == 0 || data@.len() % 2 != 0 || data@.len() > MAX_WRITE_BYTES)
                ==> Self::transacted(
                *old(self),
                *final(self),
                frame_bytes(
                    CMD_WRITE_TAG_DATA,
                    access_password@ + seq![
                        mem_bank.spec_code(),
                        word_ptr,
                        (data@.len() / 2) as u8,
                    ] + data@,
                ),
                r,
                |reply: Seq<u8>| tag_outcome(reply, CMD_WRITE_TAG_DATA, r),
            ),
    {
        if data.len() == 0 {
            return Err(invalid_parameter("Data cannot be empty"));
        }
        if data.len() % 2 != 0 {
            return Err(invalid_parameter("Data length must be even (word-aligned)"));
        }
        if data.len() > MAX_WRITE_BYTES {
            return Err(invalid_parameter("Data length exceeds maximum of 64 bytes"));
        }
        let mut tail: Vec<u8> = Vec::new();
        tail.push(mem_bank.code());
        tail.push(word_ptr);
        tail.push((data.len() / 2) as u8);
        let ghost head = tail@;
        let mut i: usize = 0;
        while i < data.len()
            invariant
                i <= data@.len(),
                tail@ == head + data@.take(i as int),
            decreases data@.len() - i,
        {
            tail.push(data[i]);
            i = i + 1;
            proof {
                assert(tail@ =~= head + data@.take(i as int));
            }
        }
        let params = with_password(access_password, tail.as_slice());
        proof {
            assert(data@.take(i as int) =~= data@);
            assert(params@ =~= access_password@ + seq![
                mem_bank.spec_code(),
                word_ptr,
                (data@.len() / 2) as u8,
            ] + data@);
        }
        self.tag_command(CMD_WRITE_TAG_DATA, params.as_slice(), "Write", "Failed to write tag data")
    }

    /// Locks or unlocks one memory area of a tag. Permanent actions cannot
    /// be undone.
    pub fn lock_tag(&mut self, access_password: &[u8; 4], lock_payload: &LockPayload) -> (r:
        Result<(), UhfError>)
        ensures
            Self::transacted(
                *old(self),
                *final(self),
                frame_bytes(
                    CMD_LOCK_TAG,
                    access_password@ + lock_bytes(lock_payload.target, lock_payload.action),
                ),
                r,
                |reply: Seq<u8>| tag_outcome(reply, CMD_LOCK_TAG, r),
            ),
    {
        let lock = lock_payload.to_bytes();
        let params = with_password(access_password, &lock);
        self.tag_command(CMD_LOCK_TAG, params.as_slice(), "Lock", "Failed to lock tag")
    }

    /// Kills a tag for good; the all-zero kill password is refused.
    pub fn kill_tag(&mut self, kill_password: &[u8; 4]) -> (r: Result<(), UhfError>)
        ensures
            kill_password@ == seq![0u8, 0u8, 0u8, 0u8] ==> is_invalid_parameter(r)
                && *final(self) == *old(self),
            kill_password@ != seq![0u8, 0u8, 0u8, 0u8] ==> Self::transacted(
                *old(self),
                *final(self),
                frame_bytes(CMD_KILL_TAG, kill_password@),
                r,
                |reply: Seq<u8>| tag_outcome(reply, CMD_KILL_TAG, r),
            ),
    {
        if kill_password[0] == 0 && kill_password[1] == 0 && kill_password[2] == 0
            && kill_password[3] == 0 {
            proof {
                assert(kill_password@ =~= seq![0u8, 0u8, 0u8, 0u8]);
            }
            return Err(invalid_parameter("Kill password must be non-zero"));
        }
        self.tag_command(CMD_KILL_TAG, kill_password, "Kill", "Failed to kill tag")
    }

    /// Starts an inventory of `rounds` rounds whose results the reader keeps
    /// in its buffer; zero rounds are refused.
    pub fn inventory_buffer(&mut self, rounds: u16) -> (r: Result<(), UhfError>)
        ensures
            rounds == 0 ==> is_invalid_parameter(r) && *final(self) == *old(self),
            rounds > 0 ==> Self::transacted(
                *old(self),
                *final(self),
                frame_bytes(CMD_INVENTORY_BUFFER, seq![0x22u8, (rounds / 256) as u8, (rounds % 256) as u8]),
                r,
                |reply: Seq<u8>| decoded(r, accepted(status_ok(reply, CMD_INVENTORY_BUFFER))),
            ),
    {
        if rounds == 0 {
            return Err(invalid_parameter("Inventory rounds must be at least 1"));
        }
        let params: [u8; 3] = [0x22, (rounds / 256) as u8, (rounds % 256) as u8];
        proof {
            assert(params@ =~= seq![0x22u8, (rounds / 256) as u8, (rounds % 256) as u8]);
        }
        self.simple_command(CMD_INVENTORY_BUFFER, &params, "Failed to start inventory buffer")
    }

    /// Reads the tags the reader holds in its buffer.
    pub fn get_buffer_data(&mut self) -> (r: Result<Vec<TagInfo>, UhfError>)
        ensures
            Self::transacted(
                *old(self),
                *final(self),
                frame_bytes(CMD_GET_BUFFER_DATA, Seq::empty()),
                r,
                |reply: Seq<u8>|
                    match buffer_reply(reply) {
                        Some(tags) => r is Ok && tag_views(r->Ok_0@) == tags,
                        None => is_invalid_response(r),
                    },
            ),
    {
        let params: [u8; 0] = [];
        proof {
            assert(params@ =~= Seq::<u8>::empty());
        }
        let reply = self.exec(&encode_frame(CMD_GET_BUFFER_DATA, &params))?;
        decode_buffer(reply.as_slice())
    }

    /// Clears the reader's tag buffer.
    pub fn clear_buffer(&mut self) -> (r: Result<(), UhfError>)
        ensures
            Self::transacted(
                *old(self),
                *final(self),
                frame_bytes(CMD_CLEAR_BUFFER, Seq::empty()),
                r,
                |reply: Seq<u8>| decoded(r, accepted(status_ok(reply, CMD_CLEAR_BUFFER))),
            ),
    {
        let params: [u8; 0] = [];
        proof {
            assert(params@ =~= Seq::<u8>::empty());
        }
        self.simple_command(CMD_CLEAR_BUFFER, &params, "Failed to clear buffer")
    }

    /// Reads the RF link profile.
    pub fn get_rf_link_profile(&mut self) -> (r: Result<RfLinkProfile, UhfError>)
        ensures
            Self::transacted(
                *old(self),
                *final(self),
                frame_bytes(CMD_GET_RF_LINK_PROFILE, Seq::empty()),
                r,
                |reply: Seq<u8>| decoded(r, rf_link_profile_reply(reply)),
            ),
    {
        let params: [u8; 0] = [];
        proof {
            assert(params@ =~= Seq::<u8>::empty());
        }
        let reply = self.exec(&encode_frame(CMD_GET_RF_LINK_PROFILE, &params))?;
        decode_rf_link_profile(reply.as_slice())
    }

    /// Sets the RF link profile.
    pub fn set_rf_link_profile(&mut self, profile: RfLinkProfile) -> (r: Result<(), UhfError>)
        ensures
            Self::transacted(
                *old(self),
                *final(self),
                frame_bytes(CMD_SET_RF_LINK_PROFILE, seq![profile.spec_code()]),
                r,
                |reply: Seq<u8>| decoded(r, accepted(status_ok(reply, CMD_SET_RF_LINK_PROFILE))),
            ),
    {
        self.byte_command(CMD_SET_RF_LINK_PROFILE, profile.code(), "Failed to set RF link profile")
    }

    /// Reads the reader sensitivity (higher is less sensitive).
    pub fn get_reader_sensitivity(&mut self) -> (r: Result<u8, UhfError>)
        ensures
            Self::transacted(
                *old(self),
                *final(self),
                frame_bytes(CMD_GET_READER_SENSITIVITY, Seq::empty()),
                r,
                |reply: Seq<u8>| decoded(r, byte_reply(reply, CMD_GET_READER_SENSITIVITY)),
            ),
    {
        let params: [u8; 0] = [];
        proof {
            assert(params@ =~= Seq::<u8>::empty());
        }
        let reply = self.exec(&encode_frame(CMD_GET_READER_SENSITIVITY, &params))?;
        decode_byte(reply.as_slice(), CMD_GET_READER_SENSITIVITY, "Failed to get reader sensitivity")
    }

    /// Sets the reader sensitivity.
    pub fn set_reader_sensitivity(&mut self, sensitivity: u8) -> (r: Result<(), UhfError>)
        ensures
            Self::transacted(
                *old(self),
                *final(self),
                frame_bytes(CMD_SET_READER_SENSITIVITY, seq![sensitivity]),
                r,
                |reply: Seq<u8>|
                    decoded(r, accepted(status_ok(reply, CMD_SET_READER_SENSITIVITY))),
            ),
    {
        self.byte_command(CMD_SET_READER_SENSITIVITY, sensitivity, "Failed to set reader sensitivity")
    }

    /// Permanently locks the memory blocks that `mask` selects, from block
    /// `block_ptr` over `block_range` blocks. This cannot be undone.
    pub fn block_permalock(
        &mut self,
        access_password: &[u8; 4],
        mem_bank: MemoryBank,
        block_ptr: u8,
        block_range: u8,
        mask: u16,
    ) -> (r: Result<(), UhfError>)
        ensures
            Self::transacted(
                *old(self),
                *final(self),
                frame_bytes(
                    CMD_BLOCK_PERMALOCK,
                    access_password@ + seq![
                        mem_bank.spec_code(),
                        block_ptr,
                        block_range,
                        (mask / 256) as u8,
                        (mask % 256) as u8,
                    ],
                ),
                r,
                |reply: Seq<u8>| tag_outcome(reply, CMD_BLOCK_PERMALOCK, r),
            ),
    {
        let tail: [u8; 5] = [
            mem_bank.code(),
            block_ptr,
            block_range,
            (mask / 256) as u8,
            (mask % 256) as u8,
        ];
        proof {
            assert(tail@ =~= seq![
                mem_bank.spec_code(),
                block_ptr,
                block_range,
                (mask / 256) as u8,
                (mask % 256) as u8,
            ]);
        }
        let params = with_password(access_password, &tail);
        self.tag_command(
            CMD_BLOCK_PERMALOCK,
            params.as_slice(),
            "Block permalock",
            "Failed to block permalock",
        )
    }

    /// Turns read protection on for an NXP UCODE tag.
    pub fn nxp_read_protect(&mut self, access_password: &[u8; 4]) -> (r: Result<(), UhfError>)
        ensures
            Self::transacted(
                *old(self),
                *final(self),
                frame_bytes(CMD_NXP_READ_PROTECT, access_password@),
                r,
                |reply: Seq<u8>| tag_outcome(reply, CMD_NXP_READ_PROTECT, r),
            ),
    {
        self.tag_command(
            CMD_NXP_READ_PROTECT,
            access_password,
            "NXP Read Protect",
            "Failed to enable NXP read protect",
        )
    }

    /// Turns read protection off for an NXP UCODE tag.
    pub fn nxp_reset_read_protect(&mut self, access_password: &[u8; 4]) -> (r: Result<
        (),
        UhfError,
    >)
        ensures
            Self::transacted(
                *old(self),
                *final(self),
                frame_bytes(CMD_NXP_RESET_READ_PROTECT, access_password@),
                r,
                |reply: Seq<u8>| tag_outcome(reply, CMD_NXP_RESET_READ_PROTECT, r),
            ),
    {
        self.tag_command(
            CMD_NXP_RESET_READ_PROTECT,
            access_password,
            "NXP Reset Read Protect",
            "Failed to reset NXP read protect",
        )
    }

    /// Turns electronic article surveillance on (`0x01`) or off (`0x00`)
    /// for an NXP tag.
    pub fn nxp_change_eas(&mut self, access_password: &[u8; 4], enabled: bool) -> (r: Result<
        (),
        UhfError,
    >)
        ensures
            Self::transacted(
                *old(self),
                *final(self),
                frame_bytes(
                    CMD_NXP_CHANGE_EAS,
                    access_password@ + seq![if enabled { 0x01u8 } else { 0x00u8 }],
                ),
                r,
                |reply: Seq<u8>| tag_outcome(reply, CMD_NXP_CHANGE_EAS, r),
            ),
    {
        let tail: [u8; 1] = [
            if enabled {
                0x01
            } else {
                0x00
            },
        ];
        proof {
            assert(tail@ =~= seq![if enabled { 0x01u8 } else { 0x00u8 }]);
        }
        let params = with_password(access_password, &tail);
        self.tag_command(
            CMD_NXP_CHANGE_EAS,
            params.as_slice(),
            "NXP Change EAS",
            "Failed to change NXP EAS",
        )
    }

    /// Checks for an EAS alarm from NXP tags.
    pub fn nxp_eas_alarm(&mut self) -> (r: Result<bool, UhfError>)
        ensures
            Self::transacted(
                *old(self),
                *final(self),
                frame_bytes(CMD_NXP_EAS_ALARM, Seq::empty()),
                r,
                |reply: Seq<u8>| decoded(r, eas_reply(reply)),
            ),
    {
        let params: [u8; 0] = [];
        proof {
            assert(params@ =~= Seq::<u8>::empty());
        }
        let reply = self.exec(&encode_frame(CMD_NXP_EAS_ALARM, &params))?;
        decode_eas_alarm(reply.as_slice())
    }

    /// Writes the 16-bit configuration word of an NXP UCODE tag.
    pub fn nxp_change_config(&mut self, access_password: &[u8; 4], config_word: u16) -> (r:
        Result<(), UhfError>)
        ensures
            Self::transacted(
                *old(self),
                *final(self),
                frame_bytes(
                    CMD_NXP_CHANGE_CONFIG,
                    access_password@ + seq![(config_word / 256) as u8, (config_word % 256) as u8],
                ),
                r,
                |reply: Seq<u8>| tag_outcome(reply, CMD_NXP_CHANGE_CONFIG, r),
            ),
    {
        let tail: [u8; 2] = [(config_word / 256) as u8, (config_word % 256) as u8];
        proof {
            assert(tail@ =~= seq![(config_word / 256) as u8, (config_word % 256) as u8]);
        }
        let params = with_password(access_password, &tail);
        self.tag_command(
            CMD_NXP_CHANGE_CONFIG,
            params.as_slice(),
            "NXP Change Config",
            "Failed to change NXP config",
        )
    }

    /// Reads (`read`, flag `0x00`) or writes (flag `0x01`) the QT settings of
    /// an Impinj Monza tag, and returns the QT byte of the answer.
    pub fn impinj_monza_qt(
        &mut self,
        access_password: &[u8; 4],
        qt_control: &QtControl,
        read: bool,
    ) -> (r: Result<u8, UhfError>)
        ensures
            Self::transacted(
                *old(self),
                *final(self),
                frame_bytes(
                    CMD_IMPINJ_MONZA_QT,
                    access_password@ + seq![
                        if read { 0x00u8 } else { 0x01u8 },
                        qt_byte(*qt_control),
                    ],
                ),
                r,
                |reply: Seq<u8>| decoded(r, monza_qt_reply(reply)),
            ),
    {
        let tail: [u8; 2] = [
            if read {
                0x00
            } else {
                0x01
            },
            qt_control.to_byte(),
        ];
        proof {
            assert(tail@ =~= seq![if read { 0x00u8 } else { 0x01u8 }, qt_byte(*qt_control)]);
        }
        let params = with_password(access_password, &tail);
        let reply = self.exec(&encode_frame(CMD_IMPINJ_MONZA_QT, params.as_slice()))?;
        decode_monza_qt(reply.as_slice())
    }

    /// Runs a round-bounded polling session: starts a multiple poll of
    /// `rounds` rounds, then reads the stream piece by piece, cuts it into
    /// frames and hands their tags to `sink` until the round-end
    /// notification arrives, or until a read brings nothing once the wait
    /// budget since bytes last arrived is spent (the decisions of
    /// `round_step`). Read failures during the session count as "nothing
    /// arrived".
    fn poll_rounds<S: TagSink>(&mut self, rounds: u16, sink: &mut S) -> (r: Result<
        usize,
        UhfError,
    >)
        requires
            old(sink).ready(),
        ensures
            final(sink).ready(),
            rounds == 0 ==> is_invalid_parameter(r) && *final(self) == *old(self)
                && final(sink).taken() == old(sink).taken(),
            rounds > 0 && r is Err ==> Self::start_failed(
                *old(self),
                *final(self),
                frame_bytes(CMD_MULTIPLE_POLL, multi_poll_params(rounds)),
                r,
            ) && final(sink).taken() == old(sink).taken() && final(self).session_reads()
                == Seq::<Option<Seq<u8>>>::empty(),
            rounds > 0 && r is Ok ==> Self::round_session(*old(self), *final(self), rounds)
                && final(sink).taken() == old(sink).taken() + round_tags(
                pieces_since(old(self).replies(), final(self).replies()),
            ) && r->Ok_0 == round_tags(
                pieces_since(old(self).replies(), final(self).replies()),
            ).len(),
    {
        if rounds == 0 {
            return Err(invalid_parameter("Poll rounds must be at least 1"));
        }
        self.session_reads = Ghost(Seq::empty());
        self.session_clocks = Ghost(Seq::empty());
        self.session_tags = Ghost(Seq::empty());
        let params: [u8; 3] = [0x22, (rounds / 256) as u8, (rounds % 256) as u8];
        proof {
            assert(params@ =~= multi_poll_params(rounds));
        }
        let frame = encode_frame(CMD_MULTIPLE_POLL, &params);
        self.session_start = Ghost(Seq::empty().push(TransportCall::ClearInput));
        proof {
            assert(self.session_start@ =~= start_calls(frame@).take(1));
        }
        if let Err(e) = self.transport.clear_input() {
            return Err(transport_error(&e));
        }
        let written = self.transport.write(frame.as_slice());
        self.requests = Ghost(self.requests@.push(frame@));
        self.session_start = Ghost(self.session_start@.push(TransportCall::Write(frame@)));
        proof {
            assert(self.session_start@ =~= start_calls(frame@));
        }
        if let Err(e) = written {
            return Err(transport_error(&e));
        }
        self.transport.delay_ms(POLL_START_MS);
        let mut last_data = clock_now();
        let mut pending = FrameAssembler::new();
        let mut count: usize = 0;
        let mut passes: u32 = 0;
        let mut stop = false;
        let ghost mut ended_seen = false;
        proof {
            assert(pieces_since(old(self).replies(), self.replies()) =~= Seq::<Seq<u8>>::empty());
            assert(self.replies@.subrange(0, old(self).replies@.len() as int) =~= old(self).replies@);
            assert(frame_tags(Seq::<Seq<u8>>::empty()) =~= Seq::<TagView>::empty());
            assert(sink.taken() =~= old(sink).taken() + Seq::<TagView>::empty());
            lemma_round_end_index(Seq::<Seq<u8>>::empty(), 0, 0);
        }
        while passes < MAX_POLL_PASSES && !stop
            invariant
                sink.ready(),
                rounds > 0,
                frame@ == frame_bytes(CMD_MULTIPLE_POLL, multi_poll_params(rounds)),
                self.session_start@ == start_calls(frame@),
                self.session_tags@ == Seq::<TagView>::empty(),
                self.requests@ == old(self).requests@.push(frame@),
                Self::read_on(*old(self), *self),
                passes <= MAX_POLL_PASSES,
                self.session_reads@.len() == passes,
                pieces_since(old(self).replies(), self.replies()) == pieces_of(self.session_reads@),
                ({
                    let pieces = pieces_since(old(self).replies(), self.replies());
                    let done = reassemble(pieces);
                    &&& sink.taken() == old(sink).taken() + round_tags(pieces)
                    &&& count == round_tags(pieces).len()
                    &&& !ended_seen ==> done.1 == pending@
                    &&& !ended_seen ==> forall|j: int|
                        0 <= j < done.0.len() ==> !is_round_end(#[trigger] done.0[j])
                    &&& stop ==> round_session_over(done.0, self.session_reads@, self.session_clocks@)
                }),
                !ended_seen ==> count + pending@.len() <= passes * POLL_CHUNK,
                ended_seen ==> stop,
            decreases MAX_POLL_PASSES - passes,
        {
            passes = passes + 1;
            let mut piece: Vec<u8> = vec![0u8; POLL_CHUNK];
            let got = self.transport.read(piece.as_mut_slice(), POLL_READ_TIMEOUT_MS);
            let (n, failed) = match got {
                Ok(n) => (n, false),
                Err(_) => (0, true),
            };
            let ghost pieces = pieces_since(old(self).replies(), self.replies());
            let ghost reads = self.session_reads@;
            let step;
            if n > 0 {
                piece.truncate(n);
                let ghost done = reassemble(pieces);
                self.session_reads = Ghost(self.session_reads@.push(Some(piece@)));
                self.replies = Ghost(self.replies@.push(piece@));
                pending.push(piece.as_slice());
                let ghost d = drain_frames(pending@);
                proof {
                    let now = pieces_since(old(self).replies(), self.replies());
                    assert(now =~= pieces.push(piece@));
                    assert(now.drop_last() =~= pieces);
                    assert(reassemble(now) == (done.0 + d.0, d.1));
                    assert(self.replies@.subrange(0, old(self).replies@.len() as int)
                        =~= old(self).replies@);
                    assert(self.session_reads@.drop_last() =~= reads);
                    lemma_round_end_index(done.0, 0, done.0.len() as int);
                    assert(done.0.take(done.0.len() as int) =~= done.0);
                }
                let ended = cut_frames(&mut pending, sink, &mut count);
                proof {
                    let all = done.0 + d.0;
                    let k = round_end_index(d.0, 0);
                    lemma_round_end_index_props(d.0, 0);
                    lemma_frame_tags_concat(done.0, d.0.take(k));
                    assert forall|j: int| 0 <= j < done.0.len() + k implies !is_round_end(
                        #[trigger] all[j],
                    ) by {
                        if j >= done.0.len() {
                            assert(all[j] == d.0[j - done.0.len()]);
                        }
                    }
                    lemma_round_end_index(all, 0, done.0.len() + k);
                    assert(all.take(done.0.len() + k) =~= done.0 + d.0.take(k));
                    if !ended {
                        assert(d.0.take(k) =~= d.0);
                    }
                    ended_seen = ended;
                }
                last_data = clock_now();
                step = round_step(ended, true, 0, POLL_MAX_WAIT_MS);
            } else {
                let ghost outcome: Option<Seq<u8>> = if failed {
                    None
                } else {
                    Some(Seq::empty())
                };
                self.session_reads = Ghost(self.session_reads@.push(outcome));
                let idle = millis_since(&last_data);
                self.session_clocks = Ghost(self.session_clocks@.push(idle));
                proof {
                    assert(self.session_reads@.drop_last() =~= reads);
                }
                step = round_step(false, false, idle, POLL_MAX_WAIT_MS);
                if step == PollStep::Pause {
                    self.transport.delay_ms(POLL_IDLE_MS);
                }
            }
            stop = step == PollStep::Stop;
        }
        self.session_tags = Ghost(
            sink.taken().subrange(old(sink).taken().len() as int, sink.taken().len() as int),
        );
        proof {
            assert(self.session_tags@ =~= round_tags(
                pieces_since(old(self).replies(), self.replies()),
            ));
        }
        Ok(count)
    }

    /// Polls for tags over `rounds` inventory rounds (not a number of tags),
    /// handing each tag to `callback` as it is found, in stream order;
    /// returns the number of tags found. Zero rounds are refused.
    pub fn multiple_poll_with_callback<F: FnMut(TagInfo)>(&mut self, rounds: u16, callback: F) -> (r:
        Result<usize, UhfError>)
        requires
            forall|t: TagInfo| callback.requires((t,)),
        ensures
            rounds == 0 ==> is_invalid_parameter(r) && *final(self) == *old(self),
            rounds > 0 && r is Err ==> Self::start_failed(
                *old(self),
                *final(self),
                frame_bytes(CMD_MULTIPLE_POLL, multi_poll_params(rounds)),
                r,
            ) && final(self).session_reads() == Seq::<Option<Seq<u8>>>::empty(),
            rounds > 0 && r is Ok ==> Self::round_session(*old(self), *final(self), rounds)
                && r->Ok_0 == final(self).session_tags().len(),
    {
        let mut sink = CallbackSink { callback, taken: Ghost(Seq::empty()) };
        self.poll_rounds(rounds, &mut sink)
    }

    /// Polls for tags over `rounds` inventory rounds (not a number of tags)
    /// and returns them in stream order. Zero rounds are refused.
    pub fn multiple_poll(&mut self, rounds: u16) -> (r: Result<Vec<TagInfo>, UhfError>)
        ensures
            rounds == 0 ==> is_invalid_parameter(r) && *final(self) == *old(self),
            rounds > 0 && r is Err ==> Self::start_failed(
                *old(self),
                *final(self),
                frame_bytes(CMD_MULTIPLE_POLL, multi_poll_params(rounds)),
                r,
            ) && final(self).session_reads() == Seq::<Option<Seq<u8>>>::empty(),
            rounds > 0 && r is Ok ==> Self::round_session(*old(self), *final(self), rounds)
                && tag_views(r->Ok_0@) == final(self).session_tags(),
    {
        let mut tags: Vec<TagInfo> = Vec::new();
        proof {
            assert(tag_views(tags@) =~= Seq::<TagView>::empty());
        }
        match self.poll_rounds(rounds, &mut tags) {
            Ok(_) => {
                proof {
                    assert(tag_views(tags@) =~= Seq::<TagView>::empty() + round_tags(
                        pieces_since(old(self).replies(), self.replies()),
                    ));
                }
                Ok(tags)
            },
            Err(e) => Err(e),
        }
    }

    /// Reads and discards what the reader still sends, until a read brings
    /// nothing or fails, or `MAX_DRAIN_READS` reads were made.
    fn discard_trailing(&mut self)
        ensures
            final(self).requests() == old(self).requests(),
            final(self).replies() == old(self).replies(),
            final(self).session_reads() == old(self).session_reads(),
            final(self).session_clocks() == old(self).session_clocks(),
            final(self).session_restart_clocks() == old(self).session_restart_clocks(),
            final(self).session_timeout() == old(self).session_timeout(),
            final(self).session_start() == old(self).session_start(),
            final(self).session_tags() == old(self).session_tags(),
            trailing_reads(final(self).session_discarded()),
    {
        self.session_discarded = Ghost(Seq::empty());
        let mut drained: u32 = 0;
        let mut draining = true;
        while draining && drained < MAX_DRAIN_READS
            invariant
                self.session_timeout() == old(self).session_timeout(),
                self.session_start() == old(self).session_start(),
                self.session_tags() == old(self).session_tags(),
                self.requests() == old(self).requests(),
                self.replies() == old(self).replies(),
                self.session_reads() == old(self).session_reads(),
                self.session_clocks() == old(self).session_clocks(),
                self.session_restart_clocks() == old(self).session_restart_clocks(),
                drained <= MAX_DRAIN_READS,
                self.session_discarded@.len() == drained,
                forall|i: int|
                    0 <= i < self.session_discarded@.len() - 1 ==> got_bytes(
                        #[trigger] self.session_discarded@[i],
                    ),
                draining && drained > 0 ==> got_bytes(self.session_discarded@.last()),
                !draining ==> drained > 0 && !got_bytes(self.session_discarded@.last()),
            decreases MAX_DRAIN_READS - drained,
        {
            drained = drained + 1;
            let mut trailing: Vec<u8> = vec![0u8; POLL_CHUNK];
            let ghost before = self.session_discarded@;
            match self.transport.read(trailing.as_mut_slice(), POLL_READ_TIMEOUT_MS) {
                Ok(n) => {
                    trailing.truncate(n);
                    if n == 0 {
                        draining = false;
                    }
                    self.session_discarded = Ghost(self.session_discarded@.push(Some(trailing@)));
                },
                Err(_) => {
                    draining = false;
                    self.session_discarded = Ghost(self.session_discarded@.push(None));
                },
            }
            proof {
                assert(self.session_discarded@.drop_last() =~= before);
            }
        }
    }

    /// Runs a time-bounded polling session: starts continuous polling, then
    /// in each pass reads the clock and, while less than `timeout_ms`
    /// milliseconds have passed, reads the stream, cuts it into frames and
    /// hands their tags to `sink`. Each round-end notification restarts
    /// polling if the clock, read again, still shows time left. At the end
    /// polling is stopped and trailing bytes are read and discarded. Read and
    /// write failures during the session are passed over.
    fn poll_timed<S: TagSink>(&mut self, timeout_ms: u128, sink: &mut S) -> (r: Result<
        usize,
        UhfError,
    >)
        requires
            old(sink).ready(),
        ensures
            final(sink).ready(),
            r is Err ==> Self::start_failed(
                *old(self),
                *final(self),
                frame_bytes(CMD_MULTIPLE_POLL, multi_poll_params(0xFFFF)),
                r,
            ) && final(sink).taken() == old(sink).taken() && final(self).session_reads()
                == Seq::<Option<Seq<u8>>>::empty(),
            r is Ok ==> Self::timed_session(*old(self), *final(self), timeout_ms)
                && final(self).session_timeout() == timeout_ms && {
                let frames = reassemble(pieces_since(old(self).replies(), final(self).replies())).0;
                &&& final(sink).taken() == old(sink).taken() + frame_tags(frames)
                &&& r->Ok_0 == frame_tags(frames).len()
            },
    {
        self.session_reads = Ghost(Seq::empty());
        self.session_clocks = Ghost(Seq::empty());
        self.session_restart_clocks = Ghost(Seq::empty());
        self.session_timeout = Ghost(timeout_ms);
        self.session_tags = Ghost(Seq::empty());
        let params: [u8; 3] = [0x22, 0xFF, 0xFF];
        proof {
            assert(params@ =~= multi_poll_params(0xFFFF));
        }
        let frame = encode_frame(CMD_MULTIPLE_POLL, &params);
        self.session_start = Ghost(Seq::empty().push(TransportCall::ClearInput));
        proof {
            assert(self.session_start@ =~= start_calls(frame@).take(1));
        }
        if let Err(e) = self.transport.clear_input() {
            return Err(transport_error(&e));
        }
        let written = self.transport.write(frame.as_slice());
        self.requests = Ghost(self.requests@.push(frame@));
        self.session_start = Ghost(self.session_start@.push(TransportCall::Write(frame@)));
        proof {
            assert(self.session_start@ =~= start_calls(frame@));
        }
        if let Err(e) = written {
            return Err(transport_error(&e));
        }
        let start = clock_now();
        let mut pending = FrameAssembler::new();
        let mut count: usize = 0;
        let mut passes: u32 = 0;
        let mut running = true;
        proof {
            assert(pieces_since(old(self).replies(), self.replies()) =~= Seq::<Seq<u8>>::empty());
            assert(self.replies@.subrange(0, old(self).replies@.len() as int) =~= old(self).replies@);
            assert(frame_tags(Seq::<Seq<u8>>::empty()) =~= Seq::<TagView>::empty());
            assert(sink.taken() =~= old(sink).taken() + Seq::<TagView>::empty());
            assert(self.requests@ =~= old(self).requests@.push(frame@) + repeated(frame@, 0));
        }
        while running && passes < MAX_POLL_PASSES
            invariant
                sink.ready(),
                frame@ == frame_bytes(CMD_MULTIPLE_POLL, multi_poll_params(0xFFFF)),
                self.session_start@ == start_calls(frame@),
                self.session_tags@ == Seq::<TagView>::empty(),
                Self::read_on(*old(self), *self),
                passes <= MAX_POLL_PASSES,
                self.session_timeout@ == timeout_ms,
                self.session_clocks@.len() == passes,
                running ==> self.session_reads@.len() == passes,
                !running ==> self.session_reads@.len() + 1 == passes && self.session_clocks@.last()
                    >= timeout_ms,
                forall|i: int|
                    0 <= i < self.session_reads@.len() ==> #[trigger] self.session_clocks@[i]
                        < timeout_ms,
                pieces_since(old(self).replies(), self.replies()) == pieces_of(self.session_reads@),
                ({
                    let done = reassemble(pieces_since(old(self).replies(), self.replies()));
                    &&& done.1 == pending@
                    &&& sink.taken() == old(sink).taken() + frame_tags(done.0)
                    &&& count == frame_tags(done.0).len()
                    &&& self.session_restart_clocks@.len() == round_end_count(done.0)
                    &&& self.requests@ == old(self).requests@.push(frame@) + repeated(
                        frame@,
                        count_below(self.session_restart_clocks@, timeout_ms),
                    )
                }),
                count + pending@.len() <= passes * POLL_CHUNK,
            decreases MAX_POLL_PASSES - passes,
        {
            passes = passes + 1;
            let now = millis_since(&start);
            let ghost clocks = self.session_clocks@;
            self.session_clocks = Ghost(self.session_clocks@.push(now));
            proof {
                assert(self.session_clocks@.drop_last() =~= clocks);
            }
            if !time_remains(now, timeout_ms) {
                running = false;
            } else {
                let mut piece: Vec<u8> = vec![0u8; POLL_CHUNK];
                let got = self.transport.read(piece.as_mut_slice(), POLL_READ_TIMEOUT_MS);
                let (n, failed) = match got {
                    Ok(n) => (n, false),
                    Err(_) => (0, true),
                };
                let ghost reads = self.session_reads@;
                if n > 0 {
                    piece.truncate(n);
                    let ghost pieces = pieces_since(old(self).replies(), self.replies());
                    let ghost done = reassemble(pieces);
                    self.session_reads = Ghost(self.session_reads@.push(Some(piece@)));
                    self.replies = Ghost(self.replies@.push(piece@));
                    pending.push(piece.as_slice());
                    let ghost all = reassemble(pieces.push(piece@));
                    proof {
                        let now_pieces = pieces_since(old(self).replies(), self.replies());
                        assert(now_pieces =~= pieces.push(piece@));
                        assert(now_pieces.drop_last() =~= pieces);
                        assert(all == (done.0 + drain_frames(pending@).0, drain_frames(pending@).1));
                        assert(self.replies@.subrange(0, old(self).replies@.len() as int)
                            =~= old(self).replies@);
                        assert(self.session_reads@.drop_last() =~= reads);
                        assert(pieces_since(old(self).replies(), self.replies())
                            == pieces_of(self.session_reads@));
                    }
                    let ghost mut processed = done.0;
                    let ghost reads_now = self.session_reads@;
                    let ghost clocks_now = self.session_clocks@;
                    let mut more = true;
                    while more
                        invariant
                            self.session_reads@ == reads_now,
                            pieces_since(old(self).replies(), self.replies()) == pieces_of(reads_now),
                            self.session_clocks@ == clocks_now,
                            self.session_timeout@ == timeout_ms,
                            sink.ready(),
                            frame@ == frame_bytes(CMD_MULTIPLE_POLL, multi_poll_params(0xFFFF)),
                            self.session_start@ == start_calls(frame@),
                            self.session_tags@ == Seq::<TagView>::empty(),
                            Self::read_on(*old(self), *self),
                            all == reassemble(pieces_since(old(self).replies(), self.replies())),
                            processed + drain_frames(pending@).0 == all.0,
                            drain_frames(pending@).1 == all.1,
                            !more ==> pending@ == all.1 && processed == all.0,
                            sink.taken() == old(sink).taken() + frame_tags(processed),
                            count == frame_tags(processed).len(),
                            self.session_restart_clocks@.len() == round_end_count(processed),
                            self.requests@ == old(self).requests@.push(frame@) + repeated(
                                frame@,
                                count_below(self.session_restart_clocks@, timeout_ms),
                            ),
                            count + pending@.len() <= passes * POLL_CHUNK,
                            passes <= MAX_POLL_PASSES,
                        decreases pending@.len() + if more { 1int } else { 0int },
                    {
                        let ghost d = drain_frames(pending@);
                        let ghost k = round_end_index(d.0, 0);
                        let ended = cut_frames(&mut pending, sink, &mut count);
                        proof {
                            lemma_round_end_index_props(d.0, 0);
                            lemma_frame_tags_concat(processed, d.0.take(k));
                        }
                        if ended {
                            proof {
                                let step = d.0.take(k + 1);
                                assert(step.drop_last() =~= d.0.take(k));
                                assert forall|j: int| 0 <= j < d.0.take(k).len() implies !is_round_end(
                                    #[trigger] d.0.take(k)[j],
                                ) by {
                                    assert(d.0.take(k)[j] == d.0[j]);
                                }
                                lemma_no_round_end_count(d.0.take(k));
                                lemma_round_end_no_tag(step.last());
                                lemma_frame_tags_concat(processed, step);
                                lemma_round_end_count_concat(processed, step);
                                assert(processed + step + d.0.skip(k + 1) =~= all.0);
                                processed = processed + step;
                            }
                            let at = millis_since(&start);
                            let ghost rc = self.session_restart_clocks@;
                            let ghost sent = self.requests@;
                            self.session_restart_clocks = Ghost(self.session_restart_clocks@.push(at));
                            proof {
                                assert(self.session_restart_clocks@.drop_last() =~= rc);
                            }
                            if time_remains(at, timeout_ms) {
                                let _ = self.transport.write(frame.as_slice());
                                self.requests = Ghost(self.requests@.push(frame@));
                                proof {
                                    assert(self.requests@ =~= old(self).requests@.push(frame@)
                                        + repeated(frame@, count_below(rc, timeout_ms) + 1));
                                }
                            }
                        } else {
                            proof {
                                assert(d.0.take(k) =~= d.0);
                                lemma_no_round_end_count(d.0);
                                lemma_round_end_count_concat(processed, d.0);
                                assert(processed + d.0 =~= all.0);
                                processed = processed + d.0;
                            }
                            more = false;
                        }
                    }
                } else {
                    let ghost outcome: Option<Seq<u8>> = if failed {
                        None
                    } else {
                        Some(Seq::empty())
                    };
                    self.session_reads = Ghost(self.session_reads@.push(outcome));
                    proof {
                        assert(self.session_reads@.drop_last() =~= reads);
                    }
                    self.transport.delay_ms(POLL_PAUSE_MS);
                }
            }
        }
        let params: [u8; 0] = [];
        proof {
            assert(params@ =~= Seq::<u8>::empty());
        }
        let stop = encode_frame(CMD_STOP_MULTIPLE_POLL, &params);
        let _ = self.transport.write(stop.as_slice());
        self.requests = Ghost(self.requests@.push(stop@));
        self.transport.delay_ms(POLL_START_MS);
        self.discard_trailing();
        self.session_tags = Ghost(
            sink.taken().subrange(old(sink).taken().len() as int, sink.taken().len() as int),
        );
        proof {
            let frames = reassemble(pieces_since(old(self).replies(), self.replies())).0;
            assert(self.session_tags@ =~= frame_tags(frames));
        }
        Ok(count)
    }

    /// Polls for tags for `timeout`, handing each tag to `callback` as it is
    /// found, in stream order; returns the number of tags found.
    pub fn poll_for_duration_with_callback<F: FnMut(TagInfo)>(
        &mut self,
        timeout: Duration,
        callback: F,
    ) -> (r: Result<usize, UhfError>)
        requires
            forall|t: TagInfo| callback.requires((t,)),
        ensures
            r is Err ==> Self::start_failed(
                *old(self),
                *final(self),
                frame_bytes(CMD_MULTIPLE_POLL, multi_poll_params(0xFFFF)),
                r,
            ) && final(self).session_reads() == Seq::<Option<Seq<u8>>>::empty(),
            r is Ok ==> final(self).session_timeout() == millis_of(timeout) && Self::timed_session(
                *old(self),
                *final(self),
                millis_of(timeout),
            ) && r->Ok_0 == final(self).session_tags().len(),
    {
        let mut sink = CallbackSink { callback, taken: Ghost(Seq::empty()) };
        let ms = duration_millis(&timeout);
        self.poll_timed(ms, &mut sink)
    }

    /// Polls for tags for `timeout` and returns them in stream order.
    pub fn poll_for_duration(&mut self, timeout: Duration) -> (r: Result<Vec<TagInfo>, UhfError>)
        ensures
            r is Err ==> Self::start_failed(
                *old(self),
                *final(self),
                frame_bytes(CMD_MULTIPLE_POLL, multi_poll_params(0xFFFF)),
                r,
            ) && final(self).session_reads() == Seq::<Option<Seq<u8>>>::empty(),
            r is Ok ==> final(self).session_timeout() == millis_of(timeout) && Self::timed_session(
                *old(self),
                *final(self),
                millis_of(timeout),
            ) && tag_views(r->Ok_0@) == final(self).session_tags(),
    {
        let mut tags: Vec<TagInfo> = Vec::new();
        proof {
            assert(tag_views(tags@) =~= Seq::<TagView>::empty());
        }
        let ms = duration_millis(&timeout);
        match self.poll_timed(ms, &mut tags) {
            Ok(_) => {
                proof {
                    let frames = reassemble(pieces_since(old(self).replies(), self.replies())).0;
                    assert(tag_views(tags@) =~= Seq::<TagView>::empty() + frame_tags(frames));
                }
                Ok(tags)
            },
            Err(e) => Err(e),
        }
    }
}

/// A time-bounded session whose stream was a round-end notification
/// followed by a tag frame, each a frame on its own, restarts polling
/// exactly once when the clock shows time left at the notification: the
/// frames sent are start, restart and stop; and the one tag it hands on is
/// that of the tag frame.
pub proof fn lemma_restart_once<T: RfidTransport>(
    pre: UhfRfid<T>,
    post: UhfRfid<T>,
    timeout_ms: u128,
    notification: Seq<u8>,
    tag_frame: Seq<u8>,
)
    requires
        UhfRfid::timed_session(pre, post, timeout_ms),
        pieces_since(pre.replies(), post.replies()) == seq![notification, tag_frame],
        is_clean_frame(notification),
        is_clean_frame(tag_frame),
        is_round_end(notification),
        !is_round_end(tag_frame),
        post.session_restart_clocks().len() > 0 ==> post.session_restart_clocks()[0] < timeout_ms,
    ensures
        post.requests() == pre.requests().push(
            frame_bytes(CMD_MULTIPLE_POLL, multi_poll_params(0xFFFF)),
        ).push(frame_bytes(CMD_MULTIPLE_POLL, multi_poll_params(0xFFFF))).push(
            frame_bytes(CMD_STOP_MULTIPLE_POLL, Seq::empty()),
        ),
        post.session_tags() == frame_tag(tag_frame),
{
    let pieces = seq![notification, tag_frame];
    let empty = Seq::<u8>::empty();
    lemma_clean_frame(notification);
    lemma_clean_frame(tag_frame);
    assert(pieces.drop_last() =~= seq![notification]);
    assert(seq![notification].drop_last() =~= Seq::<Seq<u8>>::empty());
    assert(empty + notification =~= notification);
    assert(empty + tag_frame =~= tag_frame);
    assert(reassemble(Seq::<Seq<u8>>::empty()) == (Seq::<Seq<u8>>::empty(), empty));
    assert(seq![notification].last() == notification);
    assert(pieces.last() == tag_frame);
    let first = reassemble(seq![notification]);
    assert(first == (Seq::<Seq<u8>>::empty() + seq![notification], empty));
    assert(Seq::<Seq<u8>>::empty() + seq![notification] =~= seq![notification]);
    let frames = reassemble(pieces).0;
    assert(frames == seq![notification] + seq![tag_frame]);
    assert(frames =~= seq![notification, tag_frame]);
    assert(frames.drop_last() =~= seq![notification]);
    assert(round_end_count(seq![notification]) == 1) by {
        assert(seq![notification].drop_last() =~= Seq::<Seq<u8>>::empty());
        assert(round_end_count(Seq::<Seq<u8>>::empty()) == 0);
        assert(seq![notification].last() == notification);
    }
    assert(frames.last() == tag_frame);
    assert(round_end_count(frames) == 1);
    let rc = post.session_restart_clocks();
    assert(rc.len() == 1);
    assert(rc.drop_last() =~= Seq::<u128>::empty());
    assert(count_below(Seq::<u128>::empty(), timeout_ms) == 0);
    assert(rc.last() == rc[0]);
    assert(count_below(rc, timeout_ms) == 1);
    let start = frame_bytes(CMD_MULTIPLE_POLL, multi_poll_params(0xFFFF));
    assert(pre.requests().push(start) + repeated(start, 1) =~= pre.requests().push(start).push(
        start,
    ));
    lemma_round_end_no_tag(notification);
    assert(frame_tags(seq![notification]) == frame_tags(Seq::<Seq<u8>>::empty()) + frame_tag(notification)) by {
        assert(seq![notification].drop_last() =~= Seq::<Seq<u8>>::empty());
    }
    assert(frame_tags(Seq::<Seq<u8>>::empty()) =~= Seq::<TagView>::empty());
    assert(frame_tags(frames) =~= frame_tag(tag_frame));
}

/// Two time-bounded sessions that read the same stream, however it was
/// split into pieces, hand on the same tags in the same order.
pub proof fn lemma_same_stream_same_tags<T: RfidTransport>(
    pre1: UhfRfid<T>,
    post1: UhfRfid<T>,
    timeout1: u128,
    pre2: UhfRfid<T>,
    post2: UhfRfid<T>,
    timeout2: u128,
)
    requires
        UhfRfid::timed_session(pre1, post1, timeout1),
        UhfRfid::timed_session(pre2, post2, timeout2),
        concat_pieces(pieces_since(pre1.replies(), post1.replies())) == concat_pieces(
            pieces_since(pre2.replies(), post2.replies()),
        ),
    ensures
        post1.session_tags() == post2.session_tags(),
{
    lemma_split_independent(pieces_since(pre1.replies(), post1.replies()));
    lemma_split_independent(pieces_since(pre2.replies(), post2.replies()));
}

} // verus!
