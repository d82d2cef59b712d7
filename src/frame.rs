//! Wire format of the reader's frames: building command frames and the
//! shape checks shared by the response decoders.
use vstd::prelude::*;

verus! {

/// First byte of every frame.
pub const HEADER: u8 = 0xBB;

/// Last byte of every frame.
pub const END: u8 = 0x7E;

/// Frame type of a command sent to the reader.
pub const TYPE_COMMAND: u8 = 0x00;

/// Frame type of a plain notification from the reader.
pub const TYPE_NOTIFICATION: u8 = 0x01;

/// Frame type of a response that carries tag data.
pub const TYPE_TAG: u8 = 0x02;

/// Command codes, one per operation.
pub const CMD_GET_FIRMWARE: u8 = 0x03;
pub const CMD_SET_REGION: u8 = 0x07;
pub const CMD_GET_REGION: u8 = 0x08;
pub const CMD_GET_SELECT_PARAM: u8 = 0x0B;
pub const CMD_SET_SELECT_PARAM: u8 = 0x0C;
pub const CMD_GET_QUERY_PARAM: u8 = 0x0D;
pub const CMD_SET_QUERY_PARAM: u8 = 0x0E;
pub const CMD_SET_BAUD_RATE: u8 = 0x11;
pub const CMD_SET_SELECT_MODE: u8 = 0x12;
pub const CMD_INVENTORY_BUFFER: u8 = 0x18;
pub const CMD_SINGLE_POLL: u8 = 0x22;
pub const CMD_MULTIPLE_POLL: u8 = 0x27;
pub const CMD_STOP_MULTIPLE_POLL: u8 = 0x28;
pub const CMD_GET_BUFFER_DATA: u8 = 0x29;
pub const CMD_CLEAR_BUFFER: u8 = 0x2A;
pub const CMD_READ_TAG_DATA: u8 = 0x39;
pub const CMD_WRITE_TAG_DATA: u8 = 0x49;
pub const CMD_KILL_TAG: u8 = 0x65;
pub const CMD_SET_RF_LINK_PROFILE: u8 = 0x69;
pub const CMD_GET_RF_LINK_PROFILE: u8 = 0x6A;
pub const CMD_LOCK_TAG: u8 = 0x82;
pub const CMD_INSERT_CHANNEL: u8 = 0xA9;
pub const CMD_GET_CHANNEL: u8 = 0xAA;
pub const CMD_SET_CHANNEL: u8 = 0xAB;
pub const CMD_SET_AUTO_FREQ_HOP: u8 = 0xAD;
pub const CMD_SET_CONTINUOUS_CARRIER: u8 = 0xB0;
pub const CMD_SET_TX_POWER: u8 = 0xB6;
pub const CMD_GET_TX_POWER: u8 = 0xB7;
pub const CMD_BLOCK_PERMALOCK: u8 = 0xD3;
pub const CMD_NXP_CHANGE_CONFIG: u8 = 0xE0;
pub const CMD_NXP_READ_PROTECT: u8 = 0xE1;
pub const CMD_NXP_RESET_READ_PROTECT: u8 = 0xE2;
pub const CMD_NXP_CHANGE_EAS: u8 = 0xE3;
pub const CMD_NXP_EAS_ALARM: u8 = 0xE4;
pub const CMD_IMPINJ_MONZA_QT: u8 = 0xE5;
pub const CMD_SET_READER_SENSITIVITY: u8 = 0xF0;
pub const CMD_GET_READER_SENSITIVITY: u8 = 0xF1;

/// The 8-bit wraparound sum of a byte sequence.
pub open spec fn byte_sum(s: Seq<u8>) -> u8
    decreases s.len(),
{
    if s.len() == 0 {
        0
    } else {
        ((byte_sum(s.drop_last()) + s.last()) % 256) as u8
    }
}

/// Appending a byte adds it to the sum, modulo 256.
pub proof fn lemma_byte_sum_push(s: Seq<u8>, b: u8)
    ensures
        byte_sum(s.push(b)) == ((byte_sum(s) + b) % 256) as u8,
{
    assert(s.push(b).drop_last() =~= s);
}

/// High byte of the big-endian length field for `n` parameter bytes.
pub open spec fn len_hi(n: nat) -> u8 {
    ((n / 256) % 256) as u8
}

/// Low byte of the big-endian length field for `n` parameter bytes.
pub open spec fn len_lo(n: nat) -> u8 {
    (n % 256) as u8
}

/// The bytes the checksum of a command frame is taken over.
pub open spec fn checked_bytes(command: u8, params: Seq<u8>) -> Seq<u8> {
    seq![TYPE_COMMAND, command, len_hi(params.len()), len_lo(params.len())] + params
}

/// The command frame for `command` with `params`.
pub open spec fn frame_bytes(command: u8, params: Seq<u8>) -> Seq<u8> {
    seq![HEADER, TYPE_COMMAND, command, len_hi(params.len()), len_lo(params.len())] + params
        + seq![byte_sum(checked_bytes(command, params)), END]
}

/// Every command frame is seven bytes longer than its parameters, starts with
/// the header, ends with the terminator, and carries the 8-bit wraparound sum
/// of type, command, length and parameters just before the terminator.
pub proof fn lemma_frame_layout(command: u8, params: Seq<u8>)
    ensures
        frame_bytes(command, params).len() == params.len() + 7,
        frame_bytes(command, params)[0] == HEADER,
        frame_bytes(command, params)[1] == TYPE_COMMAND,
        frame_bytes(command, params)[2] == command,
        frame_bytes(command, params).subrange(5, params.len() + 5 as int) == params,
        frame_bytes(command, params)[params.len() + 5 as int] == byte_sum(
            checked_bytes(command, params),
        ),
        frame_bytes(command, params)[params.len() + 6 as int] == END,
        params.len() <= 0xFFFF ==> 256 * frame_bytes(command, params)[3] + frame_bytes(
            command,
            params,
        )[4] == params.len(),
{
    let f = frame_bytes(command, params);
    assert(f.subrange(5, params.len() + 5 as int) =~= params);
}

/// Builds the command frame for `command` with `params`.
pub fn encode_frame(command: u8, params: &[u8]) -> (frame: Vec<u8>)
    requires
        params@.len() <= 0xFFFF,
    ensures
        frame@ == frame_bytes(command, params@),
{
    let n = params.len();
    let hi = (n / 256) as u8;
    let lo = (n % 256) as u8;
    let mut frame: Vec<u8> = Vec::with_capacity(n + 7);
    frame.push(HEADER);
    frame.push(TYPE_COMMAND);
    frame.push(command);
    frame.push(hi);
    frame.push(lo);
    let ghost head = seq![TYPE_COMMAND, command, hi, lo];
    let mut sum: u8 = ((((TYPE_COMMAND as u16 + command as u16) % 256 + hi as u16) % 256
        + lo as u16) % 256) as u8;
    proof {
        let e = Seq::<u8>::empty();
        lemma_byte_sum_push(e, TYPE_COMMAND);
        lemma_byte_sum_push(e.push(TYPE_COMMAND), command);
        lemma_byte_sum_push(e.push(TYPE_COMMAND).push(command), hi);
        lemma_byte_sum_push(e.push(TYPE_COMMAND).push(command).push(hi), lo);
        assert(e.push(TYPE_COMMAND).push(command).push(hi).push(lo) =~= head);
        assert(head + params@.take(0) =~= head);
    }
    let mut i: usize = 0;
    while i < n
        invariant
            i <= n,
            n == params@.len(),
            n <= 0xFFFF,
            hi == len_hi(n as nat),
            lo == len_lo(n as nat),
            head == seq![TYPE_COMMAND, command, hi, lo],
            frame@ == seq![HEADER, TYPE_COMMAND, command, hi, lo] + params@.take(i as int),
            sum == byte_sum(head + params@.take(i as int)),
        decreases n - i,
    {
        let b = params[i];
        proof {
            lemma_byte_sum_push(head + params@.take(i as int), b);
            assert(head + params@.take(i + 1) =~= (head + params@.take(i as int)).push(b));
        }
        frame.push(b);
        sum = ((sum as u16 + b as u16) % 256) as u8;
        i = i + 1;
        proof {
            assert(frame@ =~= seq![HEADER, TYPE_COMMAND, command, hi, lo] + params@.take(
                i as int,
            ));
        }
    }
    proof {
        assert(params@.take(n as int) =~= params@);
        assert(head + params@ =~= checked_bytes(command, params@));
    }
    frame.push(sum);
    frame.push(END);
    proof {
        assert(frame@ =~= frame_bytes(command, params@));
    }
    frame
}

/// A notification frame that answers `command` with a zero status byte.
pub open spec fn status_ok(reply: Seq<u8>, command: u8) -> bool {
    &&& reply.len() >= 7
    &&& reply[0] == HEADER
    &&& reply[1] == TYPE_NOTIFICATION
    &&& reply[2] == command
    &&& reply[5] == 0
}

/// A notification frame that answers `command` with `n` parameter bytes
/// announced in its length field.
pub open spec fn sized_notification(reply: Seq<u8>, command: u8, n: u8, min_len: nat) -> bool {
    &&& reply.len() >= min_len
    &&& reply.len() >= 7
    &&& reply[0] == HEADER
    &&& reply[1] == TYPE_NOTIFICATION
    &&& reply[2] == command
    &&& reply[3] == 0
    &&& reply[4] == n
}

/// Whether `reply` is a notification answering `command` with status zero.
pub fn check_status(reply: &[u8], command: u8) -> (ok: bool)
    ensures
        ok == status_ok(reply@, command),
{
    reply.len() >= 7 && reply[0] == HEADER && reply[1] == TYPE_NOTIFICATION && reply[2] == command
        && reply[5] == 0
}

/// Whether `reply` is a notification answering `command` whose length field
/// announces `n` parameter bytes, and which is at least `min_len` bytes long.
pub fn check_sized(reply: &[u8], command: u8, n: u8, min_len: usize) -> (ok: bool)
    ensures
        ok == sized_notification(reply@, command, n, min_len as nat),
{
    reply.len() >= min_len && reply.len() >= 7 && reply[0] == HEADER && reply[1]
        == TYPE_NOTIFICATION && reply[2] == command && reply[3] == 0 && reply[4] == n
}

/// Copies `b[lo..hi]` into a new vector.
pub fn copy_range(b: &[u8], lo: usize, hi: usize) -> (r: Vec<u8>)
    requires
        lo <= hi <= b@.len(),
    ensures
        r@ == b@.subrange(lo as int, hi as int),
{
    let mut r: Vec<u8> = Vec::with_capacity(hi - lo);
    let mut i: usize = lo;
    while i < hi
        invariant
            lo <= i <= hi,
            hi <= b@.len(),
            r@ == b@.subrange(lo as int, i as int),
        decreases hi - i,
    {
        r.push(b[i]);
        i = i + 1;
        proof {
            assert(r@ =~= b@.subrange(lo as int, i as int));
        }
    }
    r
}

} // verus!
