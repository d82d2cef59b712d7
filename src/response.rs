//! Decoding of the reader's answers. Each decoder is a pure function of the
//! bytes received and states exactly which answers it accepts and what it
//! returns for them; every other answer is an `InvalidResponse`.
use vstd::prelude::*;
use crate::frame::{
    status_ok, sized_notification, check_status, check_sized, copy_range, HEADER,
    TYPE_NOTIFICATION, TYPE_TAG, CMD_GET_TX_POWER, CMD_GET_QUERY_PARAM, CMD_GET_REGION,
    CMD_GET_RF_LINK_PROFILE, CMD_GET_SELECT_PARAM, CMD_READ_TAG_DATA, CMD_GET_BUFFER_DATA,
    CMD_IMPINJ_MONZA_QT,
};
use crate::hex::{bytes_to_hex, hex_of, push_char};
use crate::types::{
    TagInfo, TagView, UhfError, QueryParams, query_of_bytes, Region, RfLinkProfile,
    SelectParams, SelectView, select_of_block,
};

verus! {

/// The result is an `InvalidResponse`.
pub open spec fn is_invalid_response<X>(r: Result<X, UhfError>) -> bool {
    r is Err && r->Err_0 is InvalidResponse
}

/// The result carries `v` when there is one and is an `InvalidResponse`
/// otherwise.
pub open spec fn decoded<X>(r: Result<X, UhfError>, v: Option<X>) -> bool {
    match v {
        Some(x) => r == Ok::<X, UhfError>(x),
        None => is_invalid_response(r),
    }
}

/// As `decoded`, comparing the carried value by its view.
pub open spec fn decoded_view<X: View>(r: Result<X, UhfError>, v: Option<X::V>) -> bool {
    match v {
        Some(x) => r is Ok && r->Ok_0@ == x,
        None => is_invalid_response(r),
    }
}

/// The views of a sequence of tag readings.
pub open spec fn tag_views(tags: Seq<TagInfo>) -> Seq<TagView> {
    tags.map_values(|t: TagInfo| t@)
}

fn invalid_response(msg: &str) -> (e: UhfError)
    ensures
        e is InvalidResponse,
{
    UhfError::InvalidResponse(msg.to_string())
}

/// How an error message reports a code byte: `0x` and two upper-case
/// hexadecimal digits.
pub open spec fn code_text(code: u8) -> Seq<char> {
    seq!['0', 'x'] + hex_of(seq![code])
}

/// The message `m` ends with the report of `code`.
pub open spec fn ends_with_code(m: Seq<char>, code: u8) -> bool {
    m.len() >= 4 && m.subrange(m.len() - 4, m.len() as int) == code_text(code)
}

/// An `InvalidResponse` whose message is `msg` followed by the report of
/// `code`.
fn coded_error(msg: &str, code: u8) -> (e: UhfError)
    ensures
        e is InvalidResponse,
        ends_with_code(e->InvalidResponse_0@, code),
{
    let mut m = msg.to_string();
    push_char(&mut m, '0');
    push_char(&mut m, 'x');
    let code_bytes = [code];
    let h = bytes_to_hex(&code_bytes);
    let ghost before = m@;
    m.append(h.as_str());
    proof {
        assert(code_bytes@ =~= seq![code]);
        assert(before.subrange(before.len() - 2, before.len() as int) =~= seq!['0', 'x']);
        assert(m@.subrange(m@.len() - 4, m@.len() as int) =~= code_text(code));
    }
    UhfError::InvalidResponse(m)
}

/// Accepts a notification answering `command` with status zero.
pub fn decode_status(reply: &[u8], command: u8, what: &str) -> (r: Result<(), UhfError>)
    ensures
        decoded(r, if status_ok(reply@, command) { Some(()) } else { None }),
{
    if check_status(reply, command) {
        Ok(())
    } else {
        Err(invalid_response(what))
    }
}

/// A notification with status zero, whatever command it names: the reader
/// answers a Select mode change under the Select parameter command.
pub open spec fn ack_ok(reply: Seq<u8>) -> bool {
    &&& reply.len() >= 7
    &&& reply[0] == HEADER
    &&& reply[1] == TYPE_NOTIFICATION
    &&& reply[5] == 0
}

/// Accepts a notification with status zero.
pub fn decode_ack(reply: &[u8], what: &str) -> (r: Result<(), UhfError>)
    ensures
        decoded(r, if ack_ok(reply@) { Some(()) } else { None }),
{
    if reply.len() >= 7 && reply[0] == HEADER && reply[1] == TYPE_NOTIFICATION && reply[5] == 0 {
        Ok(())
    } else {
        Err(invalid_response(what))
    }
}

/// The status of a tag operation the reader reports on: success when
/// `status_ok`, otherwise a device error code at offset 5 when there is a
/// non-zero one.
pub open spec fn device_error(reply: Seq<u8>, command: u8) -> Option<u8> {
    if !status_ok(reply, command) && reply.len() >= 6 && reply[5] != 0 {
        Some(reply[5])
    } else {
        None
    }
}

/// What a tag operation's answer yields: success exactly when the status is
/// zero, and a device error code, when there is one, at the end of the error
/// message.
pub open spec fn tag_outcome(reply: Seq<u8>, command: u8, r: Result<(), UhfError>) -> bool {
    &&& decoded(r, if status_ok(reply, command) { Some(()) } else { None })
    &&& device_error(reply, command) matches Some(code) ==> ({
        ends_with_code(r->Err_0->InvalidResponse_0@, code)
    })
}

/// Accepts a notification answering the tag operation `command` with status
/// zero. A non-zero status byte is reported as "`op` failed with error code:
/// 0x.." in the error message; other answers get the message `what`.
pub fn decode_device_status(reply: &[u8], command: u8, op: &str, what: &str) -> (r: Result<
    (),
    UhfError,
>)
    ensures
        tag_outcome(reply@, command, r),
{
    if check_status(reply, command) {
        Ok(())
    } else if reply.len() >= 6 && reply[5] != 0 {
        let mut m = op.to_string();
        m.append(" failed with error code: ");
        Err(coded_error(m.as_str(), reply[5]))
    } else {
        Err(invalid_response(what))
    }
}

/// Transmit power in dBm from its answer: a 16-bit big-endian value in
/// hundredths of a dBm.
pub open spec fn tx_power_reply(reply: Seq<u8>) -> Option<u16> {
    if sized_notification(reply, CMD_GET_TX_POWER, 2, 8) {
        Some(((reply[5] * 256 + reply[6]) / 100) as u16)
    } else {
        None
    }
}

/// Decodes the answer to a transmit power query.
pub fn decode_tx_power(reply: &[u8]) -> (r: Result<u16, UhfError>)
    ensures
        decoded(r, tx_power_reply(reply@)),
{
    if check_sized(reply, CMD_GET_TX_POWER, 2, 8) {
        let raw = (reply[5] as u16) * 256 + (reply[6] as u16);
        Ok(raw / 100)
    } else {
        Err(invalid_response("Failed to get transmit power"))
    }
}

/// Query parameters from their answer.
pub open spec fn query_reply(reply: Seq<u8>) -> Option<QueryParams> {
    if sized_notification(reply, CMD_GET_QUERY_PARAM, 2, 9) {
        Some(query_of_bytes(reply[5], reply[6]))
    } else {
        None
    }
}

/// Decodes the answer to a Query parameter query.
pub fn decode_query_param(reply: &[u8]) -> (r: Result<QueryParams, UhfError>)
    ensures
        decoded(r, query_reply(reply@)),
{
    if check_sized(reply, CMD_GET_QUERY_PARAM, 2, 9) {
        Ok(QueryParams::from_bytes([reply[5], reply[6]]))
    } else {
        Err(invalid_response("Failed to get query parameters"))
    }
}

/// The region from its answer; an unknown code is no region.
pub open spec fn region_reply(reply: Seq<u8>) -> Option<Region> {
    if sized_notification(reply, CMD_GET_REGION, 1, 8) {
        Region::spec_from_code(reply[5])
    } else {
        None
    }
}

/// Decodes the answer to a region query.
pub fn decode_region(reply: &[u8]) -> (r: Result<Region, UhfError>)
    ensures
        decoded(r, region_reply(reply@)),
{
    if check_sized(reply, CMD_GET_REGION, 1, 8) {
        match Region::try_from(reply[5]) {
            Ok(region) => Ok(region),
            Err(_) => Err(coded_error("Unknown region code: ", reply[5])),
        }
    } else {
        Err(invalid_response("Failed to get region"))
    }
}

/// The RF link profile from its answer; an unknown code is no profile.
pub open spec fn rf_link_profile_reply(reply: Seq<u8>) -> Option<RfLinkProfile> {
    if sized_notification(reply, CMD_GET_RF_LINK_PROFILE, 1, 8) {
        RfLinkProfile::spec_from_code(reply[5])
    } else {
        None
    }
}

/// Decodes the answer to an RF link profile query.
pub fn decode_rf_link_profile(reply: &[u8]) -> (r: Result<RfLinkProfile, UhfError>)
    ensures
        decoded(r, rf_link_profile_reply(reply@)),
{
    if check_sized(reply, CMD_GET_RF_LINK_PROFILE, 1, 8) {
        match RfLinkProfile::try_from(reply[5]) {
            Ok(profile) => Ok(profile),
            Err(_) => Err(coded_error("Unknown RF link profile: ", reply[5])),
        }
    } else {
        Err(invalid_response("Failed to get RF link profile"))
    }
}

/// A one-byte setting from the answer to `command`.
pub open spec fn byte_reply(reply: Seq<u8>, command: u8) -> Option<u8> {
    if sized_notification(reply, command, 1, 8) {
        Some(reply[5])
    } else {
        None
    }
}

/// Decodes the answer to a query for a one-byte setting.
pub fn decode_byte(reply: &[u8], command: u8, what: &str) -> (r: Result<u8, UhfError>)
    ensures
        decoded(r, byte_reply(reply@, command)),
{
    if check_sized(reply, command, 1, 8) {
        Ok(reply[5])
    } else {
        Err(invalid_response(what))
    }
}

/// The Select parameters from their answer: the parameter block lies
/// between the five-byte head and the two-byte tail.
pub open spec fn select_reply(reply: Seq<u8>) -> Option<SelectView> {
    if reply.len() < 14 || reply[0] != HEADER || reply[1] != TYPE_NOTIFICATION || reply[2]
        != CMD_GET_SELECT_PARAM {
        None
    } else {
        select_of_block(reply.subrange(5, reply.len() - 2))
    }
}

/// Decodes the answer to a Select parameter query.
pub fn decode_select_param(reply: &[u8]) -> (r: Result<SelectParams, UhfError>)
    ensures
        decoded_view(r, select_reply(reply@)),
{
    if reply.len() < 14 || reply[0] != HEADER || reply[1] != TYPE_NOTIFICATION || reply[2]
        != CMD_GET_SELECT_PARAM {
        return Err(invalid_response("Invalid select parameter response"));
    }
    let block = copy_range(reply, 5, reply.len() - 2);
    match SelectParams::from_bytes(block.as_slice()) {
        Some(p) => Ok(p),
        None => Err(invalid_response("Response too short for mask data")),
    }
}

/// The 16-bit big-endian length field of a frame.
pub open spec fn frame_len_field(reply: Seq<u8>) -> int {
    reply[3] * 256 + reply[4]
}

/// Where the EPC of a tag frame ends: it starts at offset 8 and is five bytes
/// shorter than the length field announces (signal strength, PC word and
/// trailing fields make up the rest).
pub open spec fn tag_epc_end(reply: Seq<u8>) -> int {
    8 + if frame_len_field(reply) >= 5 {
        frame_len_field(reply) - 5
    } else {
        0
    }
}

/// What a poll answer holds: `Some(Some(tag))` for a tag frame,
/// `Some(None)` for no tag (a notification, or an answer too short to hold
/// one), and `None` for a malformed answer (a wrong header, or an EPC that
/// runs past the end).
pub open spec fn tag_reply(reply: Seq<u8>) -> Option<Option<TagView>> {
    if reply.len() < 12 {
        Some(None)
    } else if reply[0] != HEADER {
        None
    } else if reply[1] != TYPE_TAG {
        Some(None)
    } else if tag_epc_end(reply) > reply.len() {
        None
    } else {
        Some(
            Some(
                TagView {
                    epc: hex_of(reply.subrange(8, tag_epc_end(reply))),
                    rssi: reply[5],
                },
            ),
        )
    }
}

/// Decodes a poll answer or a tag frame of a poll stream.
pub fn parse_tag(reply: &[u8]) -> (r: Result<Option<TagInfo>, UhfError>)
    ensures
        match tag_reply(reply@) {
            None => is_invalid_response(r),
            Some(None) => r == Ok::<Option<TagInfo>, UhfError>(None),
            Some(Some(t)) => r is Ok && r->Ok_0 is Some && r->Ok_0->0@ == t,
        },
{
    if reply.len() < 12 {
        return Ok(None);
    }
    if reply[0] != HEADER {
        return Err(invalid_response("Invalid response header"));
    }
    if reply[1] != TYPE_TAG {
        return Ok(None);
    }
    let n = (reply[3] as usize) * 256 + (reply[4] as usize);
    let end = 8 + if n >= 5 {
        n - 5
    } else {
        0
    };
    if end > reply.len() {
        return Err(invalid_response("Invalid tag response: EPC runs past the end"));
    }
    let epc = copy_range(reply, 8, end);
    Ok(Some(TagInfo { epc: bytes_to_hex(epc.as_slice()), rssi: reply[5] }))
}

/// Names what `String::from_utf8_lossy` makes of a byte string.
pub uninterp spec fn utf8_lossy(bytes: Seq<u8>) -> Seq<char>;

/// Relies on `String::from_utf8_lossy`: the text of the bytes, with invalid
/// sequences replaced; the result depends on the bytes alone.
#[verifier::external_body]
fn decode_utf8_lossy(bytes: &[u8]) -> (s: String)
    ensures
        s@ == utf8_lossy(bytes@),
{
    String::from_utf8_lossy(bytes).into_owned()
}

/// The firmware version from its answer: the text between the status byte
/// at offset 5 and the two-byte tail.
pub open spec fn firmware_reply(reply: Seq<u8>) -> Option<Seq<char>> {
    if reply.len() >= 8 && reply[0] == HEADER && reply[1] == TYPE_NOTIFICATION {
        Some(utf8_lossy(reply.subrange(6, reply.len() - 2)))
    } else {
        None
    }
}

/// Decodes the answer to a firmware version query.
pub fn parse_firmware_version(reply: &[u8]) -> (r: Result<String, UhfError>)
    ensures
        decoded_view(r, firmware_reply(reply@)),
{
    if reply.len() >= 8 && reply[0] == HEADER && reply[1] == TYPE_NOTIFICATION {
        let text = copy_range(reply, 6, reply.len() - 2);
        Ok(decode_utf8_lossy(text.as_slice()))
    } else {
        Err(invalid_response("Invalid firmware response"))
    }
}

/// The data of a tag memory read from its answer: a tag-type frame whose
/// 16-bit length field gives the number of data bytes after the head.
pub open spec fn tag_data_reply(reply: Seq<u8>) -> Option<Seq<u8>> {
    if reply.len() >= 8 && reply[0] == HEADER && reply[2] == CMD_READ_TAG_DATA && reply[1]
        == TYPE_TAG && reply.len() >= 7 + reply[3] * 256 + reply[4] {
        Some(reply.subrange(5, 5 + reply[3] * 256 + reply[4]))
    } else {
        None
    }
}

/// Decodes the answer to a tag memory read; a notification carries the
/// device's error code, which the message reports.
pub fn decode_tag_data(reply: &[u8]) -> (r: Result<Vec<u8>, UhfError>)
    ensures
        decoded_view(r, tag_data_reply(reply@)),
{
    if reply.len() >= 8 && reply[0] == HEADER && reply[2] == CMD_READ_TAG_DATA {
        if reply[1] == TYPE_TAG {
            let n = (reply[3] as usize) * 256 + (reply[4] as usize);
            if reply.len() >= 7 + n {
                Ok(copy_range(reply, 5, 5 + n))
            } else {
                Err(invalid_response("Response too short for data"))
            }
        } else if reply[1] == TYPE_NOTIFICATION {
            Err(coded_error("Read failed with error code: ", reply[5]))
        } else {
            Err(invalid_response("Unexpected response type"))
        }
    } else {
        Err(invalid_response("Invalid read response"))
    }
}

/// Tag entries packed back to back from `offset` on: signal strength, two PC
/// bytes, then an EPC taken as twelve bytes (or what is left of the answer,
/// if less). Scanning stops at a zero signal byte, once past the announced
/// data length `data_len`, or when fewer than seven bytes are left.
pub open spec fn buffer_entries(reply: Seq<u8>, offset: int, data_len: int) -> Seq<TagView>
    decreases reply.len() - offset,
{
    if 0 <= offset && offset + 6 < reply.len() && reply[offset] != 0 && offset < data_len + 5 {
        let n = if reply.len() - offset - 3 < 12 {
            reply.len() - offset - 3
        } else {
            12
        };
        seq![
            TagView {
                epc: hex_of(reply.subrange(offset + 3, offset + 3 + n)),
                rssi: reply[offset],
            },
        ] + buffer_entries(reply, offset + 3 + n, data_len)
    } else {
        Seq::empty()
    }
}

/// The tags held in the reader's buffer from its answer; a data length of 1
/// with a zero status byte is the empty buffer.
pub open spec fn buffer_reply(reply: Seq<u8>) -> Option<Seq<TagView>> {
    if reply.len() < 7 || reply[0] != HEADER || reply[1] != TYPE_NOTIFICATION || reply[2]
        != CMD_GET_BUFFER_DATA {
        None
    } else if reply[3] * 256 + reply[4] == 1 && reply[5] == 0 {
        Some(Seq::empty())
    } else {
        Some(buffer_entries(reply, 5, reply[3] * 256 + reply[4]))
    }
}

/// Decodes the answer to a buffer read.
pub fn decode_buffer(reply: &[u8]) -> (r: Result<Vec<TagInfo>, UhfError>)
    ensures
        match buffer_reply(reply@) {
            Some(tags) => r is Ok && tag_views(r->Ok_0@) == tags,
            None => is_invalid_response(r),
        },
{
    if reply.len() < 7 || reply[0] != HEADER || reply[1] != TYPE_NOTIFICATION || reply[2]
        != CMD_GET_BUFFER_DATA {
        return Err(invalid_response("Invalid buffer response"));
    }
    let data_len = (reply[3] as usize) * 256 + (reply[4] as usize);
    let mut tags: Vec<TagInfo> = Vec::new();
    if data_len == 1 && reply[5] == 0 {
        proof {
            assert(tag_views(tags@) =~= Seq::<TagView>::empty());
        }
        return Ok(tags);
    }
    let mut offset: usize = 5;
    while offset < reply.len() && reply.len() - offset > 6 && reply[offset] != 0 && offset < data_len + 5
        invariant
            5 <= offset <= reply@.len(),
            data_len == reply@[3] * 256 + reply@[4],
            tag_views(tags@) + buffer_entries(reply@, offset as int, data_len as int)
                == buffer_entries(reply@, 5, data_len as int),
        decreases reply@.len() - offset,
    {
        let rest = reply.len() - offset - 3;
        let n = if rest < 12 {
            rest
        } else {
            12
        };
        let epc = copy_range(reply, offset + 3, offset + 3 + n);
        let tag = TagInfo { epc: bytes_to_hex(epc.as_slice()), rssi: reply[offset] };
        let ghost before = tags@;
        tags.push(tag);
        proof {
            assert(tag_views(tags@) =~= tag_views(before).push(tag@));
            assert(tag_views(tags@) + buffer_entries(reply@, offset + 3 + n, data_len as int)
                =~= tag_views(before) + buffer_entries(reply@, offset as int, data_len as int));
        }
        offset = offset + 3 + n;
    }
    proof {
        assert(buffer_entries(reply@, offset as int, data_len as int) == Seq::<TagView>::empty());
        assert(tag_views(tags@) =~= tag_views(tags@) + Seq::<TagView>::empty());
    }
    Ok(tags)
}

/// The EAS alarm from its answer: a tag frame means an alarm, and a
/// notification means one exactly when its status byte is zero.
pub open spec fn eas_reply(reply: Seq<u8>) -> Option<bool> {
    if reply.len() >= 7 && reply[0] == HEADER {
        if reply[1] == TYPE_TAG {
            Some(true)
        } else if reply[1] == TYPE_NOTIFICATION {
            Some(reply[5] == 0)
        } else {
            None
        }
    } else {
        None
    }
}

/// Decodes the answer to an EAS alarm check.
pub fn decode_eas_alarm(reply: &[u8]) -> (r: Result<bool, UhfError>)
    ensures
        decoded(r, eas_reply(reply@)),
{
    if reply.len() >= 7 && reply[0] == HEADER {
        if reply[1] == TYPE_TAG {
            Ok(true)
        } else if reply[1] == TYPE_NOTIFICATION {
            Ok(reply[5] == 0)
        } else {
            Err(invalid_response("Unexpected response type"))
        }
    } else {
        Err(invalid_response("Failed to check EAS alarm"))
    }
}

/// The QT control byte from the answer to a Monza QT operation.
pub open spec fn monza_qt_reply(reply: Seq<u8>) -> Option<u8> {
    if reply.len() >= 8 && status_ok(reply, CMD_IMPINJ_MONZA_QT) {
        Some(reply[6])
    } else {
        None
    }
}

/// Decodes the answer to a Monza QT operation; a non-zero status byte is
/// reported in the error message.
pub fn decode_monza_qt(reply: &[u8]) -> (r: Result<u8, UhfError>)
    ensures
        decoded(r, monza_qt_reply(reply@)),
{
    if reply.len() >= 8 && check_status(reply, CMD_IMPINJ_MONZA_QT) {
        Ok(reply[6])
    } else if reply.len() >= 6 && reply[5] != 0 {
        Err(coded_error("Impinj Monza QT failed with error code: ", reply[5]))
    } else {
        Err(invalid_response("Failed Impinj Monza QT operation"))
    }
}

} // verus!
