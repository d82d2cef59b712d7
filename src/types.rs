//! Values exchanged with the reader: tags, errors, and the EPC Gen2 fields
//! carried inside frame parameters, with their byte encodings.
use vstd::prelude::*;

verus! {

/// Information about a detected RFID tag.
#[derive(Debug, Clone)]
pub struct TagInfo {
    /// The tag's EPC, as upper-case hexadecimal.
    pub epc: String,
    /// Received signal strength of the reading.
    pub rssi: u8,
}

/// What a tag reading holds, as values.
pub struct TagView {
    pub epc: Seq<char>,
    pub rssi: u8,
}

impl View for TagInfo {
    type V = TagView;

    open spec fn view(&self) -> TagView {
        TagView { epc: self.epc@, rssi: self.rssi }
    }
}

/// Two readings are the same tag when their EPCs agree; the signal strength
/// is not part of a tag's identity.
impl PartialEq for TagInfo {
    fn eq(&self, other: &TagInfo) -> (r: bool)
        ensures
            r == (self.epc@ == other.epc@),
    {
        self.epc == other.epc
    }
}

impl vstd::std_specs::cmp::PartialEqSpecImpl for TagInfo {
    open spec fn obeys_eq_spec() -> bool {
        true
    }

    open spec fn eq_spec(&self, other: &TagInfo) -> bool {
        self.epc@ == other.epc@
    }
}

/// Errors that can occur during RFID operations.
#[derive(Debug)]
pub enum UhfError {
    /// The transport failed; the message describes the cause.
    Transport(String),
    /// A caller-supplied value violates a protocol or safety constraint.
    InvalidParameter(String),
    /// The reader's answer does not have the expected shape or status.
    InvalidResponse(String),
}

/// Memory bank of a tag.
#[derive(Debug, Clone, Copy, PartialEq, Eq, Structural)]
pub enum MemoryBank {
    /// Reserved memory (kill and access passwords).
    Reserved,
    /// EPC memory.
    Epc,
    /// TID memory.
    Tid,
    /// User memory.
    User,
}

impl MemoryBank {
    pub open spec fn spec_code(&self) -> u8 {
        match self {
            MemoryBank::Reserved => 0,
            MemoryBank::Epc => 1,
            MemoryBank::Tid => 2,
            MemoryBank::User => 3,
        }
    }

    /// The bank's code on the wire.
    #[verifier::when_used_as_spec(spec_code)]
    pub fn code(&self) -> (c: u8)
        ensures
            c == self.spec_code(),
    {
        match self {
            MemoryBank::Reserved => 0,
            MemoryBank::Epc => 1,
            MemoryBank::Tid => 2,
            MemoryBank::User => 3,
        }
    }

    /// The bank with code `c` (below 4).
    pub open spec fn spec_from_code(c: u8) -> MemoryBank {
        if c == 0 {
            MemoryBank::Reserved
        } else if c == 1 {
            MemoryBank::Epc
        } else if c == 2 {
            MemoryBank::Tid
        } else {
            MemoryBank::User
        }
    }
}

/// Target flag of the Select command (EPC Gen2).
#[derive(Debug, Clone, Copy, PartialEq, Eq, Structural, Default)]
pub enum SelectTarget {
    /// Inventoried flag of session S0.
    #[default]
    S0,
    /// Inventoried flag of session S1.
    S1,
    /// Inventoried flag of session S2.
    S2,
    /// Inventoried flag of session S3.
    S3,
    /// The SL flag.
    Sl,
}

impl SelectTarget {
    pub open spec fn spec_code(&self) -> u8 {
        match self {
            SelectTarget::S0 => 0,
            SelectTarget::S1 => 1,
            SelectTarget::S2 => 2,
            SelectTarget::S3 => 3,
            SelectTarget::Sl => 4,
        }
    }

    /// The target's code on the wire.
    #[verifier::when_used_as_spec(spec_code)]
    pub fn code(&self) -> (c: u8)
        ensures
            c == self.spec_code(),
    {
        match self {
            SelectTarget::S0 => 0,
            SelectTarget::S1 => 1,
            SelectTarget::S2 => 2,
            SelectTarget::S3 => 3,
            SelectTarget::Sl => 4,
        }
    }

    /// The target with code `c`; codes above 4 are not emitted by the reader
    /// and read as `S0`.
    pub open spec fn spec_from_code(c: u8) -> SelectTarget {
        if c == 1 {
            SelectTarget::S1
        } else if c == 2 {
            SelectTarget::S2
        } else if c == 3 {
            SelectTarget::S3
        } else if c == 4 {
            SelectTarget::Sl
        } else {
            SelectTarget::S0
        }
    }

    fn from_code(c: u8) -> (t: SelectTarget)
        ensures
            t == Self::spec_from_code(c),
    {
        if c == 1 {
            SelectTarget::S1
        } else if c == 2 {
            SelectTarget::S2
        } else if c == 3 {
            SelectTarget::S3
        } else if c == 4 {
            SelectTarget::Sl
        } else {
            SelectTarget::S0
        }
    }
}

/// Action of the Select command (EPC Gen2 action table).
#[derive(Debug, Clone, Copy, PartialEq, Eq, Structural, Default)]
pub enum SelectAction {
    /// Match: assert SL or inventoried to A; non-match: deassert SL or inventoried to B.
    #[default]
    Action0,
    /// Match: assert SL or inventoried to A; non-match: do nothing.
    Action1,
    /// Match: do nothing; non-match: deassert SL or inventoried to B.
    Action2,
    /// Match: negate SL or invert; non-match: do nothing.
    Action3,
    /// Match: deassert SL or inventoried to B; non-match: assert SL or inventoried to A.
    Action4,
    /// Match: deassert SL or inventoried to B; non-match: do nothing.
    Action5,
    /// Match: do nothing; non-match: assert SL or inventoried to A.
    Action6,
    /// Match: do nothing; non-match: negate SL or invert.
    Action7,
}

impl SelectAction {
    pub open spec fn spec_code(&self) -> u8 {
        match self {
            SelectAction::Action0 => 0,
            SelectAction::Action1 => 1,
            SelectAction::Action2 => 2,
            SelectAction::Action3 => 3,
            SelectAction::Action4 => 4,
            SelectAction::Action5 => 5,
            SelectAction::Action6 => 6,
            SelectAction::Action7 => 7,
        }
    }

    /// The action's code on the wire.
    #[verifier::when_used_as_spec(spec_code)]
    pub fn code(&self) -> (c: u8)
        ensures
            c == self.spec_code(),
    {
        match self {
            SelectAction::Action0 => 0,
            SelectAction::Action1 => 1,
            SelectAction::Action2 => 2,
            SelectAction::Action3 => 3,
            SelectAction::Action4 => 4,
            SelectAction::Action5 => 5,
            SelectAction::Action6 => 6,
            SelectAction::Action7 => 7,
        }
    }

    /// The action with code `c`; codes above 7 read as `Action0`.
    pub open spec fn spec_from_code(c: u8) -> SelectAction {
        if c == 1 {
            SelectAction::Action1
        } else if c == 2 {
            SelectAction::Action2
        } else if c == 3 {
            SelectAction::Action3
        } else if c == 4 {
            SelectAction::Action4
        } else if c == 5 {
            SelectAction::Action5
        } else if c == 6 {
            SelectAction::Action6
        } else if c == 7 {
            SelectAction::Action7
        } else {
            SelectAction::Action0
        }
    }

    fn from_code(c: u8) -> (a: SelectAction)
        ensures
            a == Self::spec_from_code(c),
    {
        if c == 1 {
            SelectAction::Action1
        } else if c == 2 {
            SelectAction::Action2
        } else if c == 3 {
            SelectAction::Action3
        } else if c == 4 {
            SelectAction::Action4
        } else if c == 5 {
            SelectAction::Action5
        } else if c == 6 {
            SelectAction::Action6
        } else if c == 7 {
            SelectAction::Action7
        } else {
            SelectAction::Action0
        }
    }
}

/// When the reader sends a Select command before tag operations.
#[derive(Debug, Clone, Copy, PartialEq, Eq, Structural, Default)]
pub enum SelectMode {
    /// Before every tag operation.
    Always,
    /// Never.
    #[default]
    Disabled,
    /// Only before Read, Write, Lock and Kill, not before polling.
    NonPolling,
}

impl SelectMode {
    pub open spec fn spec_code(&self) -> u8 {
        match self {
            SelectMode::Always => 0,
            SelectMode::Disabled => 1,
            SelectMode::NonPolling => 2,
        }
    }

    /// The mode's code on the wire.
    #[verifier::when_used_as_spec(spec_code)]
    pub fn code(&self) -> (c: u8)
        ensures
            c == self.spec_code(),
    {
        match self {
            SelectMode::Always => 0,
            SelectMode::Disabled => 1,
            SelectMode::NonPolling => 2,
        }
    }
}

/// Parameters of the Select command.
#[derive(Debug, Clone)]
pub struct SelectParams {
    /// Target session or flag.
    pub target: SelectTarget,
    /// Action to perform.
    pub action: SelectAction,
    /// Memory bank to match against.
    pub mem_bank: MemoryBank,
    /// Starting bit position of the match in the memory bank.
    pub pointer: u32,
    /// Mask data to match.
    pub mask: Vec<u8>,
    /// Whether truncation is enabled.
    pub truncate: bool,
}

/// Select parameters as values.
pub struct SelectView {
    pub target: SelectTarget,
    pub action: SelectAction,
    pub mem_bank: MemoryBank,
    pub pointer: u32,
    pub mask: Seq<u8>,
    pub truncate: bool,
}

impl View for SelectParams {
    type V = SelectView;

    open spec fn view(&self) -> SelectView {
        SelectView {
            target: self.target,
            action: self.action,
            mem_bank: self.mem_bank,
            pointer: self.pointer,
            mask: self.mask@,
            truncate: self.truncate,
        }
    }
}

/// The selector byte: target in the top three bits, action in the next
/// three, memory bank in the lowest two.
pub open spec fn selector_byte(target: SelectTarget, action: SelectAction, bank: MemoryBank) -> u8 {
    (target.spec_code() * 32 + action.spec_code() * 4 + bank.spec_code()) as u8
}

/// The four big-endian bytes of `x`.
pub open spec fn be_bytes(x: u32) -> Seq<u8> {
    seq![
        (x / 0x1000000) as u8,
        ((x / 0x10000) % 256) as u8,
        ((x / 0x100) % 256) as u8,
        (x % 256) as u8,
    ]
}

/// The big-endian value of four bytes.
pub open spec fn be_value(b: Seq<u8>) -> u32 {
    (b[0] * 0x1000000 + b[1] * 0x10000 + b[2] * 0x100 + b[3]) as u32
}

/// Number of mask bytes announced by a mask length of `bits` bits.
pub open spec fn mask_bytes(bits: u8) -> nat {
    ((bits + 7) / 8) as nat
}

/// The Select parameter block: selector byte, 32-bit big-endian bit
/// pointer, mask length in bits, truncate flag (`0x80` on, `0x00` off),
/// then the mask.
pub open spec fn select_block(p: SelectView) -> Seq<u8> {
    seq![selector_byte(p.target, p.action, p.mem_bank)] + be_bytes(p.pointer) + seq![
        ((p.mask.len() * 8) % 256) as u8,
        if p.truncate {
            0x80u8
        } else {
            0x00u8
        },
    ] + p.mask
}

/// What a Select parameter block decodes to: `None` when it is shorter than
/// its seven fixed bytes plus the mask its length field announces.
pub open spec fn select_of_block(b: Seq<u8>) -> Option<SelectView> {
    if b.len() < 7 || b.len() < 7 + mask_bytes(b[5]) {
        None
    } else {
        Some(
            SelectView {
                target: SelectTarget::spec_from_code(b[0] / 32),
                action: SelectAction::spec_from_code((b[0] / 4) % 8),
                mem_bank: MemoryBank::spec_from_code(b[0] % 4),
                pointer: be_value(b.subrange(1, 5)),
                mask: b.subrange(7, 7 + mask_bytes(b[5]) as int),
                truncate: b[6] == 0x80,
            },
        )
    }
}

impl SelectParams {
    /// Encodes the parameters as a Select parameter block.
    pub fn to_bytes(&self) -> (r: Vec<u8>)
        ensures
            r@ == select_block(self@),
    {
        let sel = self.target.code() * 32 + self.action.code() * 4 + self.mem_bank.code();
        let p = self.pointer;
        let mut r: Vec<u8> = Vec::with_capacity(7);
        r.push(sel);
        r.push((p / 0x1000000) as u8);
        r.push(((p / 0x10000) % 256) as u8);
        r.push(((p / 0x100) % 256) as u8);
        r.push((p % 256) as u8);
        r.push(((self.mask.len() % 32) * 8) as u8);
        r.push(
            if self.truncate {
                0x80
            } else {
                0x00
            },
        );
        let ghost fixed = r@;
        let mut i: usize = 0;
        while i < self.mask.len()
            invariant
                i <= self.mask@.len(),
                r@ == fixed + self.mask@.take(i as int),
            decreases self.mask@.len() - i,
        {
            r.push(self.mask[i]);
            i = i + 1;
            proof {
                assert(r@ =~= fixed + self.mask@.take(i as int));
            }
        }
        proof {
            assert(self.mask@.take(i as int) =~= self.mask@);
            assert((self.mask@.len() % 32) * 8 == (self.mask@.len() * 8) % 256) by (nonlinear_arith);
            assert(r@ =~= select_block(self@));
        }
        r
    }

    /// Decodes a Select parameter block; `None` when it is too short for the
    /// mask it announces.
    pub fn from_bytes(b: &[u8]) -> (r: Option<SelectParams>)
        ensures
            match select_of_block(b@) {
                None => r is None,
                Some(v) => r is Some && r->0@ == v,
            },
    {
        if b.len() < 7 {
            return None;
        }
        let bits = b[5];
        let n = (bits as usize + 7) / 8;
        if b.len() < 7 + n {
            return None;
        }
        let mask = crate::frame::copy_range(b, 7, 7 + n);
        let pointer = (b[1] as u32) * 0x1000000 + (b[2] as u32) * 0x10000 + (b[3] as u32) * 0x100
            + (b[4] as u32);
        proof {
            assert(b@.subrange(1, 5)[0] == b@[1]);
            assert(b@.subrange(1, 5)[1] == b@[2]);
            assert(b@.subrange(1, 5)[2] == b@[3]);
            assert(b@.subrange(1, 5)[3] == b@[4]);
        }
        Some(
            SelectParams {
                target: SelectTarget::from_code(b[0] / 32),
                action: SelectAction::from_code((b[0] / 4) % 8),
                mem_bank: match b[0] % 4 {
                    0 => MemoryBank::Reserved,
                    1 => MemoryBank::Epc,
                    2 => MemoryBank::Tid,
                    _ => MemoryBank::User,
                },
                pointer,
                mask,
                truncate: b[6] == 0x80,
            },
        )
    }
}

/// Decoding the encoding of Select parameters gives them back, for every mask
/// of at most 31 bytes (the mask length field counts bits in one byte).
pub proof fn lemma_select_round_trip(p: SelectView)
    requires
        p.mask.len() <= 31,
    ensures
        select_of_block(select_block(p)) == Some(p),
{
    let b = select_block(p);
    let t = p.target.spec_code();
    let a = p.action.spec_code();
    let m = p.mem_bank.spec_code();
    let s = selector_byte(p.target, p.action, p.mem_bank);
    assert(t <= 4 && a <= 7 && m <= 3);
    assert(s == t * 32 + a * 4 + m);
    assert(s / 32 == t && (s / 4) % 8 == a && s % 4 == m) by (nonlinear_arith)
        requires
            s == t * 32 + a * 4 + m,
            t <= 4,
            a <= 7,
            m <= 3,
    ;
    let bits = ((p.mask.len() * 8) % 256) as u8;
    assert(bits == p.mask.len() * 8);
    assert(mask_bytes(bits) == p.mask.len());
    let x = p.pointer;
    assert(b.subrange(1, 5) =~= be_bytes(x));
    assert(be_value(be_bytes(x)) == x) by (nonlinear_arith);
    assert(b.subrange(7, 7 + mask_bytes(b[5]) as int) =~= p.mask);
    assert(SelectTarget::spec_from_code(t) == p.target);
    assert(SelectAction::spec_from_code(a) == p.action);
    assert(MemoryBank::spec_from_code(m) == p.mem_bank);
}

/// Operating region of the reader.
#[derive(Debug, Clone, Copy, PartialEq, Eq, Structural)]
pub enum Region {
    /// China 900 MHz band.
    China900,
    /// US band.
    Us,
    /// Europe band.
    Europe,
    /// China 800 MHz band.
    China800,
    /// South Korea band.
    Korea,
}

impl Region {
    pub open spec fn spec_code(&self) -> u8 {
        match self {
            Region::China900 => 0x01,
            Region::Us => 0x02,
            Region::Europe => 0x03,
            Region::China800 => 0x04,
            Region::Korea => 0x06,
        }
    }

    /// The region's code on the wire.
    #[verifier::when_used_as_spec(spec_code)]
    pub fn code(&self) -> (c: u8)
        ensures
            c == self.spec_code(),
    {
        match self {
            Region::China900 => 0x01,
            Region::Us => 0x02,
            Region::Europe => 0x03,
            Region::China800 => 0x04,
            Region::Korea => 0x06,
        }
    }

    /// The region with code `c`, if any.
    pub open spec fn spec_from_code(c: u8) -> Option<Region> {
        if c == 0x01 {
            Some(Region::China900)
        } else if c == 0x02 {
            Some(Region::Us)
        } else if c == 0x03 {
            Some(Region::Europe)
        } else if c == 0x04 {
            Some(Region::China800)
        } else if c == 0x06 {
            Some(Region::Korea)
        } else {
            None
        }
    }

    pub open spec fn spec_base_khz(&self) -> u32 {
        match self {
            Region::China900 => 920_125,
            Region::Us => 902_250,
            Region::Europe => 865_100,
            Region::China800 => 840_125,
            Region::Korea => 917_100,
        }
    }

    pub open spec fn spec_spacing_khz(&self) -> u32 {
        match self {
            Region::China900 => 250,
            Region::Us => 500,
            Region::Europe => 200,
            Region::China800 => 250,
            Region::Korea => 200,
        }
    }

    /// Channel index of `freq_khz`: whole spacings above the base, truncated
    /// toward zero, and held within 0..=255.
    pub open spec fn spec_channel_of(&self, freq_khz: u32) -> u8 {
        if freq_khz <= self.spec_base_khz() {
            0
        } else {
            let q = (freq_khz - self.spec_base_khz()) as int / self.spec_spacing_khz() as int;
            if q > 255 {
                255
            } else {
                q as u8
            }
        }
    }

    /// Frequency of channel 0 of this region, in kHz.
    pub fn base_frequency_khz(&self) -> (f: u32)
        ensures
            f == self.spec_base_khz(),
    {
        match self {
            Region::China900 => 920_125,
            Region::Us => 902_250,
            Region::Europe => 865_100,
            Region::China800 => 840_125,
            Region::Korea => 917_100,
        }
    }

    /// Distance between neighbouring channels of this region, in kHz.
    pub fn channel_spacing_khz(&self) -> (s: u32)
        ensures
            s == self.spec_spacing_khz(),
    {
        match self {
            Region::China900 => 250,
            Region::Us => 500,
            Region::Europe => 200,
            Region::China800 => 250,
            Region::Korea => 200,
        }
    }

    /// Frequency of `channel`, in kHz: base plus channel times spacing.
    pub fn frequency_khz_from_channel(&self, channel: u8) -> (f: u32)
        ensures
            f == self.spec_base_khz() + channel * self.spec_spacing_khz(),
    {
        self.base_frequency_khz() + (channel as u32) * self.channel_spacing_khz()
    }

    /// Channel index of a frequency in kHz: the distance from the base in
    /// whole spacings, truncated toward zero; frequencies below the base give
    /// 0 and those beyond channel 255 give 255.
    pub fn channel_from_frequency_khz(&self, freq_khz: u32) -> (c: u8)
        ensures
            c == self.spec_channel_of(freq_khz),
    {
        let base = self.base_frequency_khz();
        if freq_khz <= base {
            0
        } else {
            let q = (freq_khz - base) / self.channel_spacing_khz();
            if q > 255 {
                255
            } else {
                q as u8
            }
        }
    }
}

/// Converting a channel to its frequency and back gives the channel again.
pub proof fn lemma_channel_round_trip(region: Region, channel: u8)
    ensures
        channel > 0 ==> region.spec_channel_of(
            (region.spec_base_khz() + channel * region.spec_spacing_khz()) as u32,
        ) == channel,
        channel == 0 ==> region.spec_channel_of(region.spec_base_khz()) == 0,
{
    let s = region.spec_spacing_khz() as int;
    assert(s > 0);
    assert((channel * s) / s == channel) by (nonlinear_arith)
        requires
            s > 0,
    ;
}

impl core::convert::TryFrom<u8> for Region {
    type Error = ();

    fn try_from(value: u8) -> (r: Result<Region, ()>) {
        match value {
            0x01 => Ok(Region::China900),
            0x02 => Ok(Region::Us),
            0x03 => Ok(Region::Europe),
            0x04 => Ok(Region::China800),
            0x06 => Ok(Region::Korea),
            _ => Err(()),
        }
    }
}

impl vstd::std_specs::convert::TryFromSpecImpl<u8> for Region {
    open spec fn obeys_try_from_spec() -> bool {
        true
    }

    open spec fn try_from_spec(v: u8) -> Result<Region, ()> {
        match Region::spec_from_code(v) {
            Some(r) => Ok(r),
            None => Err(()),
        }
    }
}

/// Sel field of the Query command: which tags respond.
#[derive(Debug, Clone, Copy, PartialEq, Eq, Structural, Default)]
pub enum QuerySel {
    /// All tags respond.
    #[default]
    All,
    /// Only tags with SL deasserted respond.
    NotSl,
    /// Only tags with SL asserted respond.
    Sl,
}

impl QuerySel {
    pub open spec fn spec_code(&self) -> u8 {
        match self {
            QuerySel::All => 0,
            QuerySel::NotSl => 2,
            QuerySel::Sl => 3,
        }
    }

    /// The field's code on the wire.
    #[verifier::when_used_as_spec(spec_code)]
    pub fn code(&self) -> (c: u8)
        ensures
            c == self.spec_code(),
    {
        match self {
            QuerySel::All => 0,
            QuerySel::NotSl => 2,
            QuerySel::Sl => 3,
        }
    }

    /// The field with two-bit code `c`; both 0 and 1 mean all tags.
    pub open spec fn spec_from_code(c: u8) -> QuerySel {
        if c == 2 {
            QuerySel::NotSl
        } else if c == 3 {
            QuerySel::Sl
        } else {
            QuerySel::All
        }
    }
}

/// Session of the Query command.
#[derive(Debug, Clone, Copy, PartialEq, Eq, Structural, Default)]
pub enum QuerySession {
    #[default]
    S0,
    S1,
    S2,
    S3,
}

impl QuerySession {
    pub open spec fn spec_code(&self) -> u8 {
        match self {
            QuerySession::S0 => 0,
            QuerySession::S1 => 1,
            QuerySession::S2 => 2,
            QuerySession::S3 => 3,
        }
    }

    /// The session's code on the wire.
    #[verifier::when_used_as_spec(spec_code)]
    pub fn code(&self) -> (c: u8)
        ensures
            c == self.spec_code(),
    {
        match self {
            QuerySession::S0 => 0,
            QuerySession::S1 => 1,
            QuerySession::S2 => 2,
            QuerySession::S3 => 3,
        }
    }

    /// The session with two-bit code `c`.
    pub open spec fn spec_from_code(c: u8) -> QuerySession {
        if c == 1 {
            QuerySession::S1
        } else if c == 2 {
            QuerySession::S2
        } else if c == 3 {
            QuerySession::S3
        } else {
            QuerySession::S0
        }
    }
}

/// Target flag of the Query command.
#[derive(Debug, Clone, Copy, PartialEq, Eq, Structural, Default)]
pub enum QueryTarget {
    #[default]
    A,
    B,
}

impl QueryTarget {
    pub open spec fn spec_code(&self) -> u8 {
        match self {
            QueryTarget::A => 0,
            QueryTarget::B => 1,
        }
    }

    /// The target's code on the wire.
    #[verifier::when_used_as_spec(spec_code)]
    pub fn code(&self) -> (c: u8)
        ensures
            c == self.spec_code(),
    {
        match self {
            QueryTarget::A => 0,
            QueryTarget::B => 1,
        }
    }
}

/// Query parameters used for tag inventory (EPC Gen2).
#[derive(Debug, Clone, Copy, PartialEq, Eq, Structural)]
pub struct QueryParams {
    /// Which tags respond to Query.
    pub sel: QuerySel,
    /// Session (S0 to S3).
    pub session: QuerySession,
    /// Target (A or B).
    pub target: QueryTarget,
    /// Q value (0 to 15), which sets the slot count.
    pub q: u8,
}

impl Default for QueryParams {
    fn default() -> (p: QueryParams)
        ensures
            p == (QueryParams {
                sel: QuerySel::All,
                session: QuerySession::S0,
                target: QueryTarget::A,
                q: 4,
            }),
    {
        QueryParams { sel: QuerySel::All, session: QuerySession::S0, target: QueryTarget::A, q: 4 }
    }
}

/// The two bytes of the Query parameters: byte 0 holds the fixed flag `0x10`
/// (DR = 8, M = 1, TRext on), Sel in bits 2-3 and Session in bits 0-1; byte 1
/// holds Target in bit 7 and Q in bits 3-6.
pub open spec fn query_bytes(p: QueryParams) -> Seq<u8> {
    seq![
        (0x10 + p.sel.spec_code() * 4 + p.session.spec_code()) as u8,
        (p.target.spec_code() * 128 + (p.q % 16) * 8) as u8,
    ]
}

/// The Query parameters that two bytes encode.
pub open spec fn query_of_bytes(b0: u8, b1: u8) -> QueryParams {
    QueryParams {
        sel: QuerySel::spec_from_code((b0 / 4) % 4),
        session: QuerySession::spec_from_code(b0 % 4),
        target: if (b1 / 128) % 2 == 0 {
            QueryTarget::A
        } else {
            QueryTarget::B
        },
        q: (b1 / 8) % 16,
    }
}

impl QueryParams {
    /// Encodes the parameters into their two protocol bytes; only the low
    /// four bits of `q` are sent.
    pub fn to_bytes(&self) -> (r: [u8; 2])
        ensures
            r@ == query_bytes(*self),
    {
        let b0 = 0x10 + self.sel.code() * 4 + self.session.code();
        let b1 = self.target.code() * 128 + (self.q % 16) * 8;
        let r = [b0, b1];
        proof {
            assert(r@ =~= query_bytes(*self));
        }
        r
    }

    /// Decodes parameters from their two protocol bytes.
    pub fn from_bytes(bytes: [u8; 2]) -> (p: QueryParams)
        ensures
            p == query_of_bytes(bytes[0], bytes[1]),
    {
        let b0 = bytes[0];
        let b1 = bytes[1];
        let s = (b0 / 4) % 4;
        let sel = if s == 2 {
            QuerySel::NotSl
        } else if s == 3 {
            QuerySel::Sl
        } else {
            QuerySel::All
        };
        let c = b0 % 4;
        let session = if c == 1 {
            QuerySession::S1
        } else if c == 2 {
            QuerySession::S2
        } else if c == 3 {
            QuerySession::S3
        } else {
            QuerySession::S0
        };
        let target = if (b1 / 128) % 2 == 0 {
            QueryTarget::A
        } else {
            QueryTarget::B
        };
        QueryParams { sel, session, target, q: (b1 / 8) % 16 }
    }
}

/// Decoding the encoding of Query parameters with `q` at most 15 gives them
/// back.
pub proof fn lemma_query_round_trip(p: QueryParams)
    requires
        p.q <= 15,
    ensures
        query_of_bytes(query_bytes(p)[0], query_bytes(p)[1]) == p,
{
    let s = p.sel.spec_code();
    let c = p.session.spec_code();
    let t = p.target.spec_code();
    let q = p.q;
    let b0 = query_bytes(p)[0];
    let b1 = query_bytes(p)[1];
    assert(b0 == 16 + s * 4 + c);
    assert(b1 == t * 128 + q * 8);
    assert((b0 / 4) % 4 == s && b0 % 4 == c) by (nonlinear_arith)
        requires
            b0 == 16 + s * 4 + c,
            s <= 3,
            c <= 3,
    ;
    assert((b1 / 128) % 2 == t && (b1 / 8) % 16 == q) by (nonlinear_arith)
        requires
            b1 == t * 128 + q * 8,
            t <= 1,
            q <= 15,
    ;
}

/// Lock action on a tag memory area.
#[derive(Debug, Clone, Copy, PartialEq, Eq, Structural)]
pub enum LockAction {
    /// Readable and writable without a password.
    Unlock,
    /// Password required.
    Lock,
    /// Permanently unlocked.
    PermUnlock,
    /// Permanently locked.
    PermLock,
}

impl LockAction {
    pub open spec fn spec_code(&self) -> u8 {
        match self {
            LockAction::Unlock => 0,
            LockAction::Lock => 1,
            LockAction::PermUnlock => 2,
            LockAction::PermLock => 3,
        }
    }

    /// The action's two action bits.
    #[verifier::when_used_as_spec(spec_code)]
    pub fn code(&self) -> (c: u8)
        ensures
            c == self.spec_code(),
    {
        match self {
            LockAction::Unlock => 0,
            LockAction::Lock => 1,
            LockAction::PermUnlock => 2,
            LockAction::PermLock => 3,
        }
    }

    /// The action with two-bit code `c`.
    pub open spec fn spec_from_code(c: u32) -> LockAction {
        if c == 0 {
            LockAction::Unlock
        } else if c == 1 {
            LockAction::Lock
        } else if c == 2 {
            LockAction::PermUnlock
        } else {
            LockAction::PermLock
        }
    }
}

/// Memory area that a lock applies to.
#[derive(Debug, Clone, Copy, PartialEq, Eq, Structural)]
pub enum LockTarget {
    /// User memory bank.
    User,
    /// TID memory bank.
    Tid,
    /// EPC memory bank.
    Epc,
    /// Access password.
    AccessPassword,
    /// Kill password.
    KillPassword,
}

impl LockTarget {
    /// The weight of the lowest bit of this area's two-bit zone: the zones
    /// start at bits 0 (User), 2 (TID), 4 (EPC), 6 (access password) and
    /// 8 (kill password).
    pub open spec fn spec_zone(&self) -> u32 {
        match self {
            LockTarget::User => 1,
            LockTarget::Tid => 4,
            LockTarget::Epc => 16,
            LockTarget::AccessPassword => 64,
            LockTarget::KillPassword => 256,
        }
    }

    #[verifier::when_used_as_spec(spec_zone)]
    fn zone(&self) -> (z: u32)
        ensures
            z == self.spec_zone(),
    {
        match self {
            LockTarget::User => 1,
            LockTarget::Tid => 4,
            LockTarget::Epc => 16,
            LockTarget::AccessPassword => 64,
            LockTarget::KillPassword => 256,
        }
    }
}

/// Which memory area to lock, and how.
#[derive(Debug, Clone)]
pub struct LockPayload {
    /// The memory area the action applies to.
    pub target: LockTarget,
    /// The lock action.
    pub action: LockAction,
}

/// The 20-bit lock field: a 10-bit mask over the high bits with ones in the
/// addressed zone only, and a 10-bit action field over the low bits with the
/// action's code in that zone.
pub open spec fn lock_field(target: LockTarget, action: LockAction) -> u32 {
    (3 * target.spec_zone() * 1024 + action.spec_code() * target.spec_zone()) as u32
}

/// The three bytes of the lock field, most significant first.
pub open spec fn lock_bytes(target: LockTarget, action: LockAction) -> Seq<u8> {
    let f = lock_field(target, action);
    seq![(f / 0x10000) as u8, ((f / 0x100) % 256) as u8, (f % 256) as u8]
}

/// The area whose mask bits alone are set in a 10-bit mask, if any.
pub open spec fn lock_target_of_mask(mask: u32) -> Option<LockTarget> {
    if mask == 3 {
        Some(LockTarget::User)
    } else if mask == 12 {
        Some(LockTarget::Tid)
    } else if mask == 48 {
        Some(LockTarget::Epc)
    } else if mask == 192 {
        Some(LockTarget::AccessPassword)
    } else if mask == 768 {
        Some(LockTarget::KillPassword)
    } else {
        None
    }
}

/// What three lock bytes decode to: `None` unless the mask addresses exactly
/// one area and no action bit lies outside that area's zone.
pub open spec fn lock_of_bytes(b: Seq<u8>) -> Option<(LockTarget, LockAction)> {
    let f = b[0] * 0x10000 + b[1] * 0x100 + b[2];
    let mask = (f / 1024) as u32;
    let act = (f % 1024) as u32;
    match lock_target_of_mask(mask) {
        None => None,
        Some(t) => if act % t.spec_zone() == 0 && act / t.spec_zone() <= 3 {
            Some((t, LockAction::spec_from_code(act / t.spec_zone())))
        } else {
            None
        },
    }
}

impl LockPayload {
    /// Encodes the payload into the three bytes of the lock field; no bit
    /// outside the addressed area's zone is set.
    pub fn to_bytes(&self) -> (r: [u8; 3])
        ensures
            r@ == lock_bytes(self.target, self.action),
    {
        let z = self.target.zone();
        let f: u32 = 3 * z * 1024 + (self.action.code() as u32) * z;
        let r = [(f / 0x10000) as u8, ((f / 0x100) % 256) as u8, (f % 256) as u8];
        proof {
            assert(r@ =~= lock_bytes(self.target, self.action));
        }
        r
    }

    /// Decodes the three bytes of a lock field; `None` unless they address
    /// exactly one area with an action inside its zone.
    pub fn from_bytes(b: [u8; 3]) -> (r: Option<LockPayload>)
        ensures
            match lock_of_bytes(b@) {
                None => r is None,
                Some((t, a)) => r is Some && r->0.target == t && r->0.action == a,
            },
    {
        let f: u32 = (b[0] as u32) * 0x10000 + (b[1] as u32) * 0x100 + (b[2] as u32);
        let mask = f / 1024;
        let act = f % 1024;
        let target = if mask == 3 {
            LockTarget::User
        } else if mask == 12 {
            LockTarget::Tid
        } else if mask == 48 {
            LockTarget::Epc
        } else if mask == 192 {
            LockTarget::AccessPassword
        } else if mask == 768 {
            LockTarget::KillPassword
        } else {
            return None;
        };
        let z = target.zone();
        if act % z != 0 || act / z > 3 {
            return None;
        }
        let c = act / z;
        let action = if c == 0 {
            LockAction::Unlock
        } else if c == 1 {
            LockAction::Lock
        } else if c == 2 {
            LockAction::PermUnlock
        } else {
            LockAction::PermLock
        };
        Some(LockPayload { target, action })
    }
}

/// Decoding the encoding of a lock payload gives it back.
pub proof fn lemma_lock_round_trip(target: LockTarget, action: LockAction)
    ensures
        lock_of_bytes(lock_bytes(target, action)) == Some((target, action)),
{
    let z = target.spec_zone() as int;
    let a = action.spec_code() as int;
    let f = lock_field(target, action) as int;
    assert(f == 3 * z * 1024 + a * z);
    assert(0 <= a * z <= 768) by (nonlinear_arith)
        requires
            0 <= a <= 3,
            0 <= z <= 256,
    ;
    assert(f / 1024 == 3 * z && f % 1024 == a * z) by (nonlinear_arith)
        requires
            f == 3 * z * 1024 + a * z,
            0 <= a * z <= 768,
    ;
    let h = f / 0x10000;
    let m = (f / 0x100) % 256;
    let l = f % 256;
    assert(h * 0x10000 + m * 0x100 + l == f && 0 <= h < 256) by (nonlinear_arith)
        requires
            h == f / 0x10000,
            m == (f / 0x100) % 256,
            l == f % 256,
            0 <= f < 0x100000,
    ;
    let b = lock_bytes(target, action);
    assert(b[0] == h && b[1] == m && b[2] == l);
    assert((a * z) % z == 0 && (a * z) / z == a) by (nonlinear_arith)
        requires
            z > 0,
    ;
}

/// RF link profile: modulation and link frequency.
#[derive(Debug, Clone, Copy, PartialEq, Eq, Structural)]
pub enum RfLinkProfile {
    /// FM0, 40 kHz link frequency.
    Fm0_40kHz,
    /// FM0, 400 kHz link frequency.
    Fm0_400kHz,
    /// Miller 4, 250 kHz link frequency.
    Miller4_250kHz,
    /// Miller 4, 300 kHz link frequency.
    Miller4_300kHz,
    /// Miller 2, 40 kHz link frequency (dense reader mode).
    Miller2_40kHzDrm,
}

impl RfLinkProfile {
    pub open spec fn spec_code(&self) -> u8 {
        match self {
            RfLinkProfile::Fm0_40kHz => 0xD0,
            RfLinkProfile::Fm0_400kHz => 0xD1,
            RfLinkProfile::Miller4_250kHz => 0xD2,
            RfLinkProfile::Miller4_300kHz => 0xD3,
            RfLinkProfile::Miller2_40kHzDrm => 0xD4,
        }
    }

    /// The profile's code on the wire.
    #[verifier::when_used_as_spec(spec_code)]
    pub fn code(&self) -> (c: u8)
        ensures
            c == self.spec_code(),
    {
        match self {
            RfLinkProfile::Fm0_40kHz => 0xD0,
            RfLinkProfile::Fm0_400kHz => 0xD1,
            RfLinkProfile::Miller4_250kHz => 0xD2,
            RfLinkProfile::Miller4_300kHz => 0xD3,
            RfLinkProfile::Miller2_40kHzDrm => 0xD4,
        }
    }

    /// The profile with code `c`, if any.
    pub open spec fn spec_from_code(c: u8) -> Option<RfLinkProfile> {
        if c == 0xD0 {
            Some(RfLinkProfile::Fm0_40kHz)
        } else if c == 0xD1 {
            Some(RfLinkProfile::Fm0_400kHz)
        } else if c == 0xD2 {
            Some(RfLinkProfile::Miller4_250kHz)
        } else if c == 0xD3 {
            Some(RfLinkProfile::Miller4_300kHz)
        } else if c == 0xD4 {
            Some(RfLinkProfile::Miller2_40kHzDrm)
        } else {
            None
        }
    }
}

impl core::convert::TryFrom<u8> for RfLinkProfile {
    type Error = ();

    fn try_from(value: u8) -> (r: Result<RfLinkProfile, ()>) {
        match value {
            0xD0 => Ok(RfLinkProfile::Fm0_40kHz),
            0xD1 => Ok(RfLinkProfile::Fm0_400kHz),
            0xD2 => Ok(RfLinkProfile::Miller4_250kHz),
            0xD3 => Ok(RfLinkProfile::Miller4_300kHz),
            0xD4 => Ok(RfLinkProfile::Miller2_40kHzDrm),
            _ => Err(()),
        }
    }
}

impl vstd::std_specs::convert::TryFromSpecImpl<u8> for RfLinkProfile {
    open spec fn obeys_try_from_spec() -> bool {
        true
    }

    open spec fn try_from_spec(v: u8) -> Result<RfLinkProfile, ()> {
        match RfLinkProfile::spec_from_code(v) {
            Some(p) => Ok(p),
            None => Err(()),
        }
    }
}

/// QT control settings of Impinj Monza tags.
#[derive(Debug, Clone, Copy, PartialEq, Eq, Structural)]
pub struct QtControl {
    /// Short-range mode: reduced backscatter strength.
    pub short_range: bool,
    /// Persistence: `false` temporary, `true` permanent.
    pub persistence: bool,
}

/// The QT control byte: bit 0 short range, bit 1 persistence.
pub open spec fn qt_byte(q: QtControl) -> u8 {
    ((if q.short_range {
        1u8
    } else {
        0u8
    }) + (if q.persistence {
        2u8
    } else {
        0u8
    })) as u8
}

/// The QT settings that a protocol byte holds.
pub open spec fn qt_of_byte(b: u8) -> QtControl {
    QtControl { short_range: b % 2 == 1, persistence: (b / 2) % 2 == 1 }
}

/// Decoding the encoding of QT settings gives them back.
pub proof fn lemma_qt_round_trip(q: QtControl)
    ensures
        qt_of_byte(qt_byte(q)) == q,
{
}

impl QtControl {
    /// Encodes the settings into their protocol byte.
    pub fn to_byte(&self) -> (b: u8)
        ensures
            b == qt_byte(*self),
    {
        let mut b: u8 = 0;
        if self.short_range {
            b = b + 1;
        }
        if self.persistence {
            b = b + 2;
        }
        b
    }

    /// Decodes the settings from a protocol byte; bits above bit 1 are
    /// ignored.
    pub fn from_byte(b: u8) -> (q: QtControl)
        ensures
            q == qt_of_byte(b),
    {
        QtControl { short_range: b % 2 == 1, persistence: (b / 2) % 2 == 1 }
    }
}

} // verus!
