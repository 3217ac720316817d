use vstd::bytes::{spec_u32_from_le_bytes, spec_u32_to_le_bytes, u32_from_le_bytes, u32_to_le_bytes, lemma_auto_spec_u32_to_from_le_bytes};
use vstd::prelude::*;
use vstd::slice::slice_subrange;
use vstd::utf8::encode_utf8;

verus! {

/// The kind of a packet, carried on the wire as a 32-bit tag.
#[derive(Clone, Copy, Debug, PartialEq, Eq, Structural)]
pub enum PacketType {
    Login,
    Command,
    MultiPacketResponse,
}

/// The wire tag of each packet type.
pub open spec fn tag_of(t: PacketType) -> i32 {
    match t {
        PacketType::Login => 3,
        PacketType::Command => 2,
        PacketType::MultiPacketResponse => 0,
    }
}

/// The packet type that a wire tag denotes, if any.
pub open spec fn type_of_tag(tag: i32) -> Option<PacketType> {
    if tag == 3 {
        Some(PacketType::Login)
    } else if tag == 2 {
        Some(PacketType::Command)
    } else if tag == 0 {
        Some(PacketType::MultiPacketResponse)
    } else {
        None
    }
}

impl PacketType {
    /// The wire tag of this type.
    pub fn tag(self) -> (r: i32)
        ensures
            r == tag_of(self),
    {
        match self {
            PacketType::Login => 3,
            PacketType::Command => 2,
            PacketType::MultiPacketResponse => 0,
        }
    }

    /// Reads a wire tag; `None` for a tag outside the known set.
    pub fn from_tag(tag: i32) -> (r: Option<PacketType>)
        ensures
            r == type_of_tag(tag),
    {
        if tag == 3 {
            Some(PacketType::Login)
        } else if tag == 2 {
            Some(PacketType::Command)
        } else if tag == 0 {
            Some(PacketType::MultiPacketResponse)
        } else {
            None
        }
    }
}


/// Number of bytes of the length field that opens every frame.
pub const LENGTH_FIELD: usize = 4;

/// Bytes that the length field counts besides the payload: the request id,
/// the type tag and the terminator.
pub const FRAME_OVERHEAD: usize = 9;

/// Largest payload whose frame length still fits the signed 32-bit length field.
pub const MAX_PAYLOAD: usize = 2147483638;

/// Why a byte stream could not be read as a frame.
#[derive(Clone, Copy, Debug, PartialEq, Eq, Structural)]
pub enum FramingError {
    /// The stream ends before the declared frame does.
    TruncatedFrame,
    /// The declared length leaves no room for the header and the terminator.
    InvalidLength,
    /// The type tag is not one of the known packet types.
    UnknownPacketType,
    /// No terminator byte lies within the declared frame.
    MissingTerminator,
}

/// One packet of the protocol.
#[derive(Clone, Debug, PartialEq, Eq)]
pub struct Packet {
    pub request_id: i32,
    pub packet_type: PacketType,
    pub payload: Vec<u8>,
}

/// The mathematical value of a packet.
pub struct PacketModel {
    pub request_id: i32,
    pub packet_type: PacketType,
    pub payload: Seq<u8>,
}

impl View for Packet {
    type V = PacketModel;

    open spec fn view(&self) -> PacketModel {
        PacketModel {
            request_id: self.request_id,
            packet_type: self.packet_type,
            payload: self.payload@,
        }
    }
}

/// The four little-endian bytes of a signed 32-bit value.
pub open spec fn le_i32(v: i32) -> Seq<u8> {
    spec_u32_to_le_bytes(v as u32)
}

/// The signed 32-bit value of four little-endian bytes.
pub open spec fn i32_of_le(b: Seq<u8>) -> i32 {
    spec_u32_from_le_bytes(b) as i32
}

/// No byte of `s` is the terminator.
pub open spec fn no_zero(s: Seq<u8>) -> bool {
    forall|i: int| 0 <= i < s.len() ==> s[i] != 0
}

/// `k` is the position of the first terminator in `s`.
pub open spec fn is_first_zero(s: Seq<u8>, k: int) -> bool {
    0 <= k < s.len() && s[k] == 0 && no_zero(s.subrange(0, k))
}

/// A payload can be framed: no embedded terminator, and the frame length fits.
pub open spec fn valid_payload(payload: Seq<u8>) -> bool {
    no_zero(payload) && payload.len() <= MAX_PAYLOAD
}

/// The value that the length field of a frame carries for this payload.
pub open spec fn frame_length(payload: Seq<u8>) -> int {
    8 + payload.len() as int + 1
}

/// The frame of a packet: length, request id, type tag, payload, terminator.
pub open spec fn encoding(p: PacketModel) -> Seq<u8> {
    le_i32(frame_length(p.payload) as i32) + le_i32(p.request_id) + le_i32(tag_of(p.packet_type))
        + p.payload + seq![0u8]
}

/// The length that the first four bytes of a stream declare.
pub open spec fn declared_length(s: Seq<u8>) -> int {
    i32_of_le(s.subrange(0, 4)) as int
}

/// The part of a complete frame after the type tag, up to the declared end.
pub open spec fn frame_body(s: Seq<u8>) -> Seq<u8> {
    s.subrange(12, 4 + declared_length(s))
}

/// What reading one frame from the start of `s` gives: the packet and the
/// number of bytes it took, or why it failed.
pub open spec fn decoded(s: Seq<u8>) -> Result<(PacketModel, int), FramingError> {
    if s.len() < 4 || declared_length(s) > s.len() - 4 {
        Err(FramingError::TruncatedFrame)
    } else if declared_length(s) < 9 {
        Err(FramingError::InvalidLength)
    } else {
        match type_of_tag(i32_of_le(s.subrange(8, 12))) {
            None => Err(FramingError::UnknownPacketType),
            Some(t) => {
                let body = frame_body(s);
                if exists|k: int| is_first_zero(body, k) {
                    let k = choose|k: int| is_first_zero(body, k);
                    Ok(
                        (
                            PacketModel {
                                request_id: i32_of_le(s.subrange(4, 8)),
                                packet_type: t,
                                payload: body.subrange(0, k),
                            },
                            4 + declared_length(s),
                        ),
                    )
                } else {
                    Err(FramingError::MissingTerminator)
                }
            },
        }
    }
}

proof fn lemma_i32_le_round_trip(v: i32)
    ensures
        le_i32(v).len() == 4,
        i32_of_le(le_i32(v)) == v,
{
    lemma_auto_spec_u32_to_from_le_bytes();
    assert(spec_u32_to_le_bytes(v as u32).len() == 4);
    assert(((v as u32) as i32) == v) by (bit_vector);
}

proof fn lemma_first_zero_unique(s: Seq<u8>, k1: int, k2: int)
    requires
        is_first_zero(s, k1),
        is_first_zero(s, k2),
    ensures
        k1 == k2,
{
    if k1 < k2 {
        assert(s.subrange(0, k2)[k1] == s[k1]);
    } else if k2 < k1 {
        assert(s.subrange(0, k1)[k2] == s[k2]);
    }
}

/// The length field of every frame is the payload length plus eight header
/// bytes plus the terminator.
pub proof fn lemma_length_field(p: PacketModel)
    requires
        valid_payload(p.payload),
    ensures
        encoding(p).len() == 4 + frame_length(p.payload),
        declared_length(encoding(p)) == 8 + p.payload.len() + 1,
{
    lemma_i32_le_round_trip(frame_length(p.payload) as i32);
    lemma_i32_le_round_trip(p.request_id);
    lemma_i32_le_round_trip(tag_of(p.packet_type));
    assert(encoding(p).subrange(0, 4) =~= le_i32(frame_length(p.payload) as i32));
}

/// Reading the frame of a packet whose payload has no terminator gives the
/// packet back, and takes exactly the frame: whatever follows it is not read.
pub proof fn lemma_round_trip(p: PacketModel, rest: Seq<u8>)
    requires
        valid_payload(p.payload),
    ensures
        decoded(encoding(p) + rest) == Ok::<(PacketModel, int), FramingError>(
            (p, encoding(p).len() as int),
        ),
{
    let e = encoding(p);
    let s = e + rest;
    let n = p.payload.len() as int;
    lemma_length_field(p);
    let a = le_i32(frame_length(p.payload) as i32);
    let b = le_i32(p.request_id);
    let c = le_i32(tag_of(p.packet_type));
    lemma_i32_le_round_trip(frame_length(p.payload) as i32);
    lemma_i32_le_round_trip(p.request_id);
    lemma_i32_le_round_trip(tag_of(p.packet_type));
    assert(s.subrange(0, 4) =~= e.subrange(0, 4));
    assert(s.subrange(0, 12) =~= a + b + c);
    assert((a + b + c).subrange(4, 8) =~= b);
    assert((a + b + c).subrange(8, 12) =~= c);
    assert(s.subrange(4, 8) =~= s.subrange(0, 12).subrange(4, 8));
    assert(s.subrange(8, 12) =~= s.subrange(0, 12).subrange(8, 12));
    assert(s.subrange(4, 8) =~= le_i32(p.request_id));
    assert(s.subrange(8, 12) =~= le_i32(tag_of(p.packet_type)));
    let body = frame_body(s);
    assert(body =~= p.payload + seq![0u8]);
    assert(body.subrange(0, n) =~= p.payload);
    assert(is_first_zero(body, n));
    let k = choose|k: int| is_first_zero(body, k);
    lemma_first_zero_unique(body, k, n);
    assert(decoded(s) == Ok::<(PacketModel, int), FramingError>((p, e.len() as int)));
}

/// A stream that ends before the frame it declares fails as truncated.
pub proof fn lemma_truncated(s: Seq<u8>)
    requires
        s.len() < 4 || declared_length(s) > s.len() - 4,
    ensures
        decoded(s) == Err::<(PacketModel, int), FramingError>(FramingError::TruncatedFrame),
{
}

/// A complete frame whose type tag is not 0, 2 or 3 fails as of unknown type.
pub proof fn lemma_unknown_type(s: Seq<u8>)
    requires
        s.len() >= 4,
        9 <= declared_length(s) <= s.len() - 4,
        i32_of_le(s.subrange(8, 12)) != 0,
        i32_of_le(s.subrange(8, 12)) != 2,
        i32_of_le(s.subrange(8, 12)) != 3,
    ensures
        decoded(s) == Err::<(PacketModel, int), FramingError>(FramingError::UnknownPacketType),
{
}

impl Packet {
    /// A packet of the given id, type and payload.
    pub fn new(request_id: i32, packet_type: PacketType, payload: Vec<u8>) -> (r: Packet)
        ensures
            r.request_id == request_id,
            r.packet_type == packet_type,
            r.payload@ == payload@,
    {
        Packet { request_id, packet_type, payload }
    }

    /// A login packet that carries the password's UTF-8 bytes.
    pub fn login(request_id: i32, password: String) -> (r: Packet)
        ensures
            r.request_id == request_id,
            r.packet_type == PacketType::Login,
            r.payload@ == encode_utf8(password@),
    {
        Self::new(request_id, PacketType::Login, utf8_bytes(&password))
    }

    /// A command packet that carries the command's UTF-8 bytes.
    pub fn command(request_id: i32, command: String) -> (r: Packet)
        ensures
            r.request_id == request_id,
            r.packet_type == PacketType::Command,
            r.payload@ == encode_utf8(command@),
    {
        Self::new(request_id, PacketType::Command, utf8_bytes(&command))
    }

    /// The frame of this packet.
    pub fn encode(&self) -> (r: Vec<u8>)
        requires
            self.payload@.len() <= MAX_PAYLOAD,
        ensures
            r@ == encoding(self@),
    {
        let length: i32 = (self.payload.len() + FRAME_OVERHEAD) as i32;
        let mut out = u32_to_le_bytes(length as u32);
        let mut id = u32_to_le_bytes(self.request_id as u32);
        out.append(&mut id);
        let mut tag = u32_to_le_bytes(self.packet_type.tag() as u32);
        out.append(&mut tag);
        let ghost head = out@;
        let mut i: usize = 0;
        while i < self.payload.len()
            invariant
                i <= self.payload@.len(),
                out@ == head + self.payload@.subrange(0, i as int),
            decreases self.payload@.len() - i,
        {
            out.push(self.payload[i]);
            i += 1;
            assert(self.payload@.subrange(0, i as int) =~= self.payload@.subrange(0, i - 1)
                + seq![self.payload@[i - 1]]);
        }
        out.push(0u8);
        assert(self.payload@.subrange(0, i as int) =~= self.payload@);
        assert(out@ =~= encoding(self@));
        out
    }
}

/// The UTF-8 bytes of a string.
fn utf8_bytes(s: &String) -> (r: Vec<u8>)
    ensures
        r@ == encode_utf8(s@),
{
    vstd::slice::slice_to_vec(s.as_str().as_bytes())
}

/// Reads one frame from the start of `stream`: the packet and the number of
/// bytes of the frame. Nothing past the declared length is looked at.
pub fn decode(stream: &[u8]) -> (r: Result<(Packet, usize), FramingError>)
    ensures
        match r {
            Ok((p, n)) => decoded(stream@) == Ok::<(PacketModel, int), FramingError>((p@, n as int)),
            Err(e) => decoded(stream@) == Err::<(PacketModel, int), FramingError>(e),
        },
{
    let avail = stream.len();
    if avail < LENGTH_FIELD {
        return Err(FramingError::TruncatedFrame);
    }
    let length = #[verifier::truncate] (u32_from_le_bytes(slice_subrange(stream, 0, 4)) as i32);
    assert(length == declared_length(stream@));
    if length >= 0 && length as usize > avail - LENGTH_FIELD {
        return Err(FramingError::TruncatedFrame);
    }
    if length < FRAME_OVERHEAD as i32 {
        return Err(FramingError::InvalidLength);
    }
    let request_id = #[verifier::truncate] (u32_from_le_bytes(slice_subrange(stream, 4, 8)) as i32);
    let tag = #[verifier::truncate] (u32_from_le_bytes(slice_subrange(stream, 8, 12)) as i32);
    let packet_type = match PacketType::from_tag(tag) {
        Some(t) => t,
        None => {
            return Err(FramingError::UnknownPacketType);
        },
    };
    let end = LENGTH_FIELD + length as usize;
    let ghost body = frame_body(stream@);
    let mut payload: Vec<u8> = Vec::new();
    let mut i: usize = 12;
    while i < end && stream[i] != 0
        invariant
            12 <= i <= end,
            end == 4 + declared_length(stream@),
            end <= stream@.len(),
            body == stream@.subrange(12, end as int),
            payload@ == body.subrange(0, i - 12),
            no_zero(payload@),
        decreases end - i,
    {
        payload.push(stream[i]);
        i += 1;
        assert(body.subrange(0, i - 12) =~= body.subrange(0, i - 13) + seq![body[i - 13]]);
    }
    if i == end {
        assert forall|k: int| !is_first_zero(body, k) by {
            if is_first_zero(body, k) {
                assert(payload@[k] == body[k]);
            }
        }
        return Err(FramingError::MissingTerminator);
    }
    let ghost k = i - 12;
    assert(is_first_zero(body, k));
    proof {
        let c = choose|c: int| is_first_zero(body, c);
        lemma_first_zero_unique(body, c, k);
    }
    Ok((Packet { request_id, packet_type, payload }, end))
}

} // verus!
