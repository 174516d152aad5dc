//! Wire format of one datagram.
//!
//! ```text
//! byte 0     status: bit 0 clear for a header, set for data;
//!            status % 4 == 3 marks the last data chunk of a file
//! byte 1     file id
//! header:    bytes 2..1026 hold the file name, padded with zero bytes
//! data:      bytes 2..4 hold the big-endian sequence number,
//!            bytes 4..1028 hold the chunk
//! ```
//!
//! A datagram shorter than its fixed layout is read as if it were padded
//! with zero bytes up to the full 1028 bytes.

use vstd::prelude::*;

verus! {

/// Size of the fixed payload block of a header or a data packet.
pub const BLOCK_SIZE: usize = 1024;

/// Fewest bytes a datagram can have: the status byte and the file id.
pub const MIN_DATAGRAM: usize = 2;

/// Most bytes a datagram can have: status, file id and a data packet's
/// sequence number followed by one block.
pub const MAX_DATAGRAM: usize = 1028;

/// Status value, modulo `LAST_CHUNK_MODULUS`, of a data packet that carries
/// the last chunk of its file.
pub const LAST_CHUNK_STATUS: u8 = 3;

/// Modulus under which the status byte is compared to `LAST_CHUNK_STATUS`.
pub const LAST_CHUNK_MODULUS: u8 = 4;

#[derive(Debug)]
pub enum PacketType {
    HeaderPacket(Header),
    DataPacket(Data),
}

#[derive(Debug)]
pub enum PacketError {
    EmptyPacket(String),
    PacketOverflow(String),
}

#[derive(Debug)]
pub struct Header {
    pub file_name: [u8; 1024],
}

#[derive(Debug)]
pub struct Data {
    packet_number: u16,
    last_packet: bool,
    data: [u8; 1024],
}

#[derive(Debug)]
pub struct Packet {
    file_id: u8,
    packet_type: PacketType,
}

/// What a packet carries, as mathematical values.
pub enum PacketKind {
    /// The zero-padded file name block.
    Header(Seq<u8>),
    /// Sequence number, last-chunk flag and chunk block.
    Data(u16, bool, Seq<u8>),
}

pub struct DataView {
    pub sequence: u16,
    pub last: bool,
    pub block: Seq<u8>,
}

pub struct PacketView {
    pub file_id: u8,
    pub kind: PacketKind,
}

impl PacketKind {
    /// Every block has the fixed block size.
    pub open spec fn wf(self) -> bool {
        match self {
            PacketKind::Header(b) => b.len() == BLOCK_SIZE,
            PacketKind::Data(_, _, b) => b.len() == BLOCK_SIZE,
        }
    }
}

impl View for Data {
    type V = DataView;

    closed spec fn view(&self) -> DataView {
        DataView { sequence: self.packet_number, last: self.last_packet, block: self.data@ }
    }
}

impl View for PacketType {
    type V = PacketKind;

    open spec fn view(&self) -> PacketKind {
        match self {
            PacketType::HeaderPacket(h) => PacketKind::Header(h.file_name@),
            PacketType::DataPacket(d) => PacketKind::Data(d@.sequence, d@.last, d@.block),
        }
    }
}

impl View for Packet {
    type V = PacketView;

    closed spec fn view(&self) -> PacketView {
        PacketView { file_id: self.file_id, kind: self.packet_type@ }
    }
}

/// Byte `i` of a datagram read as zero-padded.
pub open spec fn byte_at(bytes: Seq<u8>, i: int) -> u8 {
    if 0 <= i < bytes.len() {
        bytes[i]
    } else {
        0
    }
}

/// The block of `BLOCK_SIZE` bytes that starts at `start`, zero-padded.
pub open spec fn block_from(bytes: Seq<u8>, start: int) -> Seq<u8> {
    Seq::new(BLOCK_SIZE as nat, |j: int| byte_at(bytes, start + j))
}

pub open spec fn is_header_status(status: u8) -> bool {
    status % 2 == 0
}

pub open spec fn is_last_status(status: u8) -> bool {
    status % LAST_CHUNK_MODULUS == LAST_CHUNK_STATUS
}

/// Big-endian sequence number in bytes 2 and 3.
pub open spec fn sequence_at(bytes: Seq<u8>) -> u16 {
    (byte_at(bytes, 2) as int * 256 + byte_at(bytes, 3) as int) as u16
}

/// The packet that a datagram of at least `MIN_DATAGRAM` bytes encodes.
pub open spec fn decode_view(bytes: Seq<u8>) -> PacketView {
    PacketView {
        file_id: bytes[1],
        kind: if is_header_status(bytes[0]) {
            PacketKind::Header(block_from(bytes, 2))
        } else {
            PacketKind::Data(sequence_at(bytes), is_last_status(bytes[0]), block_from(bytes, 4))
        },
    }
}

/// The datagram that encodes a packet: a header with status 0, a data
/// packet with status 1, or `LAST_CHUNK_STATUS` when it is the last chunk.
pub open spec fn encode_view(p: PacketView) -> Seq<u8> {
    match p.kind {
        PacketKind::Header(b) => seq![0u8, p.file_id] + b,
        PacketKind::Data(n, last, b) => seq![
            if last { LAST_CHUNK_STATUS } else { 1u8 },
            p.file_id,
            (n / 256) as u8,
            (n % 256) as u8,
        ] + b,
    }
}

/// A name block with its trailing zero bytes removed.
pub open spec fn trim_zeros(s: Seq<u8>) -> Seq<u8>
    decreases s.len(),
{
    if s.len() > 0 && s.last() == 0 {
        trim_zeros(s.drop_last())
    } else {
        s
    }
}

/// The name block that holds `name` followed by zero bytes.
pub open spec fn pad_name(name: Seq<u8>) -> Seq<u8> {
    Seq::new(BLOCK_SIZE as nat, |j: int| byte_at(name, j))
}

/// Decoding the encoding of any packet gives the packet back, and the
/// encoding is a datagram of acceptable size.
pub proof fn lemma_decode_encode(p: PacketView)
    requires
        p.kind.wf(),
    ensures
        MIN_DATAGRAM <= encode_view(p).len() <= MAX_DATAGRAM,
        decode_view(encode_view(p)) == p,
{
    let e = encode_view(p);
    match p.kind {
        PacketKind::Header(b) => {
            assert(block_from(e, 2) =~= b);
        },
        PacketKind::Data(n, last, b) => {
            assert(block_from(e, 4) =~= b);
            assert(e[0] % 4 == 3 <==> last) by {
                if last {
                    assert(e[0] == 3);
                } else {
                    assert(e[0] == 1);
                }
            }
            assert(sequence_at(e) == n);
        },
    }
}

/// A name of at most `BLOCK_SIZE` bytes that does not end in a zero byte
/// comes back unchanged from its padded name block.
pub proof fn lemma_name_round_trip(name: Seq<u8>)
    requires
        name.len() <= BLOCK_SIZE,
        name.len() == 0 || name.last() != 0,
    ensures
        trim_zeros(pad_name(name)) == name,
{
    lemma_trim_zero_tail(pad_name(name), name.len() as int);
    assert(pad_name(name).subrange(0, name.len() as int) =~= name);
}

/// Trimming ignores a tail made of zero bytes.
proof fn lemma_trim_zero_tail(s: Seq<u8>, k: int)
    requires
        0 <= k <= s.len(),
        forall|j: int| k <= j < s.len() ==> s[j] == 0,
    ensures
        trim_zeros(s) == trim_zeros(s.subrange(0, k)),
    decreases s.len() - k,
{
    if k < s.len() {
        assert(s.drop_last() =~= s.subrange(0, s.len() - 1));
        lemma_trim_zero_tail(s.drop_last(), k);
        assert(s.drop_last().subrange(0, k) =~= s.subrange(0, k));
    } else {
        assert(s.subrange(0, k) =~= s);
    }
}

/// Copies the zero-padded block of `bytes` that starts at `start`.
fn read_block(bytes: &[u8], start: usize) -> (r: [u8; 1024])
    requires
        start <= MAX_DATAGRAM,
    ensures
        r@ == block_from(bytes@, start as int),
{
    let mut block = [0u8; 1024];
    let mut j: usize = 0;
    while j < BLOCK_SIZE
        invariant
            start <= MAX_DATAGRAM,
            j <= BLOCK_SIZE,
            block@.len() == BLOCK_SIZE,
            forall|i: int| 0 <= i < j ==> block@[i] == byte_at(bytes@, start + i),
        decreases BLOCK_SIZE - j,
    {
        let v: u8 = if start + j < bytes.len() {
            bytes[start + j]
        } else {
            0
        };
        block[j] = v;
        j = j + 1;
    }
    assert(block@ =~= block_from(bytes@, start as int));
    block
}

impl Data {
    pub fn get_data(&self) -> (r: &[u8; 1024])
        ensures
            r@ == self@.block,
    {
        &self.data
    }

    pub fn packet_num(&self) -> (r: u16)
        ensures
            r == self@.sequence,
    {
        self.packet_number
    }

    pub fn is_last(&self) -> (r: bool)
        ensures
            r == self@.last,
    {
        self.last_packet
    }
}

impl Header {
    /// The file name: the name block without its trailing zero bytes.
    pub fn name_bytes(&self) -> (r: Vec<u8>)
        ensures
            r@ == trim_zeros(self.file_name@),
    {
        let mut end: usize = BLOCK_SIZE;
        assert(self.file_name@.subrange(0, BLOCK_SIZE as int) =~= self.file_name@);
        while end > 0 && self.file_name[end - 1] == 0
            invariant
                end <= BLOCK_SIZE,
                self.file_name@.len() == BLOCK_SIZE,
                trim_zeros(self.file_name@) == trim_zeros(self.file_name@.subrange(0, end as int)),
            decreases end,
        {
            proof {
                let s = self.file_name@.subrange(0, end as int);
                assert(s.drop_last() =~= self.file_name@.subrange(0, end - 1));
            }
            end = end - 1;
        }
        let mut name: Vec<u8> = Vec::new();
        let mut j: usize = 0;
        while j < end
            invariant
                j <= end <= BLOCK_SIZE,
                self.file_name@.len() == BLOCK_SIZE,
                name@ == self.file_name@.subrange(0, j as int),
            decreases end - j,
        {
            name.push(self.file_name[j]);
            j = j + 1;
            assert(name@ =~= self.file_name@.subrange(0, j as int));
        }
        assert(trim_zeros(self.file_name@.subrange(0, end as int)) == self.file_name@.subrange(
            0,
            end as int,
        ));
        name
    }
}

impl Packet {
    pub fn file_id(&self) -> (r: u8)
        ensures
            r == self@.file_id,
    {
        self.file_id
    }

    pub fn set_file_id(&mut self, new: u8)
        ensures
            final(self)@ == (PacketView { file_id: new, kind: old(self)@.kind }),
    {
        self.file_id = new;
    }

    pub fn is_header(&self) -> (r: bool)
        ensures
            r == (self@.kind is Header),
    {
        match self.packet_type {
            PacketType::HeaderPacket(_) => true,
            PacketType::DataPacket(_) => false,
        }
    }

    pub fn get_contents(self) -> (r: PacketType)
        ensures
            r@ == self@.kind,
    {
        self.packet_type
    }

    /// Parses one datagram.
    pub fn decode(bytes: &[u8]) -> (r: Result<Packet, PacketError>)
        ensures
            match r {
                Ok(p) => MIN_DATAGRAM <= bytes@.len() <= MAX_DATAGRAM && p@ == decode_view(bytes@),
                Err(PacketError::EmptyPacket(_)) => bytes@.len() < MIN_DATAGRAM,
                Err(PacketError::PacketOverflow(_)) => bytes@.len() > MAX_DATAGRAM,
            },
    {
        if bytes.len() < MIN_DATAGRAM {
            return Err(PacketError::EmptyPacket("Missing required bytes in packet.".to_string()));
        }
        if bytes.len() > MAX_DATAGRAM {
            return Err(
                PacketError::PacketOverflow(
                    "Too many bytes in packet, must be at most 1028 bytes.".to_string(),
                ),
            );
        }
        let status: u8 = bytes[0];
        let file_id: u8 = bytes[1];
        if status % 2 == 0 {
            let header = Header { file_name: read_block(bytes, 2) };
            Ok(Packet { file_id, packet_type: PacketType::HeaderPacket(header) })
        } else {
            let hi: u8 = if bytes.len() > 2 {
                bytes[2]
            } else {
                0
            };
            let lo: u8 = if bytes.len() > 3 {
                bytes[3]
            } else {
                0
            };
            let packet_number: u16 = hi as u16 * 256 + lo as u16;
            let last_packet: bool = status % LAST_CHUNK_MODULUS == LAST_CHUNK_STATUS;
            let data = Data { packet_number, last_packet, data: read_block(bytes, 4) };
            Ok(Packet { file_id, packet_type: PacketType::DataPacket(data) })
        }
    }

    /// The datagram that carries this packet.
    pub fn encode(&self) -> (r: Vec<u8>)
        ensures
            r@ == encode_view(self@),
    {
        let mut out: Vec<u8> = Vec::new();
        let block: &[u8; 1024] = match &self.packet_type {
            PacketType::HeaderPacket(h) => {
                out.push(0u8);
                out.push(self.file_id);
                &h.file_name
            },
            PacketType::DataPacket(d) => {
                out.push(if d.last_packet { LAST_CHUNK_STATUS } else { 1u8 });
                out.push(self.file_id);
                out.push((d.packet_number / 256) as u8);
                out.push((d.packet_number % 256) as u8);
                &d.data
            },
        };
        let ghost prefix = out@;
        let mut j: usize = 0;
        while j < BLOCK_SIZE
            invariant
                j <= BLOCK_SIZE,
                block@.len() == BLOCK_SIZE,
                out@ == prefix + block@.subrange(0, j as int),
            decreases BLOCK_SIZE - j,
        {
            out.push(block[j]);
            j = j + 1;
            assert(out@ =~= prefix + block@.subrange(0, j as int));
        }
        assert(block@.subrange(0, BLOCK_SIZE as int) =~= block@);
        proof {
            if self@.kind is Header {
                assert(prefix =~= seq![0u8, self.file_id]);
            }
        }
        out
    }
}

impl<'a> TryFrom<&'a [u8]> for Packet {
    type Error = PacketError;

    /// Same as `Packet::decode`.
    fn try_from(value: &'a [u8]) -> (r: Result<Packet, PacketError>)
        ensures
            match r {
                Ok(p) => MIN_DATAGRAM <= value@.len() <= MAX_DATAGRAM && p@ == decode_view(value@),
                Err(PacketError::EmptyPacket(_)) => value@.len() < MIN_DATAGRAM,
                Err(PacketError::PacketOverflow(_)) => value@.len() > MAX_DATAGRAM,
            },
    {
        Packet::decode(value)
    }
}

/// The error of a failed conversion carries a message, so the conversion's
/// result is stated on `try_from` and `Packet::decode` rather than as one
/// spec value.
impl<'a> vstd::std_specs::convert::TryFromSpecImpl<&'a [u8]> for Packet {
    open spec fn obeys_try_from_spec() -> bool {
        false
    }

    open spec fn try_from_spec(value: &'a [u8]) -> Result<Packet, PacketError> {
        arbitrary()
    }
}

} // verus!
