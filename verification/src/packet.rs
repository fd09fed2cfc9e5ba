//! Packet framing: the kind tag, the fixed-size header and the packet that
//! carries an encoded payload behind its header.

use crate::codec::{encode_u16, encode_u32, encode_u64, take_u16, take_u32, take_u64};
use crate::packable::{TiPack, TiUnPack};
use crate::wire::{
    le_bytes, le_value, lemma_le_bytes_len, lemma_radix_values, lemma_split_uint_is_inverse,
    lemma_split_uint_of_wire, split_uint,
};
use vstd::prelude::*;
use vstd::std_specs::cmp::PartialEqSpecImpl;

verus! {

/// The sentinel that opens every header.
pub const MAGIC_FLAG: u16 = 0x55aa;

/// The number of bytes of an encoded header: two of flag, eight of body
/// length and four of kind tag.
pub const HEADER_SIZE: usize = 14;

/// The kind of payload that a packet carries.
#[derive(Debug, PartialEq, Eq, Structural)]
pub enum PackType {
    Task,
    TaskResult,
}

impl PackType {
    /// The number that stands for this kind on the wire.
    pub open spec fn tag(self) -> nat {
        match self {
            PackType::Task => 0,
            PackType::TaskResult => 1,
        }
    }

    /// The kind that `tag` stands for, if it stands for one.
    pub open spec fn of_tag(tag: nat) -> Option<PackType> {
        if tag == 0 {
            Some(PackType::Task)
        } else if tag == 1 {
            Some(PackType::TaskResult)
        } else {
            None
        }
    }

    /// The wire tag of this kind.
    pub fn to_tag(&self) -> (tag: u32)
        ensures
            tag as nat == self.tag(),
    {
        match self {
            PackType::Task => 0,
            PackType::TaskResult => 1,
        }
    }

    /// The kind that a wire tag names; `None` for a tag that names none.
    pub fn from_tag(tag: u32) -> (kind: Option<PackType>)
        ensures
            kind == Self::of_tag(tag as nat),
    {
        if tag == 0 {
            Some(PackType::Task)
        } else if tag == 1 {
            Some(PackType::TaskResult)
        } else {
            None
        }
    }
}

impl View for PackType {
    type V = PackType;

    open spec fn view(&self) -> PackType {
        *self
    }
}

/// The encoding of a kind: its tag in four bytes.
pub open spec fn pack_type_wire(kind: PackType) -> Seq<u8> {
    le_bytes(kind.tag(), 4)
}

/// The kind that `bytes` encode: they are exactly four bytes and hold a known tag.
pub open spec fn parse_pack_type(bytes: Seq<u8>) -> Option<PackType> {
    match split_uint(bytes, 4) {
        Some((tag, rest)) => {
            if rest.len() == 0 {
                PackType::of_tag(tag)
            } else {
                None
            }
        },
        None => None,
    }
}

impl TiPack for PackType {
    open spec fn wire(&self) -> Seq<u8> {
        pack_type_wire(*self)
    }

    open spec fn encodable(&self) -> bool {
        true
    }

    /// Encodes the kind; this always succeeds.
    fn pack(&self) -> (r: Result<Vec<u8>, String>)
        ensures
            r is Ok,
    {
        encode_u32(self.to_tag())
    }
}

impl TiUnPack for PackType {
    open spec fn parse(bytes: Seq<u8>) -> Option<PackType> {
        parse_pack_type(bytes)
    }

    /// Decodes a kind; fails exactly on the inputs that encode none.
    fn unpack(encoded: &[u8]) -> (r: Result<PackType, String>)
        ensures
            r is Err ==> parse_pack_type(encoded@) is None,
    {
        let (tag, rest) = take_u32(encoded)?;
        if rest.len() != 0 {
            return Err("bytes remain after the kind tag".to_string());
        }
        match PackType::from_tag(tag) {
            Some(kind) => Ok(kind),
            None => Err("unknown kind tag".to_string()),
        }
    }
}

/// The header that precedes every body on the wire.
#[derive(Debug, PartialEq, Eq, Structural)]
pub struct PacketHeader {
    /// The sentinel; `MAGIC_FLAG` in every header that this library builds.
    pub flag: u16,
    /// The number of bytes of the body that follows.
    pub body_size: u64,
    /// The kind of payload that the body encodes.
    pub pack_type: PackType,
}

impl View for PacketHeader {
    type V = PacketHeader;

    open spec fn view(&self) -> PacketHeader {
        *self
    }
}

/// The encoding of a header: flag, body length and kind tag, in that order.
pub open spec fn header_wire(header: PacketHeader) -> Seq<u8> {
    le_bytes(header.flag as nat, 2) + le_bytes(header.body_size as nat, 8) + le_bytes(
        header.pack_type.tag(),
        4,
    )
}

/// The header that `bytes` encode: a flag, a body length and a known kind
/// tag, with nothing missing and nothing left over.
pub open spec fn parse_header(bytes: Seq<u8>) -> Option<PacketHeader> {
    match split_uint(bytes, 2) {
        Some((flag, after_flag)) => match split_uint(after_flag, 8) {
            Some((body_size, after_size)) => match split_uint(after_size, 4) {
                Some((tag, rest)) => match PackType::of_tag(tag) {
                    Some(pack_type) => {
                        if rest.len() == 0 {
                            Some(
                                PacketHeader {
                                    flag: flag as u16,
                                    body_size: body_size as u64,
                                    pack_type,
                                },
                            )
                        } else {
                            None
                        }
                    },
                    None => None,
                },
                None => None,
            },
            None => None,
        },
        None => None,
    }
}

impl PacketHeader {
    /// The flag of the header is the sentinel.
    pub open spec fn flag_ok(self) -> bool {
        self.flag == MAGIC_FLAG
    }

    /// A header for a body of `body_size` bytes of kind `pack_type`, with the sentinel set.
    pub fn new(body_size: u64, pack_type: PackType) -> (header: PacketHeader)
        ensures
            header == (PacketHeader { flag: MAGIC_FLAG, body_size, pack_type }),
            header.flag_ok(),
    {
        PacketHeader { flag: MAGIC_FLAG, body_size, pack_type }
    }

    /// Whether the header opens with the sentinel.
    pub fn check_flag(&self) -> (ok: bool)
        ensures
            ok == self.flag_ok(),
    {
        self.flag == MAGIC_FLAG
    }
}

impl TiPack for PacketHeader {
    open spec fn wire(&self) -> Seq<u8> {
        header_wire(*self)
    }

    open spec fn encodable(&self) -> bool {
        true
    }

    /// Encodes the header; this always succeeds.
    fn pack(&self) -> (r: Result<Vec<u8>, String>)
        ensures
            r is Ok,
    {
        let mut out = encode_u16(self.flag)?;
        let mut size = encode_u64(self.body_size)?;
        let mut tag = encode_u32(self.pack_type.to_tag())?;
        out.append(&mut size);
        out.append(&mut tag);
        Ok(out)
    }
}

impl TiUnPack for PacketHeader {
    open spec fn parse(bytes: Seq<u8>) -> Option<PacketHeader> {
        parse_header(bytes)
    }

    /// Decodes a header; fails exactly on the inputs that encode none. The
    /// flag is read as it stands: whether it is the sentinel is for
    /// `check_flag` to say.
    fn unpack(encoded: &[u8]) -> (r: Result<PacketHeader, String>)
        ensures
            r is Err ==> parse_header(encoded@) is None,
    {
        let (flag, after_flag) = take_u16(encoded)?;
        let (body_size, after_size) = take_u64(after_flag)?;
        let (tag, rest) = take_u32(after_size)?;
        let pack_type = match PackType::from_tag(tag) {
            Some(kind) => kind,
            None => {
                return Err("unknown kind tag".to_string());
            },
        };
        if rest.len() != 0 {
            return Err("bytes remain after the header".to_string());
        }
        Ok(PacketHeader { flag, body_size, pack_type })
    }
}

/// The number of bytes that an encoded header occupies.
pub fn get_header_size() -> (size: usize)
    ensures
        size == HEADER_SIZE,
        size == header_wire(
            PacketHeader { flag: MAGIC_FLAG, body_size: 0, pack_type: PackType::Task },
        ).len(),
{
    let header = PacketHeader::new(0, PackType::Task);
    proof {
        lemma_header_size(header);
    }
    header.pack().unwrap().len()
}

/// Every header is encoded in the same number of bytes.
pub proof fn lemma_header_size(header: PacketHeader)
    ensures
        header_wire(header).len() == HEADER_SIZE,
{
    lemma_le_bytes_len(header.flag as nat, 2);
    lemma_le_bytes_len(header.body_size as nat, 8);
    lemma_le_bytes_len(header.pack_type.tag(), 4);
}

/// A header and the encoded payload that it describes.
#[derive(Debug)]
pub struct Packet {
    /// The header of the packet.
    pub header: PacketHeader,
    /// The body: the payload as it was encoded, never encoded again.
    pub data: Vec<u8>,
}

/// A packet as a value: its header and the bytes of its body.
pub struct PacketView {
    pub header: PacketHeader,
    pub data: Seq<u8>,
}

impl View for Packet {
    type V = PacketView;

    open spec fn view(&self) -> PacketView {
        PacketView { header: self.header, data: self.data@ }
    }
}

/// The packet that frames `body` as a payload of kind `pack_type`: the
/// sentinel is set and the header records the length of the body.
pub open spec fn framed(pack_type: PackType, body: Seq<u8>) -> PacketView {
    PacketView {
        header: PacketHeader { flag: MAGIC_FLAG, body_size: body.len() as u64, pack_type },
        data: body,
    }
}

/// The encoding of a packet: its header, then its body as it stands.
pub open spec fn packet_wire(packet: PacketView) -> Seq<u8> {
    header_wire(packet.header) + packet.data
}

impl PacketView {
    /// The header opens with the sentinel and records the length of the body.
    pub open spec fn well_formed(self) -> bool {
        &&& self.header.flag_ok()
        &&& self.header.body_size as nat == self.data.len()
    }
}

impl PartialEq for Packet {
    /// Two packets are equal when their headers are and their bodies hold the same bytes.
    fn eq(&self, other: &Packet) -> (equal: bool) {
        let equal = self.header == other.header && self.data == other.data;
        proof {
            if equal {
                assert(self.data@ =~= other.data@);
            }
        }
        equal
    }
}

impl PartialEqSpecImpl for Packet {
    open spec fn obeys_eq_spec() -> bool {
        true
    }

    open spec fn eq_spec(&self, other: &Packet) -> bool {
        self@ == other@
    }
}

impl Packet {
    /// Frames what a payload's `pack` returned: an encoded body becomes a
    /// packet of kind `data_type`, a failure is handed on unchanged.
    pub fn from_packed(data_type: PackType, packed: Result<Vec<u8>, String>) -> (r: Result<
        Packet,
        String,
    >)
        ensures
            match packed {
                Ok(body) => r matches Ok(packet) && packet@ == framed(data_type, body@)
                    && packet@.well_formed(),
                Err(error) => r == Err::<Packet, String>(error),
            },
    {
        let data = packed?;
        let body_size = data.len() as u64;
        Ok(Packet { header: PacketHeader::new(body_size, data_type), data })
    }

    /// Encodes `data` and frames it as a packet of kind `data_type`. Fails
    /// where `data.pack()` fails, with its error, and so never for a payload
    /// that is `encodable`; otherwise the body is the encoded payload and the
    /// header records its exact length.
    pub fn new<T>(data_type: PackType, data: T) -> (r: Result<Packet, String>) where
        T: TiPack + TiUnPack,

        ensures
            data.encodable() ==> r is Ok,
            r matches Ok(packet) ==> {
                &&& packet@ == framed(data_type, data.wire())
                &&& packet.header.body_size as nat == data.wire().len()
                &&& packet@.well_formed()
            },
    {
        Packet::from_packed(data_type, data.pack())
    }
}

impl TiPack for Packet {
    open spec fn wire(&self) -> Seq<u8> {
        packet_wire(self@)
    }

    open spec fn encodable(&self) -> bool {
        true
    }

    /// Encodes the packet: the encoded header, then the body unchanged.
    /// This always succeeds.
    fn pack(&self) -> (r: Result<Vec<u8>, String>)
        ensures
            r is Ok,
    {
        let mut data = self.header.pack()?;
        let ghost head = data@;
        data.extend_from_slice(self.data.as_slice());
        assert(data@ =~= head + self.data@);
        Ok(data)
    }
}

/// Decoding the encoding of a kind gives the kind back.
pub proof fn lemma_pack_type_round_trip(kind: PackType)
    ensures
        parse_pack_type(pack_type_wire(kind)) == Some(kind),
{
    lemma_radix_values();
    lemma_split_uint_of_wire(kind.tag(), 4, Seq::empty());
    assert(pack_type_wire(kind) =~= le_bytes(kind.tag(), 4) + Seq::<u8>::empty());
}

/// Only its own encoding decodes to a kind.
pub proof fn lemma_pack_type_parse_is_inverse(bytes: Seq<u8>, kind: PackType)
    requires
        parse_pack_type(bytes) == Some(kind),
    ensures
        pack_type_wire(kind) == bytes,
{
    let (tag, rest) = split_uint(bytes, 4)->0;
    lemma_split_uint_is_inverse(bytes, 4, tag, rest);
    assert(bytes =~= le_bytes(tag, 4));
}

/// Decoding the encoding of a header gives the header back, whatever its flag.
pub proof fn lemma_header_round_trip(header: PacketHeader)
    ensures
        parse_header(header_wire(header)) == Some(header),
{
    let size = le_bytes(header.body_size as nat, 8);
    let tag = le_bytes(header.pack_type.tag(), 4);
    lemma_radix_values();
    lemma_split_uint_of_wire(header.flag as nat, 2, size + tag);
    lemma_split_uint_of_wire(header.body_size as nat, 8, tag);
    lemma_split_uint_of_wire(header.pack_type.tag(), 4, Seq::empty());
    assert(header_wire(header) =~= le_bytes(header.flag as nat, 2) + (size + tag));
    assert(tag =~= tag + Seq::<u8>::empty());
}

/// Only its own encoding decodes to a header.
pub proof fn lemma_header_parse_is_inverse(bytes: Seq<u8>, header: PacketHeader)
    requires
        parse_header(bytes) == Some(header),
    ensures
        header_wire(header) == bytes,
{
    let (flag, after_flag) = split_uint(bytes, 2)->0;
    let (body_size, after_size) = split_uint(after_flag, 8)->0;
    let (tag, rest) = split_uint(after_size, 4)->0;
    lemma_radix_values();
    lemma_split_uint_is_inverse(bytes, 2, flag, after_flag);
    lemma_split_uint_is_inverse(after_flag, 8, body_size, after_size);
    lemma_split_uint_is_inverse(after_size, 4, tag, rest);
    assert(bytes =~= header_wire(header));
}

/// Bytes that decode to a header are exactly as many as a header takes:
/// an input that is shorter, or longer, decodes to none.
pub proof fn lemma_header_needs_all_bytes(bytes: Seq<u8>)
    requires
        bytes.len() != HEADER_SIZE,
    ensures
        parse_header(bytes) is None,
{
    if parse_header(bytes) is Some {
        let header = parse_header(bytes)->0;
        lemma_header_parse_is_inverse(bytes, header);
        lemma_header_size(header);
    }
}

/// A header whose flag was set to anything but the sentinel still decodes,
/// to a header with that flag, and so fails the flag check.
pub proof fn lemma_altered_flag_is_seen(header: PacketHeader, flag: u16)
    requires
        flag != MAGIC_FLAG,
    ensures
        parse_header(header_wire(PacketHeader { flag, ..header })) == Some(
            PacketHeader { flag, ..header },
        ),
        !(PacketHeader { flag, ..header }).flag_ok(),
{
    lemma_header_round_trip(PacketHeader { flag, ..header });
}

/// The flag of a decoded header is what the first two bytes of the input
/// hold: it is the sentinel exactly when they are `AA 55`.
pub proof fn lemma_header_flag_read_back(bytes: Seq<u8>, header: PacketHeader)
    requires
        parse_header(bytes) == Some(header),
    ensures
        header.flag_ok() <==> bytes[0] == 0xaa && bytes[1] == 0x55,
{
    let head = bytes.take(2);
    reveal_with_fuel(le_value, 3);
    assert(head.skip(1).skip(1).len() == 0);
    assert(le_value(head) == head[0] as nat + 256 * (head[1] as nat));
}

/// The first `HEADER_SIZE` bytes of an encoded packet decode to its header
/// and the rest is its body; where the packet is well formed, the header
/// records the number of bytes that follow it.
pub proof fn lemma_packet_layout(packet: PacketView)
    ensures
        packet_wire(packet).len() == HEADER_SIZE + packet.data.len(),
        parse_header(packet_wire(packet).take(HEADER_SIZE as int)) == Some(packet.header),
        packet_wire(packet).skip(HEADER_SIZE as int) == packet.data,
        packet.well_formed() ==> packet.header.body_size as nat == packet_wire(packet).len()
            - HEADER_SIZE,
{
    lemma_header_size(packet.header);
    lemma_header_round_trip(packet.header);
    assert(packet_wire(packet).take(HEADER_SIZE as int) =~= header_wire(packet.header));
    assert(packet_wire(packet).skip(HEADER_SIZE as int) =~= packet.data);
}

} // verus!
