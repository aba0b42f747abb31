//! On-wire frame layouts: the 24-byte command frame, the 12-byte status
//! frame, and the packetization of payloads into transport packets.

use vstd::prelude::*;
use vstd::slice::slice_subrange;
use crate::wire::spec_le_u32;
use crate::wire::spec_u32_le_bytes;
use crate::wire::le_u32;
use crate::wire::push_u32_le;
use crate::wire::lemma_le_u32_round_trip;
use vstd::slice::slice_to_vec;
use vstd::arithmetic::div_mod::lemma_basic_div;
use vstd::arithmetic::div_mod::lemma_div_plus_one;
use super::Error;

verus! {

/// Magic constant that opens every command frame
/// (little-endian value of its first four bytes).
pub const COMMAND_MAGIC: u32 = 0x0602_2009;

/// Magic constant that opens every status frame; distinct from the
/// command magic.
pub const STATUS_MAGIC: u32 = 0x0a6f_e000;

/// Byte length of a command frame.
pub const COMMAND_FRAME_LEN: usize = 24;

/// Byte length of a status frame.
pub const STATUS_FRAME_LEN: usize = 12;

/// An outbound command frame, one per exchange.
#[derive(Debug, PartialEq, Eq, Structural, Clone, Copy)]
pub struct Command {
    /// Sequence identifier, echoed by the answering status frame.
    pub tag: u32,
    /// Declared payload length in bytes.
    pub size: u32,
    /// Operation code.
    pub command: u32,
    /// Target address or parameter.
    pub address: u32,
    /// Reserved, always zero.
    pub unk: u32,
}

/// The 24-byte little-endian encoding of a command frame: magic first,
/// then tag, size, operation, address and the reserved word.
pub open spec fn spec_command_bytes(c: Command) -> Seq<u8> {
    spec_u32_le_bytes(COMMAND_MAGIC) + spec_u32_le_bytes(c.tag) + spec_u32_le_bytes(c.size)
        + spec_u32_le_bytes(c.command) + spec_u32_le_bytes(c.address)
        + spec_u32_le_bytes(c.unk)
}

/// The command frame encoded in `s`: its fields when `s` is exactly one
/// frame opening with the command magic, nothing otherwise.  The engine
/// never decodes commands on the wire; this is the layout's inverse,
/// stated so that encoding can be proved faithful and tested against.
pub open spec fn spec_decode_command(s: Seq<u8>) -> Option<Command> {
    if s.len() == COMMAND_FRAME_LEN && spec_le_u32(s.subrange(0, 4)) == COMMAND_MAGIC {
        Some(
            Command {
                tag: spec_le_u32(s.subrange(4, 8)),
                size: spec_le_u32(s.subrange(8, 12)),
                command: spec_le_u32(s.subrange(12, 16)),
                address: spec_le_u32(s.subrange(16, 20)),
                unk: spec_le_u32(s.subrange(20, 24)),
            },
        )
    } else {
        None
    }
}

impl Command {
    /// Encodes this frame into its 24-byte on-wire form.
    pub fn bytes(&self) -> (r: Vec<u8>)
        ensures
            r@ == spec_command_bytes(*self),
            r@.len() == COMMAND_FRAME_LEN,
    {
        let mut r: Vec<u8> = Vec::new();
        push_u32_le(&mut r, COMMAND_MAGIC);
        push_u32_le(&mut r, self.tag);
        push_u32_le(&mut r, self.size);
        push_u32_le(&mut r, self.command);
        push_u32_le(&mut r, self.address);
        push_u32_le(&mut r, self.unk);
        proof {
            assert(r@ =~= spec_command_bytes(*self));
        }
        r
    }
}

/// Decodes a command frame, the exact inverse of `Command::bytes`.
/// Exists for tests and diagnostics: the device, not this engine, is the
/// consumer of command frames.
pub fn decode_command(bytes: &[u8]) -> (r: Option<Command>)
    ensures
        r == spec_decode_command(bytes@),
{
    if bytes.len() != COMMAND_FRAME_LEN {
        return None;
    }
    if le_u32(slice_subrange(bytes, 0, 4)) != COMMAND_MAGIC {
        return None;
    }
    Some(
        Command {
            tag: le_u32(slice_subrange(bytes, 4, 8)),
            size: le_u32(slice_subrange(bytes, 8, 12)),
            command: le_u32(slice_subrange(bytes, 12, 16)),
            address: le_u32(slice_subrange(bytes, 16, 20)),
            unk: le_u32(slice_subrange(bytes, 20, 24)),
        },
    )
}

/// Encoding a command frame and decoding the bytes recovers every field
/// exactly: the byte layout loses nothing.
pub proof fn lemma_command_round_trip(c: Command)
    ensures
        spec_decode_command(spec_command_bytes(c)) == Some(c),
{
    lemma_le_u32_round_trip(COMMAND_MAGIC);
    lemma_le_u32_round_trip(c.tag);
    lemma_le_u32_round_trip(c.size);
    lemma_le_u32_round_trip(c.command);
    lemma_le_u32_round_trip(c.address);
    lemma_le_u32_round_trip(c.unk);
    let s = spec_command_bytes(c);
    assert(s.subrange(0, 4) =~= spec_u32_le_bytes(COMMAND_MAGIC));
    assert(s.subrange(4, 8) =~= spec_u32_le_bytes(c.tag));
    assert(s.subrange(8, 12) =~= spec_u32_le_bytes(c.size));
    assert(s.subrange(12, 16) =~= spec_u32_le_bytes(c.command));
    assert(s.subrange(16, 20) =~= spec_u32_le_bytes(c.address));
    assert(s.subrange(20, 24) =~= spec_u32_le_bytes(c.unk));
}

/// A decoded status frame, the device's answer to one command frame.
#[derive(Debug, PartialEq, Eq, Structural, Clone, Copy)]
pub struct Status {
    /// Echo of the answered command's tag.
    pub tag: u32,
    /// True exactly when the device's result word is zero.
    pub success: bool,
}

/// The status frame encoded in `s`: its tag and success flag when `s` is
/// exactly one frame opening with the status magic, nothing otherwise.
pub open spec fn spec_decode_status(s: Seq<u8>) -> Option<Status> {
    if s.len() == STATUS_FRAME_LEN && spec_le_u32(s.subrange(0, 4)) == STATUS_MAGIC {
        Some(
            Status {
                tag: spec_le_u32(s.subrange(4, 8)),
                success: spec_le_u32(s.subrange(8, 12)) == 0,
            },
        )
    } else {
        None
    }
}

/// Decodes a status frame.  A buffer of any length other than 12 or with
/// the wrong magic is malformed; no truncation or padding is attempted.
pub fn decode_status(bytes: &[u8]) -> (r: Result<Status, Error>)
    ensures
        r == match spec_decode_status(bytes@) {
            Some(st) => Ok::<Status, Error>(st),
            None => Err::<Status, Error>(Error::MalformedFrame),
        },
{
    if bytes.len() != STATUS_FRAME_LEN {
        return Err(Error::MalformedFrame);
    }
    if le_u32(slice_subrange(bytes, 0, 4)) != STATUS_MAGIC {
        return Err(Error::MalformedFrame);
    }
    let tag = le_u32(slice_subrange(bytes, 4, 8));
    let result = le_u32(slice_subrange(bytes, 8, 12));
    Ok(Status { tag, success: result == 0 })
}

/// Byte length of one transport packet: a payload is transmitted as a
/// succession of writes of at most this many bytes.
pub const PACKET_SIZE: usize = 512;

/// One transport packet of payload data.
pub struct Packet(Vec<u8>);

impl View for Packet {
    type V = Seq<u8>;

    closed spec fn view(&self) -> Seq<u8> {
        self.0@
    }
}

impl Packet {
    /// The number of payload bytes in this packet.
    pub fn len(&self) -> (n: usize)
        ensures
            n == self@.len(),
    {
        self.0.len()
    }

    /// The packet's bytes, as handed to one transport write.
    pub fn as_bytes(&self) -> (s: &[u8])
        ensures
            s@ == self@,
    {
        self.0.as_slice()
    }
}

/// The packets of a payload: successive 512-byte slices of `s`, the final
/// one possibly shorter, none empty; an empty payload yields no packets.
pub open spec fn spec_packets(s: Seq<u8>) -> Seq<Seq<u8>>
    decreases s.len(),
{
    if s.len() == 0 {
        Seq::empty()
    } else if s.len() <= PACKET_SIZE {
        seq![s]
    } else {
        seq![s.subrange(0, PACKET_SIZE as int)] + spec_packets(
            s.subrange(PACKET_SIZE as int, s.len() as int),
        )
    }
}

/// Packetization is exhaustive and exact: a payload of length L yields
/// ceiling(L / 512) packets, every packet but the last holds exactly 512
/// bytes, the last holds the remainder, and the packets concatenated in
/// order reproduce the payload byte for byte.
pub proof fn lemma_packets_cover(s: Seq<u8>)
    ensures
        spec_packets(s).len() == (s.len() + PACKET_SIZE - 1) / PACKET_SIZE as int,
        forall|i: int|
            0 <= i < spec_packets(s).len() ==> #[trigger] spec_packets(s)[i] == s.subrange(
                PACKET_SIZE * i,
                if PACKET_SIZE * (i + 1) <= s.len() {
                    PACKET_SIZE * (i + 1)
                } else {
                    s.len() as int
                },
            ),
        forall|i: int|
            0 <= i < spec_packets(s).len() - 1 ==> #[trigger] spec_packets(s)[i].len()
                == PACKET_SIZE,
        forall|i: int|
            0 <= i < spec_packets(s).len() ==> 0 < #[trigger] spec_packets(s)[i].len()
                <= PACKET_SIZE,
        spec_packets(s).flatten() == s,
    decreases s.len(),
{
    let p = spec_packets(s);
    if s.len() == 0 {
        lemma_basic_div(PACKET_SIZE - 1, PACKET_SIZE as int);
        assert(p.flatten() =~= s);
    } else if s.len() <= PACKET_SIZE {
        lemma_div_plus_one((s.len() - 1) as int, PACKET_SIZE as int);
        lemma_basic_div((s.len() - 1) as int, PACKET_SIZE as int);
        assert(p[0] =~= s.subrange(0, s.len() as int));
        assert(p.flatten() =~= s) by {
            assert(p.drop_first() =~= Seq::<Seq<u8>>::empty());
            assert(p.drop_first().flatten() =~= Seq::<u8>::empty());
        }
    } else {
        let head = s.subrange(0, PACKET_SIZE as int);
        let tail = s.subrange(PACKET_SIZE as int, s.len() as int);
        lemma_packets_cover(tail);
        lemma_div_plus_one((tail.len() + PACKET_SIZE - 1) as int, PACKET_SIZE as int);
        assert forall|i: int| 0 <= i < p.len() implies #[trigger] p[i] == s.subrange(
            PACKET_SIZE * i,
            if PACKET_SIZE * (i + 1) <= s.len() {
                PACKET_SIZE * (i + 1)
            } else {
                s.len() as int
            },
        ) by {
            if i == 0 {
            } else {
                let q = spec_packets(tail);
                assert(p[i] == q[i - 1]);
                assert(q[i - 1] == tail.subrange(
                    PACKET_SIZE * (i - 1),
                    if PACKET_SIZE * i <= tail.len() {
                        PACKET_SIZE * i
                    } else {
                        tail.len() as int
                    },
                ));
                assert(p[i] =~= s.subrange(
                    PACKET_SIZE * i,
                    if PACKET_SIZE * (i + 1) <= s.len() {
                        PACKET_SIZE * (i + 1)
                    } else {
                        s.len() as int
                    },
                ));
            }
        }
        assert(p.flatten() =~= s) by {
            assert(p.drop_first() =~= spec_packets(tail));
            assert(p.flatten() == head + spec_packets(tail).flatten());
        }
    }
}

/// The packets of a payload, each one transport write's worth of bytes.
pub struct Packets(Vec<Packet>);

impl View for Packets {
    type V = Seq<Seq<u8>>;

    closed spec fn view(&self) -> Seq<Seq<u8>> {
        self.0@.map_values(|p: Packet| p@)
    }
}

impl Packets {
    /// The number of packets.
    pub fn len(&self) -> (n: usize)
        ensures
            n == self@.len(),
    {
        self.0.len()
    }

    /// The `i`-th packet, in transmission order.
    pub fn get(&self, i: usize) -> (p: &Packet)
        requires
            i < self@.len(),
        ensures
            p@ == self@[i as int],
    {
        &self.0[i]
    }
}

/// Splits `data` into transport packets.  Stateless over the source
/// slice: calling it again on the same bytes yields the same packets.
pub fn packets(data: &[u8]) -> (r: Packets)
    ensures
        r@ == spec_packets(data@),
{
    let ghost whole = data@;
    let mut chunks: Vec<Packet> = Vec::new();
    let mut offset: usize = 0;
    proof {
        assert(whole.subrange(0, whole.len() as int) =~= whole);
        assert(chunks@.map_values(|p: Packet| p@) + spec_packets(whole) =~= spec_packets(whole));
    }
    while offset < data.len()
        invariant
            offset <= whole.len(),
            whole == data@,
            chunks@.map_values(|p: Packet| p@) + spec_packets(
                whole.subrange(offset as int, whole.len() as int),
            ) == spec_packets(whole),
        decreases whole.len() - offset,
    {
        let end = if data.len() - offset > PACKET_SIZE {
            offset + PACKET_SIZE
        } else {
            data.len()
        };
        let chunk = slice_to_vec(slice_subrange(data, offset, end));
        proof {
            let tail = whole.subrange(offset as int, whole.len() as int);
            let rest = whole.subrange(end as int, whole.len() as int);
            if tail.len() <= PACKET_SIZE {
                assert(chunk@ =~= tail);
                assert(spec_packets(rest) =~= Seq::<Seq<u8>>::empty());
                assert(seq![chunk@] + spec_packets(rest) =~= spec_packets(tail));
            } else {
                assert(chunk@ =~= tail.subrange(0, PACKET_SIZE as int));
                assert(rest =~= tail.subrange(PACKET_SIZE as int, tail.len() as int));
                assert(seq![chunk@] + spec_packets(rest) =~= spec_packets(tail));
            }
        }
        let ghost old_chunks = chunks@;
        let ghost chunk_view = chunk@;
        chunks.push(Packet(chunk));
        proof {
            assert(chunks@.map_values(|p: Packet| p@) =~= old_chunks.map_values(|p: Packet| p@)
                + seq![chunk_view]);
            assert(chunks@.map_values(|p: Packet| p@) + spec_packets(
                whole.subrange(end as int, whole.len() as int),
            ) =~= spec_packets(whole));
        }
        offset = end;
    }
    proof {
        assert(spec_packets(whole.subrange(offset as int, whole.len() as int)) =~= Seq::<
            Seq<u8>,
        >::empty());
        assert(chunks@.map_values(|p: Packet| p@) =~= spec_packets(whole));
    }
    Packets(chunks)
}

} // verus!
