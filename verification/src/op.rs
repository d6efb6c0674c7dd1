//! Operation descriptors and their 64-bit correlation tags.
//!
//! Every entry submitted to the ring carries a tag, and the kernel echoes the
//! tag back on the completion. The tag is laid out as three fields:
//!
//! | bits     | field                                        |
//! |----------|----------------------------------------------|
//! | 0..16    | kind: 0 accept, 1 receive, 2 send, 3 close   |
//! | 16..32   | buffer index (receive only, otherwise 0)     |
//! | 32..64   | connection handle, two's complement          |
//!
//! Decoding is strict: a value is accepted only if some descriptor encodes to
//! exactly that value.

use vstd::prelude::*;

verus! {

/// A connection handle as the kernel hands it out.
pub type Fd = i32;

/// What a submitted ring entry stands for.
#[derive(Clone, Copy, Debug, PartialEq, Eq, Structural)]
pub enum Op {
    /// Accept connections on the listening socket.
    Accept,
    /// Receive on a connection into the buffer slot with the given index.
    Recv(Fd, u16),
    /// Send on a connection.
    Send(Fd),
    /// Close a connection.
    Close(Fd),
}

/// Value of the kind field for an accept.
pub const KIND_ACCEPT: u64 = 0;

/// Value of the kind field for a receive.
pub const KIND_RECV: u64 = 1;

/// Value of the kind field for a send.
pub const KIND_SEND: u64 = 2;

/// Value of the kind field for a close.
pub const KIND_CLOSE: u64 = 3;

/// Weight of the buffer-index field inside a tag.
pub const INDEX_UNIT: u64 = 0x1_0000;

/// Weight of the handle field inside a tag.
pub const HANDLE_UNIT: u64 = 0x1_0000_0000;

/// The handle as an unsigned 32-bit pattern.
pub open spec fn handle_bits(fd: Fd) -> int {
    if fd >= 0 {
        fd as int
    } else {
        fd + 0x1_0000_0000
    }
}

/// The handle that a 32-bit pattern stands for.
pub open spec fn handle_of_bits(bits: int) -> Fd
    recommends
        0 <= bits < 0x1_0000_0000,
{
    if bits < 0x8000_0000 {
        bits as i32
    } else {
        (bits - 0x1_0000_0000) as i32
    }
}

/// The tag of a descriptor.
pub open spec fn encode_spec(op: Op) -> int {
    match op {
        Op::Accept => 0,
        Op::Recv(fd, index) => 1 + 0x1_0000 * index + 0x1_0000_0000 * handle_bits(fd),
        Op::Send(fd) => 2 + 0x1_0000_0000 * handle_bits(fd),
        Op::Close(fd) => 3 + 0x1_0000_0000 * handle_bits(fd),
    }
}

/// The descriptor of a tag, if the tag is one that `encode` produces.
pub open spec fn decode_spec(tag: int) -> Option<Op> {
    let kind = tag % 0x1_0000;
    let index = (tag / 0x1_0000) % 0x1_0000;
    let fd = handle_of_bits(tag / 0x1_0000_0000);
    if tag < 0 || tag > u64::MAX {
        None
    } else if kind == 0 && tag == 0 {
        Some(Op::Accept)
    } else if kind == 1 {
        Some(Op::Recv(fd, index as u16))
    } else if kind == 2 && index == 0 {
        Some(Op::Send(fd))
    } else if kind == 3 && index == 0 {
        Some(Op::Close(fd))
    } else {
        None
    }
}

/// The handle as an unsigned 32-bit pattern, computed without a wrapping
/// cast.
fn handle_to_bits(fd: Fd) -> (bits: u64)
    ensures
        bits == handle_bits(fd),
        bits < 0x1_0000_0000,
{
    if fd >= 0 {
        fd as u64
    } else {
        (fd as i64 + 0x1_0000_0000) as u64
    }
}

/// The handle that a 32-bit pattern stands for.
fn bits_to_handle(bits: u64) -> (fd: Fd)
    requires
        bits < 0x1_0000_0000,
    ensures
        fd == handle_of_bits(bits as int),
        handle_bits(fd) == bits,
{
    if bits < 0x8000_0000 {
        bits as i32
    } else {
        (bits as i64 - 0x1_0000_0000) as i32
    }
}

/// Packs a descriptor into its correlation tag.
pub fn encode(op: Op) -> (tag: u64)
    ensures
        tag == encode_spec(op),
        decode_spec(tag as int) == Some(op),
{
    match op {
        Op::Accept => KIND_ACCEPT,
        Op::Recv(fd, index) => KIND_RECV + INDEX_UNIT * (index as u64) + HANDLE_UNIT
            * handle_to_bits(fd),
        Op::Send(fd) => KIND_SEND + HANDLE_UNIT * handle_to_bits(fd),
        Op::Close(fd) => KIND_CLOSE + HANDLE_UNIT * handle_to_bits(fd),
    }
}

impl From<Op> for u64 {
    /// The correlation tag of a descriptor, as `encode` computes it.
    fn from(op: Op) -> (tag: u64) {
        encode(op)
    }
}

impl vstd::std_specs::convert::FromSpecImpl<Op> for u64 {
    open spec fn obeys_from_spec() -> bool {
        true
    }

    open spec fn from_spec(op: Op) -> u64 {
        encode_spec(op) as u64
    }
}

/// Recovers the descriptor from a correlation tag. Returns `None` for a value
/// that no descriptor encodes to.
pub fn decode(tag: u64) -> (op: Option<Op>)
    ensures
        op == decode_spec(tag as int),
        op matches Some(d) ==> encode_spec(d) == tag,
        op is None ==> forall|d: Op| encode_spec(d) != tag,
{
    let kind = tag % INDEX_UNIT;
    let index = (tag / INDEX_UNIT) % INDEX_UNIT;
    let fd = bits_to_handle(tag / HANDLE_UNIT);
    if kind == KIND_ACCEPT && tag == 0 {
        Some(Op::Accept)
    } else if kind == KIND_RECV {
        Some(Op::Recv(fd, index as u16))
    } else if kind == KIND_SEND && index == 0 {
        Some(Op::Send(fd))
    } else if kind == KIND_CLOSE && index == 0 {
        Some(Op::Close(fd))
    } else {
        None
    }
}

/// A tag that is not the encoding of any descriptor.
#[derive(Clone, Copy, Debug, PartialEq, Eq, Structural)]
pub struct UnknownTag(pub u64);

impl TryFrom<u64> for Op {
    type Error = UnknownTag;

    /// The descriptor of a tag, as `decode` recovers it.
    fn try_from(tag: u64) -> (r: Result<Op, UnknownTag>) {
        match decode(tag) {
            Some(op) => Ok(op),
            None => Err(UnknownTag(tag)),
        }
    }
}

impl vstd::std_specs::convert::TryFromSpecImpl<u64> for Op {
    open spec fn obeys_try_from_spec() -> bool {
        true
    }

    open spec fn try_from_spec(tag: u64) -> Result<Op, UnknownTag> {
        match decode_spec(tag as int) {
            Some(op) => Ok(op),
            None => Err(UnknownTag(tag)),
        }
    }
}

/// Encoding and decoding are exact inverses: every descriptor survives the
/// round trip through its tag, and a tag decodes to a descriptor only if that
/// descriptor encodes to the tag.
pub proof fn lemma_codec_round_trip(op: Op)
    ensures
        0 <= encode_spec(op) <= u64::MAX,
        decode_spec(encode_spec(op)) == Some(op),
        forall|tag: int| decode_spec(tag) == Some(op) ==> tag == encode_spec(op),
{
}

/// Distinct descriptors never share a tag.
pub proof fn lemma_encode_injective(a: Op, b: Op)
    requires
        encode_spec(a) == encode_spec(b),
    ensures
        a == b,
{
    lemma_codec_round_trip(a);
    lemma_codec_round_trip(b);
}

} // verus!
