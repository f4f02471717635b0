//! The wire format: fixed 20-byte big-endian request frames and the raw
//! byte layouts of the replies.
//!
//! A request frame is laid out as
//!
//! | bytes  | field       |
//! |--------|-------------|
//! | 0..4   | magic `ISVR`|
//! | 4..6   | command     |
//! | 6..8   | image index |
//! | 8..16  | offset      |
//! | 16..20 | length      |
//!
//! Every multi-byte field is big-endian. Replies carry no envelope: each
//! command has its own fixed layout, described by the `*_reply_spec`
//! functions below.
use vstd::prelude::*;

verus! {

/// Length in bytes of a request frame.
pub const FRAME_LEN: usize = 20;

/// The tag that opens every request frame: ASCII `ISVR`.
pub const FRAME_MAGIC: [u8; 4] = [0x49, 0x53, 0x56, 0x52];

/// The acknowledgement sent for a ping: ASCII `ISVRokOK`.
pub const PING_REPLY: [u8; 8] = [0x49, 0x53, 0x56, 0x52, 0x6f, 0x6b, 0x4f, 0x4b];

/// Bytes in one sector, as reported to the client.
pub const SECTOR_SIZE: u16 = 0x800;

/// The commands a client can send.
#[derive(Clone, Copy, Debug, PartialEq, Eq, Structural)]
pub enum Cmd {
    Ping,
    GetIsoSize,
    HasType1File,
    ReadData,
    GetIsoName,
    MountIso,
}

/// A decoded request frame.
#[derive(Clone, Copy, Debug, PartialEq, Eq, Structural)]
pub struct Message {
    pub cmd_type: Cmd,
    pub iso_index: u16,
    pub offset: u64,
    pub length: u32,
}

/// Why a frame could not be decoded.
#[derive(Clone, Copy, Debug, PartialEq, Eq, Structural)]
pub enum FrameError {
    /// The first four bytes are not the frame magic.
    BadMagic,
    /// The magic is right, but the command code names no command.
    UnknownCommand { code: u16 },
}

/// The unsigned number that two bytes of `s` starting at `at` spell, most
/// significant byte first.
pub open spec fn be16(s: Seq<u8>, at: int) -> int {
    s[at] * 0x100 + s[at + 1]
}

/// The unsigned number that four bytes of `s` starting at `at` spell, most
/// significant byte first.
pub open spec fn be32(s: Seq<u8>, at: int) -> int {
    be16(s, at) * 0x1_0000 + be16(s, at + 2)
}

/// The unsigned number that eight bytes of `s` starting at `at` spell, most
/// significant byte first.
pub open spec fn be64(s: Seq<u8>, at: int) -> int {
    be32(s, at) * 0x1_0000_0000 + be32(s, at + 4)
}

/// The two bytes that spell `x`, most significant first.
pub open spec fn be16_bytes(x: u16) -> Seq<u8> {
    seq![(x / 0x100) as u8, (x % 0x100) as u8]
}

/// The four bytes that spell `x`, most significant first.
pub open spec fn be32_bytes(x: u32) -> Seq<u8> {
    be16_bytes((x / 0x1_0000) as u16) + be16_bytes((x % 0x1_0000) as u16)
}

/// The eight bytes that spell `x`, most significant first.
pub open spec fn be64_bytes(x: u64) -> Seq<u8> {
    be32_bytes((x / 0x1_0000_0000) as u32) + be32_bytes((x % 0x1_0000_0000) as u32)
}

/// Whether `frame` opens with the frame magic.
pub open spec fn has_magic(frame: Seq<u8>) -> bool {
    &&& frame.len() >= 4
    &&& frame[0] == FRAME_MAGIC[0]
    &&& frame[1] == FRAME_MAGIC[1]
    &&& frame[2] == FRAME_MAGIC[2]
    &&& frame[3] == FRAME_MAGIC[3]
}

impl Cmd {
    /// The command's code on the wire.
    pub open spec fn code_spec(self) -> u16 {
        match self {
            Cmd::Ping => 0,
            Cmd::GetIsoSize => 1,
            Cmd::HasType1File => 2,
            Cmd::ReadData => 3,
            Cmd::GetIsoName => 4,
            Cmd::MountIso => 5,
        }
    }

    /// The command that `code` names, if any.
    pub open spec fn from_code_spec(code: int) -> Option<Cmd> {
        if code == 0 {
            Some(Cmd::Ping)
        } else if code == 1 {
            Some(Cmd::GetIsoSize)
        } else if code == 2 {
            Some(Cmd::HasType1File)
        } else if code == 3 {
            Some(Cmd::ReadData)
        } else if code == 4 {
            Some(Cmd::GetIsoName)
        } else if code == 5 {
            Some(Cmd::MountIso)
        } else {
            None
        }
    }

    /// The command's code on the wire.
    pub fn code(self) -> (code: u16)
        ensures
            code == self.code_spec(),
            Cmd::from_code_spec(code as int) == Some(self),
    {
        match self {
            Cmd::Ping => 0,
            Cmd::GetIsoSize => 1,
            Cmd::HasType1File => 2,
            Cmd::ReadData => 3,
            Cmd::GetIsoName => 4,
            Cmd::MountIso => 5,
        }
    }

    /// The command that `code` names; `None` for a code above 5.
    pub fn from_code(code: u16) -> (cmd: Option<Cmd>)
        ensures
            cmd == Cmd::from_code_spec(code as int),
            cmd is Some <==> code <= 5,
            cmd matches Some(c) ==> c.code_spec() == code,
    {
        if code == 0 {
            Some(Cmd::Ping)
        } else if code == 1 {
            Some(Cmd::GetIsoSize)
        } else if code == 2 {
            Some(Cmd::HasType1File)
        } else if code == 3 {
            Some(Cmd::ReadData)
        } else if code == 4 {
            Some(Cmd::GetIsoName)
        } else if code == 5 {
            Some(Cmd::MountIso)
        } else {
            None
        }
    }
}

/// What a 20-byte frame decodes to: the magic is checked first, then the
/// command code; the remaining fields are taken as they come.
pub open spec fn decode_spec(frame: Seq<u8>) -> Result<Message, FrameError> {
    if !has_magic(frame) {
        Err(FrameError::BadMagic)
    } else {
        match Cmd::from_code_spec(be16(frame, 4)) {
            None => Err(FrameError::UnknownCommand { code: be16(frame, 4) as u16 }),
            Some(cmd_type) => Ok(
                Message {
                    cmd_type,
                    iso_index: be16(frame, 6) as u16,
                    offset: be64(frame, 8) as u64,
                    length: be32(frame, 16) as u32,
                },
            ),
        }
    }
}

/// The frame that carries `msg`.
pub open spec fn encode_spec(msg: Message) -> Seq<u8> {
    FRAME_MAGIC@ + be16_bytes(msg.cmd_type.code_spec()) + be16_bytes(msg.iso_index) + be64_bytes(
        msg.offset,
    ) + be32_bytes(msg.length)
}

fn read_be16(frame: &[u8; 20], at: usize) -> (value: u16)
    requires
        at + 2 <= 20,
    ensures
        value == be16(frame@, at as int),
{
    (frame[at] as u16) * 0x100 + (frame[at + 1] as u16)
}

fn read_be32(frame: &[u8; 20], at: usize) -> (value: u32)
    requires
        at + 4 <= 20,
    ensures
        value == be32(frame@, at as int),
{
    (read_be16(frame, at) as u32) * 0x1_0000 + (read_be16(frame, at + 2) as u32)
}

fn read_be64(frame: &[u8; 20], at: usize) -> (value: u64)
    requires
        at + 8 <= 20,
    ensures
        value == be64(frame@, at as int),
{
    (read_be32(frame, at) as u64) * 0x1_0000_0000 + (read_be32(frame, at + 4) as u64)
}

/// Decodes one request frame.
///
/// Fails with [`FrameError::BadMagic`] exactly when the frame does not open
/// with `ISVR`, and with [`FrameError::UnknownCommand`] exactly when it does
/// but the command code is above 5.
pub fn decode_frame(frame: &[u8; 20]) -> (decoded: Result<Message, FrameError>)
    ensures
        decoded == decode_spec(frame@),
        decoded == Err::<Message, FrameError>(FrameError::BadMagic) <==> !has_magic(frame@),
        decoded is Ok <==> has_magic(frame@) && be16(frame@, 4) <= 5,
{
    if frame[0] != FRAME_MAGIC[0] || frame[1] != FRAME_MAGIC[1] || frame[2] != FRAME_MAGIC[2]
        || frame[3] != FRAME_MAGIC[3] {
        return Err(FrameError::BadMagic);
    }
    let code = read_be16(frame, 4);
    match Cmd::from_code(code) {
        None => Err(FrameError::UnknownCommand { code }),
        Some(cmd_type) => Ok(
            Message {
                cmd_type,
                iso_index: read_be16(frame, 6),
                offset: read_be64(frame, 8),
                length: read_be32(frame, 16),
            },
        ),
    }
}

fn push_be16(out: &mut Vec<u8>, x: u16)
    ensures
        final(out)@ == old(out)@ + be16_bytes(x),
{
    out.push((x / 0x100) as u8);
    out.push((x % 0x100) as u8);
    assert(out@ =~= old(out)@ + be16_bytes(x));
}

fn push_be32(out: &mut Vec<u8>, x: u32)
    ensures
        final(out)@ == old(out)@ + be32_bytes(x),
{
    push_be16(out, (x / 0x1_0000) as u16);
    push_be16(out, (x % 0x1_0000) as u16);
    assert(out@ =~= old(out)@ + be32_bytes(x));
}

fn push_be64(out: &mut Vec<u8>, x: u64)
    ensures
        final(out)@ == old(out)@ + be64_bytes(x),
{
    push_be32(out, (x / 0x1_0000_0000) as u32);
    push_be32(out, (x % 0x1_0000_0000) as u32);
    assert(out@ =~= old(out)@ + be64_bytes(x));
}

/// The four bytes of `x`, most significant first.
pub fn encode_be32(x: u32) -> (bytes: Vec<u8>)
    ensures
        bytes@ == be32_bytes(x),
{
    let mut bytes: Vec<u8> = Vec::new();
    push_be32(&mut bytes, x);
    assert(bytes@ =~= be32_bytes(x));
    bytes
}

impl Message {
    /// The frame that carries this message.
    pub fn to_bytes(&self) -> (frame: Vec<u8>)
        ensures
            frame@ == encode_spec(*self),
            frame@.len() == FRAME_LEN,
    {
        let mut frame: Vec<u8> = Vec::new();
        frame.push(FRAME_MAGIC[0]);
        frame.push(FRAME_MAGIC[1]);
        frame.push(FRAME_MAGIC[2]);
        frame.push(FRAME_MAGIC[3]);
        assert(frame@ =~= FRAME_MAGIC@);
        push_be16(&mut frame, self.cmd_type.code());
        push_be16(&mut frame, self.iso_index);
        push_be64(&mut frame, self.offset);
        push_be32(&mut frame, self.length);
        frame
    }

    /// How many bytes follow the frame on the wire: the target name of a
    /// mount request, whose size the `length` field gives; nothing for the
    /// other commands.
    pub fn payload_len(&self) -> (len: u32)
        ensures
            len == (if self.cmd_type == Cmd::MountIso {
                self.length
            } else {
                0
            }),
    {
        match self.cmd_type {
            Cmd::MountIso => self.length,
            _ => 0,
        }
    }
}

/// The reply to a size query: the sector count in four bytes, then the
/// sector size in four bytes. A count that does not fit in four bytes is cut
/// to its low 32 bits.
pub open spec fn size_reply_spec(sector_count: u64) -> Seq<u8> {
    be32_bytes((sector_count % 0x1_0000_0000) as u32) + be32_bytes(SECTOR_SIZE as u32)
}

/// The reply to a name query: exactly `length` bytes, the bytes of the name
/// followed by NUL bytes. A name longer than `length` is cut off.
pub open spec fn name_reply_spec(name: Seq<u8>, length: u32) -> Seq<u8> {
    Seq::new(
        length as nat,
        |i: int|
            if i < name.len() {
                name[i]
            } else {
                0u8
            },
    )
}

/// The acknowledgement of a ping.
pub fn ping_reply() -> (reply: Vec<u8>)
    ensures
        reply@ == PING_REPLY@,
{
    let mut reply: Vec<u8> = Vec::new();
    let mut i: usize = 0;
    while i < 8
        invariant
            i <= 8,
            reply@ == PING_REPLY@.take(i as int),
        decreases 8 - i,
    {
        reply.push(PING_REPLY[i]);
        assert(reply@ =~= PING_REPLY@.take(i + 1));
        i += 1;
    }
    assert(PING_REPLY@.take(8) =~= PING_REPLY@);
    reply
}

/// The reply to a size query.
pub fn size_reply(sector_count: u64) -> (reply: Vec<u8>)
    ensures
        reply@ == size_reply_spec(sector_count),
        reply@.len() == 8,
{
    let mut reply: Vec<u8> = Vec::new();
    push_be32(&mut reply, (sector_count % 0x1_0000_0000) as u32);
    push_be32(&mut reply, SECTOR_SIZE as u32);
    assert(reply@ =~= size_reply_spec(sector_count));
    reply
}

/// The reply to a name query.
pub fn name_reply(name: &[u8], length: u32) -> (reply: Vec<u8>)
    ensures
        reply@ == name_reply_spec(name@, length),
        reply@.len() == length,
{
    let n = length as usize;
    let mut reply: Vec<u8> = Vec::new();
    let mut i: usize = 0;
    while i < n
        invariant
            i <= n,
            n == length,
            reply@ == name_reply_spec(name@, length).take(i as int),
        decreases n - i,
    {
        let byte = if i < name.len() {
            name[i]
        } else {
            0
        };
        reply.push(byte);
        assert(reply@ =~= name_reply_spec(name@, length).take(i + 1));
        i += 1;
    }
    assert(name_reply_spec(name@, length).take(n as int) =~= name_reply_spec(name@, length));
    reply
}

/// Reading back the bytes that spell a 16-bit number gives the number.
pub proof fn lemma_be16_roundtrip(x: u16)
    ensures
        be16_bytes(x).len() == 2,
        be16(be16_bytes(x), 0) == x,
{
}

/// Reading back the bytes that spell a 32-bit number gives the number.
pub proof fn lemma_be32_roundtrip(x: u32)
    ensures
        be32_bytes(x).len() == 4,
        be32(be32_bytes(x), 0) == x,
{
    let hi = (x / 0x1_0000) as u16;
    let lo = (x % 0x1_0000) as u16;
    lemma_be16_roundtrip(hi);
    lemma_be16_roundtrip(lo);
    let s = be32_bytes(x);
    assert(s[0] == be16_bytes(hi)[0] && s[1] == be16_bytes(hi)[1]);
    assert(s[2] == be16_bytes(lo)[0] && s[3] == be16_bytes(lo)[1]);
}

/// Reading back the bytes that spell a 64-bit number gives the number.
pub proof fn lemma_be64_roundtrip(x: u64)
    ensures
        be64_bytes(x).len() == 8,
        be64(be64_bytes(x), 0) == x,
{
    let hi = (x / 0x1_0000_0000) as u32;
    let lo = (x % 0x1_0000_0000) as u32;
    lemma_be32_roundtrip(hi);
    lemma_be32_roundtrip(lo);
    let s = be64_bytes(x);
    let h = be32_bytes(hi);
    let l = be32_bytes(lo);
    assert(s[0] == h[0] && s[1] == h[1] && s[2] == h[2] && s[3] == h[3]);
    assert(s[4] == l[0] && s[5] == l[1] && s[6] == l[2] && s[7] == l[3]);
}

/// Decoding the frame that carries a message gives the message back.
pub proof fn lemma_decode_encode(msg: Message)
    ensures
        encode_spec(msg).len() == FRAME_LEN,
        decode_spec(encode_spec(msg)) == Ok::<Message, FrameError>(msg),
{
    let f = encode_spec(msg);
    let c = be16_bytes(msg.cmd_type.code_spec());
    let i = be16_bytes(msg.iso_index);
    let o = be64_bytes(msg.offset);
    let l = be32_bytes(msg.length);
    lemma_be16_roundtrip(msg.cmd_type.code_spec());
    lemma_be16_roundtrip(msg.iso_index);
    lemma_be64_roundtrip(msg.offset);
    lemma_be32_roundtrip(msg.length);
    assert(f.subrange(0, 4) =~= FRAME_MAGIC@);
    assert(f.subrange(4, 6) =~= c);
    assert(f.subrange(6, 8) =~= i);
    assert(f.subrange(8, 16) =~= o);
    assert(f.subrange(16, 20) =~= l);
    lemma_be16_window(f, 4);
    lemma_be16_window(f, 6);
    lemma_be64_window(f, 8);
    lemma_be32_window(f, 16);
}

proof fn lemma_be16_window(s: Seq<u8>, at: int)
    requires
        0 <= at,
        at + 2 <= s.len(),
    ensures
        be16(s, at) == be16(s.subrange(at, at + 2), 0),
{
}

proof fn lemma_be32_window(s: Seq<u8>, at: int)
    requires
        0 <= at,
        at + 4 <= s.len(),
    ensures
        be32(s, at) == be32(s.subrange(at, at + 4), 0),
{
}

proof fn lemma_be64_window(s: Seq<u8>, at: int)
    requires
        0 <= at,
        at + 8 <= s.len(),
    ensures
        be64(s, at) == be64(s.subrange(at, at + 8), 0),
{
}

} // verus!
