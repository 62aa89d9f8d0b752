//! Wayland wire format: message framing and the `uint` and `string` argument
//! encodings. Multi-byte fields are little-endian, the byte order of every
//! host the proxy runs on.
use vstd::prelude::*;
use vstd::arithmetic::div_mod::lemma_fundamental_div_mod_converse;
use vstd::utf8::*;

verus! {

/// Size of the message header: object id, then opcode and total length.
pub const HEADER_SIZE: usize = 8;

/// One Wayland message. `body` holds the arguments without the header.
#[derive(Debug)]
pub struct Packet {
    pub id: u32,
    pub opcode: u16,
    pub body: Vec<u8>,
}

/// Why a message could not be framed.
#[derive(Debug, Clone, Copy, PartialEq, Eq, Structural)]
pub enum FrameError {
    /// The stream ended inside the second header word.
    HeaderWord2,
    /// The header announces a total length below the header size.
    Length,
    /// The stream ended inside the body.
    Body,
    /// The body is too long for the 16-bit length field.
    TooLong,
}

/// Why an argument could not be decoded.
#[derive(Debug, Clone, Copy, PartialEq, Eq, Structural)]
pub enum ArgError {
    /// The body ended inside a `uint` or a string's length word.
    Uint,
    /// The body ended inside a string's content.
    StringBody,
    /// A string's content is not UTF-8.
    BadUtf8,
}

/// The four little-endian bytes of `x`.
pub open spec fn le32(x: u32) -> Seq<u8> {
    seq![
        (x % 256) as u8,
        ((x / 256) % 256) as u8,
        ((x / 65536) % 256) as u8,
        (x / 16777216) as u8,
    ]
}

/// The two little-endian bytes of `x`.
pub open spec fn le16(x: u16) -> Seq<u8> {
    seq![(x % 256) as u8, (x / 256) as u8]
}

/// The number whose little-endian bytes stand at `b[pos..pos + 4]`.
pub open spec fn u32_at(b: Seq<u8>, pos: int) -> u32 {
    (b[pos] as int + b[pos + 1] as int * 256 + b[pos + 2] as int * 65536 + b[pos + 3] as int
        * 16777216) as u32
}

/// The number whose little-endian bytes stand at `b[pos..pos + 2]`.
pub open spec fn u16_at(b: Seq<u8>, pos: int) -> u16 {
    (b[pos] as int + b[pos + 1] as int * 256) as u16
}

/// `n` rounded up to a multiple of four.
pub open spec fn padded(n: int) -> int {
    (n + 3) / 4 * 4
}

/// Header and body of a message, as they stand on the wire.
pub open spec fn wire(id: u32, opcode: u16, body: Seq<u8>) -> Seq<u8> {
    le32(id) + le16(opcode) + le16((body.len() + 8) as u16) + body
}

/// Abstract value of a message.
pub open spec fn packet_model(p: Packet) -> (u32, u16, Seq<u8>) {
    (p.id, p.opcode, p.body@)
}

/// What a reader of `data` from `pos` on finds: `Ok(None)` where fewer than
/// four bytes are left (the stream has ended), otherwise one message and the
/// position after it, or why there is none.
pub open spec fn packet_at(data: Seq<u8>, pos: int) -> Result<Option<((u32, u16, Seq<u8>), int)>, FrameError> {
    if pos + 4 > data.len() {
        Ok(None)
    } else if pos + 8 > data.len() {
        Err(FrameError::HeaderWord2)
    } else if u16_at(data, pos + 6) < 8 {
        Err(FrameError::Length)
    } else if pos + u16_at(data, pos + 6) > data.len() {
        Err(FrameError::Body)
    } else {
        let end = pos + u16_at(data, pos + 6);
        Ok(Some(((u32_at(data, pos), u16_at(data, pos + 4), data.subrange(pos + 8, end)), end)))
    }
}

/// The encoding of a string argument whose UTF-8 content (without the
/// terminating NUL) is `content`: length word counting the NUL, content, NUL,
/// then zeros up to a multiple of four.
pub open spec fn encode_string(content: Seq<u8>) -> Seq<u8> {
    le32((content.len() + 1) as u32) + content + Seq::new(
        (padded(content.len() + 1int) - content.len()) as nat,
        |i: int| 0u8,
    )
}

/// The encoding of the null string.
pub open spec fn encode_null_string() -> Seq<u8> {
    le32(0)
}

/// What a reader finds at `pos`: `None` where the body ends too early;
/// otherwise the content of the string (`None` for the null string) and the
/// position after it. UTF-8 validity is judged apart.
pub open spec fn string_at(b: Seq<u8>, pos: int) -> Option<(Option<Seq<u8>>, int)> {
    if pos + 4 > b.len() {
        None
    } else if u32_at(b, pos) == 0 {
        Some((None, pos + 4))
    } else if pos + 4 + padded(u32_at(b, pos) as int) > b.len() {
        None
    } else {
        let n = u32_at(b, pos) as int;
        Some((Some(b.subrange(pos + 4, pos + 4 + n - 1)), pos + 4 + padded(n)))
    }
}

/// The string that `read_arg_string` decodes at `pos`, or its error.
pub open spec fn string_arg_at(b: Seq<u8>, pos: int) -> Result<(Option<Seq<char>>, int), ArgError> {
    if pos + 4 > b.len() {
        Err(ArgError::Uint)
    } else {
        match string_at(b, pos) {
            None => Err(ArgError::StringBody),
            Some((None, next)) => Ok((None, next)),
            Some((Some(c), next)) => if valid_utf8(c) {
                Ok((Some(decode_utf8(c)), next))
            } else {
                Err(ArgError::BadUtf8)
            },
        }
    }
}

proof fn lemma_le32(x: u32)
    ensures
        u32_at(le32(x), 0) == x,
{
}

proof fn lemma_le16(x: u16)
    ensures
        u16_at(le16(x), 0) == x,
{
}

/// Takes `size` bytes of `data` at `*pos`, and advances `pos` past them.
/// `None`, with `pos` left as it was, where fewer bytes are left.
fn read(data: &[u8], pos: &mut usize, size: usize) -> (r: Option<Vec<u8>>)
    requires
        *old(pos) <= data@.len(),
    ensures
        r is Some <==> *old(pos) + size <= data@.len(),
        match r {
            Some(v) => v@ == data@.subrange(*old(pos) as int, *old(pos) + size) && *final(pos) == *old(pos) + size,
            None => *old(pos) + size > data@.len() && *final(pos) == *old(pos),
        },
{
    if size > data.len() - *pos {
        return None;
    }
    let mut out: Vec<u8> = Vec::new();
    let start = *pos;
    let mut i: usize = 0;
    while i < size
        invariant
            start + size <= data@.len(),
            data@.len() == data.len(),
            i <= size,
            out@ == data@.subrange(start as int, start + i),
        decreases size - i,
    {
        out.push(data[start + i]);
        i = i + 1;
        assert(out@ =~= data@.subrange(start as int, start + i));
    }
    *pos = start + size;
    Some(out)
}

/// The abstract value of a decoded string argument.
pub open spec fn opt_view(o: Option<String>) -> Option<Seq<char>> {
    match o {
        Some(s) => Some(s@),
        None => None,
    }
}

/// Relies on `String::from_utf8`: it succeeds exactly when the bytes are
/// UTF-8, and the string then holds the characters they encode.
#[verifier::external_body]
fn string_from_utf8(bytes: Vec<u8>) -> (r: Option<String>)
    ensures
        r is Some <==> valid_utf8(bytes@),
        r matches Some(s) ==> s@ == decode_utf8(bytes@),
{
    String::from_utf8(bytes).ok()
}

/// The little-endian `u32` at `b[pos..pos + 4]`.
fn u32_from(b: &[u8], pos: usize) -> (r: u32)
    requires
        pos + 4 <= b@.len(),
    ensures
        r == u32_at(b@, pos as int),
{
    b[pos] as u32 + (b[pos + 1] as u32) * 256 + (b[pos + 2] as u32) * 65536 + (b[pos + 3] as u32)
        * 16777216
}

/// The little-endian `u16` at `b[pos..pos + 2]`.
fn u16_from(b: &[u8], pos: usize) -> (r: u16)
    requires
        pos + 2 <= b@.len(),
    ensures
        r == u16_at(b@, pos as int),
{
    b[pos] as u16 + (b[pos + 1] as u16) * 256
}

/// Decodes a `uint` argument at `*pos` and advances past it.
pub fn read_arg_uint(data: &[u8], pos: &mut usize) -> (r: Result<u32, ArgError>)
    ensures
        *old(pos) + 4 <= data@.len() ==> r == Ok::<u32, ArgError>(u32_at(data@, *old(pos) as int))
            && *final(pos) == *old(pos) + 4,
        *old(pos) + 4 > data@.len() ==> r == Err::<u32, ArgError>(ArgError::Uint) && *final(pos)
            == *old(pos),
{
    if *pos > data.len() || data.len() - *pos < 4 {
        return Err(ArgError::Uint);
    }
    let v = u32_from(data, *pos);
    *pos = *pos + 4;
    Ok(v)
}

/// Appends the encoding of a `uint` argument.
pub fn write_arg_uint(out: &mut Vec<u8>, data: u32)
    ensures
        final(out)@ == old(out)@ + le32(data),
{
    out.push((data % 256) as u8);
    out.push(((data / 256) % 256) as u8);
    out.push(((data / 65536) % 256) as u8);
    out.push((data / 16777216) as u8);
    assert(final(out)@ =~= old(out)@ + le32(data));
}

/// Decodes a string argument at `*pos` and advances past it, padding
/// included. `Ok(None)` is the null string.
pub fn read_arg_string(data: &[u8], pos: &mut usize) -> (r: Result<Option<String>, ArgError>)
    ensures
        match string_arg_at(data@, *old(pos) as int) {
            Ok((v, next)) => r matches Ok(o) && opt_view(o) == v && *final(pos) == next,
            Err(e) => r matches Err(e2) && e2 == e && *final(pos) == *old(pos),
        },
{
    let start = *pos;
    if start > data.len() || data.len() - start < 4 {
        return Err(ArgError::Uint);
    }
    let n = u32_from(data, start);
    if n == 0 {
        *pos = start + 4;
        return Ok(None);
    }
    let padded_n: u64 = (n as u64 + 3) / 4 * 4;
    if padded_n > (data.len() - start - 4) as u64 {
        return Err(ArgError::StringBody);
    }
    let mut p: usize = start + 4;
    let content = read(data, &mut p, (n - 1) as usize);
    match content {
        None => Err(ArgError::StringBody),
        Some(c) => match string_from_utf8(c) {
            None => Err(ArgError::BadUtf8),
            Some(s) => {
                *pos = start + 4 + padded_n as usize;
                Ok(Some(s))
            },
        },
    }
}

/// Appends the encoding of a string argument whose content is `content`.
pub fn write_arg_bytes(out: &mut Vec<u8>, content: &[u8])
    requires
        content@.len() + 4 <= u32::MAX,
    ensures
        final(out)@ == old(out)@ + encode_string(content@),
{
    let n = content.len();
    write_arg_uint(out, (n + 1) as u32);
    let ghost head = out@;
    append_bytes(out, content);
    let total: usize = (n + 4) / 4 * 4;
    let mut j: usize = n;
    while j < total
        invariant
            n == content@.len(),
            total == padded(n + 1),
            n <= j <= total,
            out@ == head + content@ + Seq::new((j - n) as nat, |k: int| 0u8),
        decreases total - j,
    {
        out.push(0u8);
        j = j + 1;
        assert(out@ =~= head + content@ + Seq::new((j - n) as nat, |k: int| 0u8));
    }
    assert(final(out)@ =~= old(out)@ + encode_string(content@));
}

/// Appends the encoding of a string argument holding `data`.
pub fn write_arg_string(out: &mut Vec<u8>, data: &str)
    requires
        encode_utf8(data@).len() + 4 <= u32::MAX,
    ensures
        final(out)@ == old(out)@ + encode_string(encode_utf8(data@)),
{
    write_arg_bytes(out, data.as_bytes());
}

/// The total length announced by a message header, where it is at least the
/// header size.
pub fn frame_size(header: &[u8]) -> (r: Option<usize>)
    ensures
        header@.len() < 8 ==> r is None,
        header@.len() >= 8 && u16_at(header@, 6) >= 8 ==> r == Some(u16_at(header@, 6) as usize),
        header@.len() >= 8 && u16_at(header@, 6) < 8 ==> r is None,
{
    if header.len() < 8 {
        return None;
    }
    let n = u16_from(header, 6);
    if n < 8 {
        None
    } else {
        Some(n as usize)
    }
}

/// Appends the bytes of `b`.
pub fn append_bytes(out: &mut Vec<u8>, b: &[u8])
    ensures
        final(out)@ == old(out)@ + b@,
{
    let ghost head = out@;
    let n = b.len();
    let mut i: usize = 0;
    while i < n
        invariant
            n == b@.len(),
            i <= n,
            out@ == head + b@.subrange(0, i as int),
        decreases n - i,
    {
        out.push(b[i]);
        i = i + 1;
        assert(out@ =~= head + b@.subrange(0, i as int));
    }
    assert(b@.subrange(0, n as int) =~= b@);
}

/// Reads one message from `data` at `*pos` and advances past it.
pub fn read_packet(data: &[u8], pos: &mut usize) -> (r: Result<Option<Packet>, FrameError>)
    ensures
        match packet_at(data@, *old(pos) as int) {
            Ok(None) => r matches Ok(None) && *final(pos) == *old(pos),
            Ok(Some((m, next))) => r matches Ok(Some(p)) && packet_model(p) == m && *final(pos)
                == next,
            Err(e) => r matches Err(e2) && e2 == e && *final(pos) == *old(pos),
        },
{
    let start = *pos;
    if start > data.len() {
        return Ok(None);
    }
    let left = data.len() - start;
    if left < 4 {
        return Ok(None);
    }
    if left < 8 {
        return Err(FrameError::HeaderWord2);
    }
    let size = u16_from(data, start + 6) as usize;
    if size < 8 {
        return Err(FrameError::Length);
    }
    if size > left {
        return Err(FrameError::Body);
    }
    let id = u32_from(data, start);
    let opcode = u16_from(data, start + 4);
    let mut p: usize = start + 8;
    match read(data, &mut p, size - 8) {
        None => Err(FrameError::Body),
        Some(body) => {
            *pos = p;
            Ok(Some(Packet { id, opcode, body }))
        },
    }
}

/// Appends one message, its header length computed from the body.
pub fn write_packet(out: &mut Vec<u8>, data: &Packet) -> (r: Result<(), FrameError>)
    ensures
        data.body@.len() + 8 <= u16::MAX ==> r is Ok && final(out)@ == old(out)@ + wire(
            data.id,
            data.opcode,
            data.body@,
        ),
        data.body@.len() + 8 > u16::MAX ==> r == Err::<(), FrameError>(FrameError::TooLong)
            && final(out)@ == old(out)@,
{
    if data.body.len() > 65527 {
        return Err(FrameError::TooLong);
    }
    let size = (data.body.len() + 8) as u16;
    write_arg_uint(out, data.id);
    out.push((data.opcode % 256) as u8);
    out.push((data.opcode / 256) as u8);
    out.push((size % 256) as u8);
    out.push((size / 256) as u8);
    append_bytes(out, data.body.as_slice());
    assert(final(out)@ =~= old(out)@ + wire(data.id, data.opcode, data.body@));
    Ok(())
}

/// Decoding what `write_arg_bytes` wrote gives the content back, and the
/// encoding fills a whole number of 4-byte words.
pub proof fn lemma_string_bytes_round_trip(content: Seq<u8>, rest: Seq<u8>)
    requires
        content.len() + 4 <= u32::MAX,
    ensures
        string_at(encode_string(content) + rest, 0) == Some(
            (Some(content), encode_string(content).len() as int),
        ),
        encode_string(content).len() % 4 == 0,
        encode_string(content).len() == 4 + padded(content.len() + 1int),
{
    let e = encode_string(content);
    let b = e + rest;
    lemma_le32((content.len() + 1) as u32);
    assert(u32_at(b, 0) == u32_at(le32((content.len() + 1) as u32), 0));
    assert(b.subrange(4, 4 + content.len() as int) =~= content);
}

/// Decoding the encoding of a string gives the same string back, and the
/// encoding fills a whole number of 4-byte words.
pub proof fn lemma_string_round_trip(s: Seq<char>, rest: Seq<u8>)
    requires
        encode_utf8(s).len() + 4 <= u32::MAX,
    ensures
        string_arg_at(encode_string(encode_utf8(s)) + rest, 0) == Ok::<
            (Option<Seq<char>>, int),
            ArgError,
        >((Some(s), encode_string(encode_utf8(s)).len() as int)),
        encode_string(encode_utf8(s)).len() % 4 == 0,
{
    broadcast use encode_utf8_valid_utf8, encode_utf8_decode_utf8;

    lemma_string_bytes_round_trip(encode_utf8(s), rest);
}

/// The null string decodes as the null string.
pub proof fn lemma_null_string_round_trip(rest: Seq<u8>)
    ensures
        string_arg_at(encode_null_string() + rest, 0) == Ok::<(Option<Seq<char>>, int), ArgError>(
            (None, 4),
        ),
        encode_null_string().len() == 4,
{
    lemma_le32(0);
    assert(u32_at(encode_null_string() + rest, 0) == u32_at(le32(0), 0));
}

/// Reading what `write_packet` wrote gives the same message back, whatever
/// follows it on the stream.
pub proof fn lemma_packet_round_trip(id: u32, opcode: u16, body: Seq<u8>, rest: Seq<u8>)
    requires
        body.len() + 8 <= u16::MAX,
    ensures
        packet_at(wire(id, opcode, body) + rest, 0) == Ok::<
            Option<((u32, u16, Seq<u8>), int)>,
            FrameError,
        >(Some(((id, opcode, body), body.len() + 8int))),
{
    let w = wire(id, opcode, body) + rest;
    lemma_le32(id);
    lemma_le16(opcode);
    lemma_le16((body.len() + 8) as u16);
    assert(u32_at(w, 0) == u32_at(le32(id), 0));
    assert(u16_at(w, 4) == u16_at(le16(opcode), 0));
    assert(u16_at(w, 6) == u16_at(le16((body.len() + 8) as u16), 0));
    assert(w.subrange(8, body.len() + 8int) =~= body);
}

/// The header of a framed message announces the body's length plus eight.
pub proof fn lemma_wire_length(id: u32, opcode: u16, body: Seq<u8>)
    requires
        body.len() + 8 <= u16::MAX,
    ensures
        u16_at(wire(id, opcode, body), 6) == body.len() + 8,
{
    lemma_le16((body.len() + 8) as u16);
    assert(u16_at(wire(id, opcode, body), 6) == u16_at(le16((body.len() + 8) as u16), 0));
}

proof fn lemma_u32_bytes(b: Seq<u8>, pos: int)
    requires
        0 <= pos,
        pos + 4 <= b.len(),
    ensures
        le32(u32_at(b, pos)) == b.subrange(pos, pos + 4),
{
    let x = u32_at(b, pos);
    let (b0, b1, b2, b3) = (b[pos] as int, b[pos + 1] as int, b[pos + 2] as int, b[pos + 3] as int);
    let q1 = b1 + b2 * 256 + b3 * 65536;
    let q2 = b2 + b3 * 256;
    assert(x as int == q1 * 256 + b0);
    lemma_fundamental_div_mod_converse(x as int, 256, q1, b0);
    lemma_fundamental_div_mod_converse(x as int, 65536, q2, b0 + b1 * 256);
    lemma_fundamental_div_mod_converse(x as int, 16777216, b3, b0 + b1 * 256 + b2 * 65536);
    lemma_fundamental_div_mod_converse(q1, 256, q2, b1);
    lemma_fundamental_div_mod_converse(q2, 256, b3, b2);
    assert(le32(x) =~= b.subrange(pos, pos + 4));
}

proof fn lemma_u16_bytes(b: Seq<u8>, pos: int)
    requires
        0 <= pos,
        pos + 2 <= b.len(),
    ensures
        le16(u16_at(b, pos)) == b.subrange(pos, pos + 2),
{
    let x = u16_at(b, pos);
    assert(x as int == b[pos] as int + b[pos + 1] as int * 256);
    assert(le16(x) =~= b.subrange(pos, pos + 2));
}

/// Framing a message that was read gives back the very bytes it was read
/// from.
pub proof fn lemma_frame_verbatim(data: Seq<u8>, pos: int)
    requires
        0 <= pos,
        packet_at(data, pos) matches Ok(Some(_)),
    ensures
        packet_at(data, pos) matches Ok(Some(((id, opcode, body), end))) && wire(id, opcode, body)
            == data.subrange(pos, end),
{
    let end = pos + u16_at(data, pos + 6);
    lemma_u32_bytes(data, pos);
    lemma_u16_bytes(data, pos + 4);
    lemma_u16_bytes(data, pos + 6);
    let body = data.subrange(pos + 8, end);
    assert(body.len() + 8 == u16_at(data, pos + 6));
    assert(wire(u32_at(data, pos), u16_at(data, pos + 4), body) =~= data.subrange(pos, end));
}

/// UTF-8 encoding distributes over concatenation.
pub proof fn lemma_encode_utf8_concat(a: Seq<char>, b: Seq<char>)
    ensures
        encode_utf8(a + b) == encode_utf8(a) + encode_utf8(b),
    decreases a.len(),
{
    if a.len() == 0 {
        assert(a + b =~= b);
        assert(encode_utf8(a) + encode_utf8(b) =~= encode_utf8(b));
    } else {
        assert((a + b).drop_first() =~= a.drop_first() + b);
        lemma_encode_utf8_concat(a.drop_first(), b);
        assert(encode_utf8(a + b) =~= encode_utf8(a) + encode_utf8(b));
    }
}

} // verus!
