//! WebSocket frame codec: opcodes, payload masking, header parsing and
//! serialization, and the upgrade handshake bookkeeping.

use vstd::prelude::*;
use vstd::pervasive::VecAdditionalExecFns;
use vstd::slice::slice_to_vec;
use vstd::utf8::encode_utf8;

use crate::digits::str_eq;

verus! {

/// The opcode of a websocket frame.
#[derive(Debug, PartialEq, Eq, Structural, Copy, Clone)]
pub enum OpCode {
    /// A fragmented frame
    Continuation,
    /// A non-fragmented text frame
    Text,
    /// A non-fragmented binary frame
    Binary,
    /// A closing frame
    Close,
    /// A ping frame
    Ping,
    /// A pong frame
    Pong,
}

/// The errors with which a malformed or unsupported frame is refused.
#[derive(Debug, PartialEq, Eq, Structural, Copy, Clone)]
pub enum ProtocolError {
    /// A frame with nonzero reserved extension bits.
    UnsupportedExtensions,
    /// A frame whose low opcode nibble is not an assigned opcode.
    UnknownOpCode(u8),
    /// A control frame without the final bit.
    FragmentedControlFrame,
    /// A control frame with a payload of more than 125 bytes.
    OversizedControlFrame,
}

impl OpCode {
    /// The four-bit value that stands for this opcode on the wire.
    pub open spec fn spec_number(self) -> u8 {
        match self {
            OpCode::Continuation => 0,
            OpCode::Text => 1,
            OpCode::Binary => 2,
            OpCode::Close => 8,
            OpCode::Ping => 9,
            OpCode::Pong => 10,
        }
    }

    /// Returns the four-bit opcode value used on the wire.
    pub fn number(self) -> (n: u8)
        ensures
            n == self.spec_number(),
    {
        match self {
            OpCode::Continuation => 0,
            OpCode::Text => 1,
            OpCode::Binary => 2,
            OpCode::Close => 8,
            OpCode::Ping => 9,
            OpCode::Pong => 10,
        }
    }

    /// True exactly for Close, Ping and Pong.
    pub open spec fn spec_is_control(self) -> bool {
        self == OpCode::Close || self == OpCode::Ping || self == OpCode::Pong
    }

    /// Tells whether it is a control frame or not
    pub fn is_control(self) -> (r: bool)
        ensures
            r == self.spec_is_control(),
    {
        match self {
            OpCode::Close | OpCode::Ping | OpCode::Pong => true,
            _ => false,
        }
    }
}

/// The payload of a frame after masking: byte `i` is XORed with `mask[i % 4]`.
/// An absent mask leaves the payload unchanged.
pub open spec fn apply_mask_spec(data: Seq<u8>, mask: Option<[u8; 4]>) -> Seq<u8> {
    match mask {
        Option::None => data,
        Option::Some(m) => Seq::new(data.len(), |i: int| data[i] ^ m@[i % 4]),
    }
}

/// XORs each payload byte with `mask[i % 4]`, in place; a missing mask is a
/// no-op. Equal to the naive byte-wise reference algorithm for every buffer
/// length and alignment, and its own inverse.
pub fn mask_bytes(mask: Option<[u8; 4]>, data: &mut Vec<u8>)
    ensures
        final(data)@ == apply_mask_spec(old(data)@, mask),
{
    let m = match mask {
        Option::None => {
            assert(data@ =~= apply_mask_spec(data@, mask));
            return;
        },
        Option::Some(m) => m,
    };

    let len = data.len();
    let mut i: usize = 0;
    while i < len
        invariant
            len == data@.len(),
            len == old(data)@.len(),
            i <= len,
            forall|j: int| 0 <= j < i ==> data@[j] == old(data)@[j] ^ m@[j % 4],
            forall|j: int| i <= j < len ==> data@[j] == old(data)@[j],
        decreases len - i,
    {
        let b = data[i] ^ m[i % 4];
        data.set(i, b);
        i += 1;
    }
    assert(data@ =~= apply_mask_spec(old(data)@, mask));
}

/// The second header byte's mask-present bit.
pub open spec fn spec_mask_bit(mask: Option<[u8; 4]>) -> u8 {
    if mask is Some {
        0x80u8
    } else {
        0x00u8
    }
}

/// The length coding of the header: one byte for payloads up to 125 bytes, a
/// 16-bit big-endian extension for payloads up to 65535 bytes, and a 64-bit
/// big-endian extension beyond that.
pub open spec fn spec_len_bytes(mask_bit: u8, len: nat) -> Seq<u8> {
    if len < 126 {
        seq![mask_bit | (len as u8)]
    } else if len <= 0xFFFF {
        seq![mask_bit | 126u8, ((len as u16) >> 8u16) as u8, (len as u16) as u8]
    } else {
        seq![
            mask_bit | 127u8,
            ((len as u64) >> 56u64) as u8,
            ((len as u64) >> 48u64) as u8,
            ((len as u64) >> 40u64) as u8,
            ((len as u64) >> 32u64) as u8,
            ((len as u64) >> 24u64) as u8,
            ((len as u64) >> 16u64) as u8,
            ((len as u64) >> 8u64) as u8,
            (len as u64) as u8,
        ]
    }
}

/// The mask bytes of the header: the four mask bytes when present, else nothing.
pub open spec fn spec_mask_bytes(mask: Option<[u8; 4]>) -> Seq<u8> {
    match mask {
        Option::None => Seq::<u8>::empty(),
        Option::Some(m) => m@,
    }
}

/// The serialized header of a non-fragmented frame (fin always set).
pub open spec fn spec_frame_header_bytes(mask: Option<[u8; 4]>, len: nat, op: OpCode) -> Seq<u8> {
    seq![0x80u8 | op.spec_number()] + spec_len_bytes(spec_mask_bit(mask), len) + spec_mask_bytes(
        mask,
    )
}

/// A complete serialized frame: the header followed by the masked payload.
pub open spec fn spec_frame_bytes(mask: Option<[u8; 4]>, data: Seq<u8>, op: OpCode) -> Seq<u8> {
    spec_frame_header_bytes(mask, data.len(), op) + apply_mask_spec(data, mask)
}

/// Can be used to create a complete WebSocket Frame.
///
/// Takes an optional mask, the data and the frame type. Building a control
/// frame whose payload exceeds 125 bytes is refused; every other input yields
/// exactly the serialized frame, fin always set.
pub fn create_frame(mask: Option<[u8; 4]>, data: &[u8], frametype: OpCode) -> (r: Result<
    Vec<u8>,
    ProtocolError,
>)
    ensures
        frametype.spec_is_control() && data@.len() > 125 <==> r is Err,
        r matches Err(e) ==> e == ProtocolError::OversizedControlFrame,
        r matches Ok(frame) ==> frame@ == spec_frame_bytes(mask, data@, frametype),
{
    let len = data.len();
    if frametype.is_control() && len > 125 {
        return Err(ProtocolError::OversizedControlFrame);
    }

    let first_byte: u8 = 0x80u8 | frametype.number();
    let mask_bit: u8 = if mask.is_some() {
        0x80
    } else {
        0x00
    };

    let mut buf: Vec<u8> = Vec::new();
    buf.push(first_byte);

    if len < 126 {
        buf.push(mask_bit | (len as u8));
    } else if len <= 0xFFFF {
        buf.push(mask_bit | 126u8);
        buf.push(((len as u16) >> 8u16) as u8);
        buf.push((len as u16) as u8);
    } else {
        buf.push(mask_bit | 127u8);
        buf.push(((len as u64) >> 56u64) as u8);
        buf.push(((len as u64) >> 48u64) as u8);
        buf.push(((len as u64) >> 40u64) as u8);
        buf.push(((len as u64) >> 32u64) as u8);
        buf.push(((len as u64) >> 24u64) as u8);
        buf.push(((len as u64) >> 16u64) as u8);
        buf.push(((len as u64) >> 8u64) as u8);
        buf.push((len as u64) as u8);
    }

    if let Option::Some(m) = mask {
        buf.push(m[0]);
        buf.push(m[1]);
        buf.push(m[2]);
        buf.push(m[3]);
    }

    assert(buf@ =~= spec_frame_header_bytes(mask, data@.len(), frametype));

    let mut payload = slice_to_vec(data);
    mask_bytes(mask, &mut payload);
    buf.append(&mut payload);

    assert(buf@ =~= spec_frame_bytes(mask, data@, frametype));
    Ok(buf)
}

/// Represents the header of a websocket frame
#[derive(Debug, PartialEq, Clone)]
pub struct FrameHeader {
    /// True if the frame is either non-fragmented, or the last fragment
    pub fin: bool,
    /// The optional mask of the frame
    pub mask: Option<[u8; 4]>,
    /// The frametype
    pub frametype: OpCode,
    /// The length of the header (without payload).
    pub header_len: u8,
    /// The length of the payload.
    pub payload_len: usize,
}

/// The opcode assigned to a four-bit wire value, if any.
pub open spec fn spec_opcode_of(n: u8) -> Option<OpCode> {
    if n == 0 {
        Option::Some(OpCode::Continuation)
    } else if n == 1 {
        Option::Some(OpCode::Text)
    } else if n == 2 {
        Option::Some(OpCode::Binary)
    } else if n == 8 {
        Option::Some(OpCode::Close)
    } else if n == 9 {
        Option::Some(OpCode::Ping)
    } else if n == 10 {
        Option::Some(OpCode::Pong)
    } else {
        Option::None
    }
}

/// The payload length that the length coding of a header announces, once
/// enough bytes are present: the literal 7-bit code, or the 16-bit or 64-bit
/// big-endian extension that the codes 126 and 127 select.
pub open spec fn spec_decoded_payload_len(data: Seq<u8>) -> usize {
    let len_code = data[1] & 0x7f;
    if len_code == 126 {
        (((data[2] as u16) << 8u16) | (data[3] as u16)) as usize
    } else if len_code == 127 {
        (((data[2] as u64) << 56u64) | ((data[3] as u64) << 48u64) | ((data[4] as u64) << 40u64)
            | ((data[5] as u64) << 32u64) | ((data[6] as u64) << 24u64) | ((data[7] as u64)
            << 16u64) | ((data[8] as u64) << 8u64) | (data[9] as u64)) as usize
    } else {
        len_code as usize
    }
}

/// What parsing a frame header from a byte prefix yields: the header, the
/// exact count of additional bytes still required, or a protocol error.
/// Mirrors the staged wire layout: two fixed bytes, then the extended length,
/// then the mask.
pub open spec fn spec_parse_frame_header(data: Seq<u8>) -> Result<
    Result<FrameHeader, usize>,
    ProtocolError,
> {
    if data.len() < 2 {
        Result::Ok(Result::Err((2 - data.len()) as usize))
    } else if data[0] & 0x70 != 0 {
        Result::Err(ProtocolError::UnsupportedExtensions)
    } else {
        let fin = data[0] & 0x80 != 0;
        match spec_opcode_of(data[0] & 0x0f) {
            Option::None => Result::Err(ProtocolError::UnknownOpCode(data[0] & 0x0f)),
            Option::Some(frametype) => {
                if !fin && frametype.spec_is_control() {
                    Result::Err(ProtocolError::FragmentedControlFrame)
                } else {
                    let mask_bit = data[1] & 0x80 != 0;
                    let len_code = data[1] & 0x7f;
                    if len_code == 126 && data.len() < 4 {
                        Result::Ok(Result::Err((4 - data.len()) as usize))
                    } else if len_code == 127 && data.len() < 10 {
                        Result::Ok(Result::Err((10 - data.len()) as usize))
                    } else {
                        let payload_len: usize = spec_decoded_payload_len(data);
                        let mask_offset: int = if len_code == 126 {
                            4
                        } else if len_code == 127 {
                            10
                        } else {
                            2
                        };
                        if payload_len > 125 && frametype.spec_is_control() {
                            Result::Err(ProtocolError::OversizedControlFrame)
                        } else if mask_bit && data.len() < mask_offset + 4 {
                            Result::Ok(Result::Err((mask_offset + 4 - data.len()) as usize))
                        } else {
                            let mask = if mask_bit {
                                Option::Some(
                                    [
                                        data[mask_offset],
                                        data[mask_offset + 1],
                                        data[mask_offset + 2],
                                        data[mask_offset + 3],
                                    ],
                                )
                            } else {
                                Option::None
                            };
                            let header_len = mask_offset + if mask_bit {
                                4int
                            } else {
                                0int
                            };
                            Result::Ok(
                                Result::Ok(
                                    FrameHeader {
                                        fin,
                                        mask,
                                        frametype,
                                        header_len: header_len as u8,
                                        payload_len,
                                    },
                                ),
                            )
                        }
                    }
                }
            },
        }
    }
}

impl FrameHeader {
    /// Returns true if the frame is a control frame.
    pub fn is_control_frame(&self) -> (r: bool)
        ensures
            r == self.frametype.spec_is_control(),
    {
        self.frametype.is_control()
    }

    /// Tries to parse a FrameHeader from bytes.
    ///
    /// When there are not enough bytes to completely parse the header,
    /// returns Ok(Err(size)) where size determines how many bytes
    /// are missing to parse further (this amount can change when more
    /// information is available).
    pub fn try_from_bytes(data: &[u8]) -> (r: Result<Result<FrameHeader, usize>, ProtocolError>)
        ensures
            r == spec_parse_frame_header(data@),
    {
        let len = data.len();
        if len < 2 {
            return Ok(Err(2 - len));
        }

        // we do not support extensions
        if data[0] & 0x70 != 0 {
            return Err(ProtocolError::UnsupportedExtensions);
        }

        let fin = data[0] & 0x80 != 0;
        let opnum = data[0] & 0x0f;
        let frametype = match opnum {
            0 => OpCode::Continuation,
            1 => OpCode::Text,
            2 => OpCode::Binary,
            8 => OpCode::Close,
            9 => OpCode::Ping,
            10 => OpCode::Pong,
            other => {
                return Err(ProtocolError::UnknownOpCode(other));
            },
        };

        if !fin && frametype.is_control() {
            return Err(ProtocolError::FragmentedControlFrame);
        }

        let mask_bit = data[1] & 0x80 != 0;
        let mut mask_offset: usize = 2;
        let len_code = data[1] & 0x7f;

        let mut payload_len: usize = len_code as usize;
        if len_code == 126 {
            if len < 4 {
                return Ok(Err(4 - len));
            }
            payload_len = (((data[2] as u16) << 8u16) | (data[3] as u16)) as usize;
            mask_offset += 2;
        } else if len_code == 127 {
            if len < 10 {
                return Ok(Err(10 - len));
            }
            payload_len = (((data[2] as u64) << 56u64) | ((data[3] as u64) << 48u64) | ((
            data[4] as u64) << 40u64) | ((data[5] as u64) << 32u64) | ((data[6] as u64) << 24u64)
                | ((data[7] as u64) << 16u64) | ((data[8] as u64) << 8u64) | (data[9] as u64))
                as usize;
            mask_offset += 8;
        }

        if payload_len > 125 && frametype.is_control() {
            return Err(ProtocolError::OversizedControlFrame);
        }

        let mask = if mask_bit {
            if len < mask_offset + 4 {
                return Ok(Err(mask_offset + 4 - len));
            }
            Some(
                [
                    data[mask_offset],
                    data[mask_offset + 1],
                    data[mask_offset + 2],
                    data[mask_offset + 3],
                ],
            )
        } else {
            None
        };

        let header_len: usize = if mask_bit {
            mask_offset + 4
        } else {
            mask_offset
        };

        Ok(
            Ok(
                FrameHeader {
                    fin,
                    mask,
                    frametype,
                    header_len: header_len as u8,
                    payload_len,
                },
            ),
        )
    }
}

/// Encodes outgoing data as websocket frames.
///
/// Every logical write becomes exactly one complete frame, without
/// fragmentation; at most one frame is in flight, and a write only completes
/// once the whole encoded frame has reached the sink. The surrounding event
/// loop owns the sink and reports how many bytes it accepted.
pub struct WebSocketWriter {
    /// Whether data frames are sent as text frames rather than binary frames.
    pub text: bool,
    /// The mask applied to every outgoing data frame.
    pub mask: Option<[u8; 4]>,
    /// The in-flight frame: its serialized bytes, how many of them already
    /// reached the sink, and the payload length the caller handed in.
    pub frame: Option<(Vec<u8>, usize, usize)>,
}

impl WebSocketWriter {
    /// The write offset never runs past the in-flight frame.
    pub open spec fn wf(&self) -> bool {
        self.frame matches Some((buf, pos, _)) ==> pos <= buf@.len()
    }

    /// The opcode with which data frames are sent.
    pub open spec fn spec_data_opcode(&self) -> OpCode {
        if self.text {
            OpCode::Text
        } else {
            OpCode::Binary
        }
    }

    /// Creates a new WebSocketWriter which will use the given mask (if any),
    /// and mark the frames as either 'Text' or 'Binary'
    pub fn new(mask: Option<[u8; 4]>, text: bool) -> (w: WebSocketWriter)
        ensures
            w.text == text,
            w.mask == mask,
            w.frame is None,
            w.wf(),
    {
        WebSocketWriter { text, mask, frame: None }
    }

    /// Starts a write: when no frame is in flight, the data is encoded as one
    /// complete frame that now waits to be flushed; an in-flight frame is left
    /// exactly as it is. Data frames are never control frames, so encoding
    /// cannot fail.
    pub fn begin_write(&mut self, data: &[u8])
        requires
            old(self).wf(),
        ensures
            final(self).text == old(self).text,
            final(self).mask == old(self).mask,
            final(self).wf(),
            old(self).frame is Some ==> final(self).frame == old(self).frame,
            old(self).frame is None ==> (final(self).frame matches Some((buf, pos, origsize))
                && buf@ == spec_frame_bytes(old(self).mask, data@, old(self).spec_data_opcode())
                && pos == 0 && origsize == data@.len()),
    {
        if self.frame.is_none() {
            let frametype = if self.text {
                OpCode::Text
            } else {
                OpCode::Binary
            };
            let frame = match create_frame(self.mask, data, frametype) {
                Ok(f) => f,
                Err(_) => {
                    proof {
                        assert(!frametype.spec_is_control());
                    }
                    unreached()
                },
            };
            self.frame = Some((frame, 0, data.len()));
        }
    }

    /// Records that the sink accepted `n` more bytes of the in-flight frame.
    /// When the frame is now fully flushed, drops it and returns the payload
    /// length that the write call must report; otherwise keeps the frame with
    /// the advanced offset.
    pub fn sink_advanced(&mut self, n: usize) -> (done: Option<usize>)
        requires
            old(self).wf(),
            old(self).frame is Some,
            n <= (old(self).frame->Some_0.0)@.len() - old(self).frame->Some_0.1,
        ensures
            final(self).text == old(self).text,
            final(self).mask == old(self).mask,
            final(self).wf(),
            ({
                let (buf, pos, origsize) = old(self).frame->Some_0;
                if pos + n == buf@.len() {
                    final(self).frame is None && done == Some(origsize)
                } else {
                    done is None && (final(self).frame matches Some((b, p, o)) && b == buf && p
                        == pos + n && o == origsize)
                }
            }),
    {
        let (buf, pos, origsize) = match self.frame.take() {
            Some(f) => f,
            None => unreached(),
        };
        let buf_len = buf.len();
        let pos = pos + n;
        if pos == buf_len {
            Some(origsize)
        } else {
            self.frame = Some((buf, pos, origsize));
            None
        }
    }
}

/// One decoding step of the websocket reader: either data-frame payload for
/// the caller, a control frame for the side channel, a request for more input,
/// or a fatal protocol error.
pub enum ReadStep {
    /// Nothing can be decoded until more bytes arrive from the source.
    NeedData,
    /// A chunk of data-frame payload, already unmasked.
    Data(Vec<u8>),
    /// A complete control frame, already unmasked; it is never surfaced as
    /// data.
    Control(OpCode, Vec<u8>),
    /// The frame stream is malformed; the connection is beyond repair.
    Fault(ProtocolError),
}

/// How one reader step treats a frame whose header `h` is known, with `buf`
/// the bytes buffered behind the header and `max` the space the caller has:
/// control frames wait for their full payload and leave on the side channel;
/// data frames hand out `min(max, min(remaining, buffered))` unmasked bytes
/// immediately.
pub open spec fn reader_post(
    h: FrameHeader,
    buf: Seq<u8>,
    max: usize,
    post_buf: Seq<u8>,
    post_hdr: Option<FrameHeader>,
    r: ReadStep,
) -> bool {
    if h.frametype.spec_is_control() {
        if buf.len() >= h.payload_len {
            &&& r matches ReadStep::Control(op, p) && op == h.frametype && p@ == apply_mask_spec(
                buf.take(h.payload_len as int),
                h.mask,
            )
            &&& post_buf == buf.skip(h.payload_len as int)
            &&& post_hdr is None
        } else {
            &&& r is NeedData
            &&& post_buf == buf
            &&& post_hdr == Some(h)
        }
    } else {
        if buf.len() == 0 && h.payload_len > 0 {
            &&& r is NeedData
            &&& post_buf == buf
            &&& post_hdr == Some(h)
        } else {
            let n = spec_min3(max as int, h.payload_len as int, buf.len() as int);
            &&& r matches ReadStep::Data(p) && p@ == apply_mask_spec(buf.take(n), h.mask)
            &&& post_buf == buf.skip(n)
            &&& (if h.payload_len > n {
                post_hdr == Some(
                    FrameHeader {
                        payload_len: (h.payload_len - n) as usize,
                        ..h
                    },
                )
            } else {
                post_hdr is None
            })
        }
    }
}

/// The least of three lengths.
pub open spec fn spec_min3(a: int, b: int, c: int) -> int {
    if a <= b && a <= c {
        a
    } else if b <= c {
        b
    } else {
        c
    }
}

/// Decodes a websocket frame stream: demultiplexes data bytes from control
/// frames, carrying a partially consumed header across reads when a payload
/// spans several reads of the source.
///
/// The surrounding event loop feeds bytes from the source and dispatches each
/// step's result; the reader itself never suspends.
pub struct WebSocketReader {
    /// Received bytes not yet decoded.
    pub read_buffer: Vec<u8>,
    /// The header of the frame whose payload is still being consumed; its
    /// `payload_len` counts the bytes still owed.
    pub header: Option<FrameHeader>,
}

impl WebSocketReader {
    /// Creates a reader with nothing buffered and no frame pending.
    pub fn new() -> (r: WebSocketReader)
        ensures
            r.read_buffer@ == Seq::<u8>::empty(),
            r.header is None,
    {
        WebSocketReader { read_buffer: Vec::new(), header: None }
    }

    /// Hands the reader bytes that arrived from the source.
    pub fn feed(&mut self, input: &[u8])
        ensures
            final(self).read_buffer@ == old(self).read_buffer@ + input@,
            final(self).header == old(self).header,
    {
        let mut tail = slice_to_vec(input);
        self.read_buffer.append(&mut tail);
    }

    /// One decoding step, with `max` the space the caller has for data bytes.
    ///
    /// When no header is pending, a header is first parsed from the buffered
    /// bytes; incomplete bytes ask for more input and a malformed header is a
    /// fatal fault. The frame is then consumed as [`reader_post`] states:
    /// control frames are completed, unmasked and returned whole for the side
    /// channel, data frames are handed out in unmasked chunks as they arrive.
    pub fn next_step(&mut self, max: usize) -> (r: ReadStep)
        ensures
            ({
                let buf0 = old(self).read_buffer@;
                match old(self).header {
                    Some(h) => reader_post(
                        h,
                        buf0,
                        max,
                        final(self).read_buffer@,
                        final(self).header,
                        r,
                    ),
                    None => match spec_parse_frame_header(buf0) {
                        Result::Err(e) => r == ReadStep::Fault(e) && final(self).read_buffer@
                            == buf0 && final(self).header is None,
                        Result::Ok(Result::Err(_)) => r is NeedData && final(self).read_buffer@
                            == buf0 && final(self).header is None,
                        Result::Ok(Result::Ok(h)) => reader_post(
                            h,
                            buf0.skip(h.header_len as int),
                            max,
                            final(self).read_buffer@,
                            final(self).header,
                            r,
                        ),
                    },
                }
            }),
    {
        let header = match self.header.take() {
            Some(header) => header,
            None => {
                let header = match FrameHeader::try_from_bytes(self.read_buffer.as_slice()) {
                    Ok(Ok(header)) => header,
                    Ok(Err(_)) => {
                        return ReadStep::NeedData;
                    },
                    Err(e) => {
                        return ReadStep::Fault(e);
                    },
                };
                proof {
                    lemma_parsed_header_len_bounded(self.read_buffer@);
                }
                let rest = self.read_buffer.split_off(header.header_len as usize);
                self.read_buffer = rest;
                header
            },
        };

        if header.frametype.is_control() {
            if self.read_buffer.len() >= header.payload_len {
                let mut data: Vec<u8> = Vec::new();
                core::mem::swap(&mut data, &mut self.read_buffer);
                let rest = data.split_off(header.payload_len);
                self.read_buffer = rest;
                mask_bytes(header.mask, &mut data);
                return ReadStep::Control(header.frametype, data);
            } else {
                self.header = Some(header);
                return ReadStep::NeedData;
            }
        }

        if self.read_buffer.len() == 0 && header.payload_len > 0 {
            self.header = Some(header);
            return ReadStep::NeedData;
        }

        let mut n = header.payload_len;
        if max < n {
            n = max;
        }
        if self.read_buffer.len() < n {
            n = self.read_buffer.len();
        }

        let mut data: Vec<u8> = Vec::new();
        core::mem::swap(&mut data, &mut self.read_buffer);
        let rest = data.split_off(n);
        self.read_buffer = rest;
        mask_bytes(header.mask, &mut data);

        if header.payload_len > n {
            self.header = Some(
                FrameHeader {
                    payload_len: header.payload_len - n,
                    ..header
                },
            );
        }
        ReadStep::Data(data)
    }
}

/// A parsed header never claims to be longer than the bytes it was parsed
/// from.
proof fn lemma_parsed_header_len_bounded(data: Seq<u8>)
    ensures
        spec_parse_frame_header(data) matches Ok(Ok(h)) ==> 2 <= h.header_len <= data.len(),
{
}

/// Global Identifier for WebSockets, see RFC6455
pub const MAGIC_WEBSOCKET_GUID: &'static str = "258EAFA5-E914-47DA-95CA-C5AB0DC85B11";

/// The SHA-1 digest of a byte sequence. SHA-1 is a pure function of its
/// input, computed by the linked cryptography library; nothing further is
/// assumed about its value.
pub uninterp spec fn sha1_of(data: Seq<u8>) -> Seq<u8>;

/// Relies on openssl::sha::sha1: the 20-byte SHA-1 digest of the input, a
/// function of the input bytes alone.
#[verifier::external_body]
fn sha1(data: &[u8]) -> (r: [u8; 20])
    ensures
        r@ == sha1_of(data@),
{
    openssl::sha::sha1(data)
}

/// The base64 coding (standard alphabet, padded) of a byte sequence, as the
/// linked base64 library computes it: a pure function of the input bytes.
pub uninterp spec fn base64_of(data: Seq<u8>) -> Seq<char>;

/// Relies on base64::encode: the standard, padded base64 coding of the input,
/// a function of the input bytes alone. The length bound keeps the output
/// size computation, four characters for every three bytes, from overflowing,
/// on which the library would panic.
#[verifier::external_body]
fn base64_encode(data: &[u8]) -> (r: String)
    requires
        data@.len() <= usize::MAX / 8,
    ensures
        r@ == base64_of(data@),
{
    base64::encode(data)
}

/// The bytes hashed for the accept key: the client's key with the RFC 6455
/// GUID appended.
pub open spec fn spec_accept_key_input(key: Seq<char>) -> Seq<u8> {
    encode_utf8(key) + encode_utf8(MAGIC_WEBSOCKET_GUID@)
}

/// Computes the `Sec-WebSocket-Accept` value owed for a client key:
/// base64(SHA-1(key ++ RFC 6455 magic GUID)).
pub fn websocket_accept_key(key: &str) -> (r: String)
    ensures
        r@ == base64_of(sha1_of(spec_accept_key_input(key@))),
{
    let mut data = key.as_bytes_vec();
    let mut guid = MAGIC_WEBSOCKET_GUID.as_bytes_vec();
    data.append(&mut guid);
    assert(data@ =~= spec_accept_key_input(key@));
    let digest = sha1(data.as_slice());
    base64_encode(digest.as_slice())
}

/// The upgrade request headers that the websocket handshake reads, each
/// `None` when the request lacks the header.
#[derive(Debug, Clone)]
pub struct UpgradeRequest {
    /// The `Upgrade` header value.
    pub upgrade: Option<String>,
    /// The `Sec-WebSocket-Version` header value.
    pub version: Option<String>,
    /// The `Sec-WebSocket-Key` header value.
    pub key: Option<String>,
    /// The `Sec-WebSocket-Protocol` header value.
    pub protocol: Option<String>,
}

/// The variable parts of the `101 Switching Protocols` response: the computed
/// `Sec-WebSocket-Accept` value and the echoed `Sec-WebSocket-Protocol`. The
/// response further carries `Upgrade: websocket` and `Connection: Upgrade`.
#[derive(Debug, Clone)]
pub struct UpgradeResponse {
    /// The computed `Sec-WebSocket-Accept` value.
    pub accept_key: String,
    /// The echoed subprotocol.
    pub protocol: String,
}

/// The ways a websocket upgrade request is refused; no connection is promoted
/// on any of them.
#[derive(Debug, PartialEq, Eq, Structural, Copy, Clone)]
pub enum HandshakeError {
    /// The `Upgrade` header is missing.
    MissingUpgrade,
    /// The `Sec-WebSocket-Version` header is missing.
    MissingVersion,
    /// The `Sec-WebSocket-Key` header is missing.
    MissingKey,
    /// The `Sec-WebSocket-Protocol` header is missing.
    MissingProtocol,
    /// The `Upgrade` header names a protocol other than `websocket`.
    InvalidProtocolName,
    /// The `Sec-WebSocket-Version` header is not `13`.
    InvalidVersion,
}

/// Provides methods for connecting a WebSocket endpoint with another
#[derive(Debug, Clone, Copy)]
pub struct WebSocket {
    /// Whether data frames are sent as text frames rather than binary frames.
    pub text: bool,
}

impl WebSocket {
    /// Returns a new WebSocket instance and the correct response values for
    /// the upgrade request: the handshake requires `Upgrade: websocket`,
    /// version `13`, a key and a subprotocol; the subprotocol `text` selects
    /// text framing, anything else binary; the accept key is
    /// base64(SHA-1(key ++ GUID)) and the subprotocol is echoed. Any missing
    /// or mismatched header refuses the handshake.
    pub fn new(request: UpgradeRequest) -> (r: Result<
        (WebSocket, UpgradeResponse),
        HandshakeError,
    >)
        ensures
            r is Ok <==> ((request.upgrade matches Some(u) && u@ == "websocket"@) && (
            request.version matches Some(v) && v@ == "13"@) && request.key is Some
                && request.protocol is Some),
            r matches Ok((ws, resp)) ==> ({
                &&& ws.text == (request.protocol->Some_0@ == "text"@)
                &&& resp.protocol@ == request.protocol->Some_0@
                &&& resp.accept_key@ == base64_of(
                    sha1_of(spec_accept_key_input(request.key->Some_0@)),
                )
            }),
            r matches Err(e) ==> match e {
                HandshakeError::MissingUpgrade => request.upgrade is None,
                HandshakeError::MissingVersion => request.upgrade is Some && request.version
                    is None,
                HandshakeError::MissingKey => request.upgrade is Some && request.version is Some
                    && request.key is None,
                HandshakeError::MissingProtocol => request.upgrade is Some && request.version
                    is Some && request.key is Some && request.protocol is None,
                HandshakeError::InvalidProtocolName => (request.upgrade matches Some(u) && u@
                    != "websocket"@) && request.version is Some && request.key is Some
                    && request.protocol is Some,
                HandshakeError::InvalidVersion => (request.upgrade matches Some(u) && u@
                    == "websocket"@) && (request.version matches Some(v) && v@ != "13"@)
                    && request.key is Some && request.protocol is Some,
            },
    {
        let protocols = match &request.upgrade {
            Some(p) => p,
            None => {
                return Err(HandshakeError::MissingUpgrade);
            },
        };

        let version = match &request.version {
            Some(v) => v,
            None => {
                return Err(HandshakeError::MissingVersion);
            },
        };

        let key = match &request.key {
            Some(k) => k,
            None => {
                return Err(HandshakeError::MissingKey);
            },
        };

        let ws_proto = match &request.protocol {
            Some(p) => p,
            None => {
                return Err(HandshakeError::MissingProtocol);
            },
        };

        let text = str_eq(ws_proto.as_str(), "text");

        if !str_eq(protocols.as_str(), "websocket") {
            return Err(HandshakeError::InvalidProtocolName);
        }

        if !str_eq(version.as_str(), "13") {
            return Err(HandshakeError::InvalidVersion);
        }

        let accept_key = websocket_accept_key(key.as_str());
        let protocol = ws_proto.clone();

        Ok((WebSocket { text }, UpgradeResponse { accept_key, protocol }))
    }
}

/// What the relay does with a control frame picked off the side channel: a
/// Ping is answered with a Pong and the relay continues, a Close is answered
/// with a Close and the relay ends, everything else is ignored.
#[derive(Debug, PartialEq, Eq, Structural, Copy, Clone)]
pub enum ControlDisposition {
    /// Echo the payload in a Pong frame and continue relaying.
    ReplyPong,
    /// Echo the payload in a Close frame and end the relay, the close now
    /// counting as sent.
    ReplyCloseAndEnd,
    /// Drop the frame and continue relaying.
    Ignore,
}

/// Decides the relay's answer to a control frame from the side channel.
pub fn control_reply(opcode: OpCode) -> (r: ControlDisposition)
    ensures
        (r == ControlDisposition::ReplyPong) <==> opcode == OpCode::Ping,
        (r == ControlDisposition::ReplyCloseAndEnd) <==> opcode == OpCode::Close,
        (r == ControlDisposition::Ignore) <==> (opcode != OpCode::Ping && opcode != OpCode::Close),
    {
    match opcode {
        OpCode::Ping => ControlDisposition::ReplyPong,
        OpCode::Close => ControlDisposition::ReplyCloseAndEnd,
        _ => ControlDisposition::Ignore,
    }
}

/// The frame the relay owes when its sending task ends: if no Close went out
/// yet (the downstream reached EOF without a client-initiated Close), a Close
/// frame with payload `[0x03, 0xE8]` (status 1000) must be sent before the
/// connection closes; after a sent Close, nothing.
pub fn relay_close_frame(sent_close: bool) -> (r: Option<Vec<u8>>)
    ensures
        !sent_close ==> (r matches Some(f) && f@ == spec_frame_bytes(
            Option::None,
            seq![0x03u8, 0xE8u8],
            OpCode::Close,
        )),
        sent_close ==> r is None,
{
    if sent_close {
        None
    } else {
        let mut payload: Vec<u8> = Vec::new();
        payload.push(0x03);
        payload.push(0xE8);
        assert(payload@ =~= seq![0x03u8, 0xE8u8]);
        match create_frame(None, payload.as_slice(), OpCode::Close) {
            Ok(f) => Some(f),
            Err(_) => unreached(),
        }
    }
}

/// Masking is self-inverse: masking any payload twice with the same mask
/// returns the payload unchanged.
pub proof fn lemma_mask_involutive(data: Seq<u8>, mask: Option<[u8; 4]>)
    ensures
        apply_mask_spec(apply_mask_spec(data, mask), mask) == data,
{
    match mask {
        Option::None => {
            assert(apply_mask_spec(apply_mask_spec(data, mask), mask) =~= data);
        },
        Option::Some(m) => {
            let once = apply_mask_spec(data, mask);
            assert(once.len() == data.len());
            assert forall|i: int| 0 <= i < data.len() implies apply_mask_spec(once, mask)[i]
                == data[i] by {
                let b = data[i];
                let k = m@[i % 4];
                assert((b ^ k) ^ k == b) by (bit_vector);
            }
            assert(apply_mask_spec(once, mask) =~= data);
        },
    }
}

/// The length-coding boundaries: payloads of up to 125 bytes use the one-byte
/// length, payloads of 126 to 65535 bytes the 16-bit extension, and longer
/// payloads the 64-bit extension.
pub proof fn lemma_length_encoding(mask_bit: u8, len: nat)
    ensures
        len <= 125 ==> spec_len_bytes(mask_bit, len).len() == 1,
        126 <= len <= 65535 ==> spec_len_bytes(mask_bit, len).len() == 3,
        len > 65535 ==> spec_len_bytes(mask_bit, len).len() == 9,
{
}

/// Whenever the parser asks for more bytes, it asks for at least one.
pub proof fn lemma_parse_need_positive(data: Seq<u8>)
    ensures
        spec_parse_frame_header(data) matches Ok(Err(n)) ==> n >= 1,
{
}

/// A control frame with the fin bit clear (a fragmented control frame) is
/// rejected as invalid, whatever follows in the buffer.
pub proof fn lemma_fragmented_control_rejected(data: Seq<u8>, op: OpCode)
    requires
        data.len() >= 2,
        data[0] & 0x70 == 0,
        data[0] & 0x80 == 0,
        spec_opcode_of(data[0] & 0x0f) == Option::Some(op),
        op.spec_is_control(),
    ensures
        spec_parse_frame_header(data) == Result::<Result<FrameHeader, usize>, ProtocolError>::Err(
            ProtocolError::FragmentedControlFrame,
        ),
{
}

/// A control frame that announces a payload of more than 125 bytes is
/// rejected as invalid, before the mask is even read.
pub proof fn lemma_oversized_control_rejected(data: Seq<u8>, op: OpCode)
    requires
        data.len() >= 2,
        data[0] & 0x70 == 0,
        data[0] & 0x80 != 0,
        spec_opcode_of(data[0] & 0x0f) == Option::Some(op),
        op.spec_is_control(),
        data[1] & 0x7f == 126 ==> data.len() >= 4,
        data[1] & 0x7f == 127 ==> data.len() >= 10,
        spec_decoded_payload_len(data) > 125,
    ensures
        spec_parse_frame_header(data) == Result::<Result<FrameHeader, usize>, ProtocolError>::Err(
            ProtocolError::OversizedControlFrame,
        ),
{
}

/// A whole buffered data frame passes through the reader unchanged: once its
/// header is parsed, one step with enough caller space hands out exactly the
/// unmasked payload, consumes the frame and leaves nothing pending.
pub proof fn lemma_reader_data_roundtrip(
    mask: Option<[u8; 4]>,
    data: Seq<u8>,
    op: OpCode,
    max: usize,
    post_buf: Seq<u8>,
    post_hdr: Option<FrameHeader>,
    r: ReadStep,
)
    requires
        data.len() <= usize::MAX,
        !op.spec_is_control(),
        data.len() <= max,
        spec_parse_frame_header(spec_frame_bytes(mask, data, op)) matches Ok(Ok(h))
            && reader_post(
            h,
            spec_frame_bytes(mask, data, op).skip(h.header_len as int),
            max,
            post_buf,
            post_hdr,
            r,
        ),
    ensures
        r matches ReadStep::Data(p) && p@ == data,
        post_hdr is None,
        post_buf == Seq::<u8>::empty(),
{
    lemma_frame_roundtrip(mask, data, op);
    lemma_mask_involutive(data, mask);
    let frame = spec_frame_bytes(mask, data, op);
    let header_len = spec_frame_header_bytes(mask, data.len(), op).len();
    let h = spec_parse_frame_header(frame)->Ok_0->Ok_0;
    let buf = frame.skip(header_len as int);
    assert(buf =~= apply_mask_spec(data, mask));
    assert(buf.len() == data.len());
    let n = spec_min3(max as int, h.payload_len as int, buf.len() as int);
    assert(n == data.len());
    assert(buf.take(n) =~= buf);
    assert(buf.skip(n) =~= Seq::<u8>::empty());
}

/// A whole buffered control frame passes to the side channel unchanged: once
/// its header is parsed, one step returns exactly the opcode and the unmasked
/// payload, consumes the frame and leaves nothing pending.
pub proof fn lemma_reader_control_roundtrip(
    mask: Option<[u8; 4]>,
    data: Seq<u8>,
    op: OpCode,
    max: usize,
    post_buf: Seq<u8>,
    post_hdr: Option<FrameHeader>,
    r: ReadStep,
)
    requires
        data.len() <= 125,
        op.spec_is_control(),
        spec_parse_frame_header(spec_frame_bytes(mask, data, op)) matches Ok(Ok(h))
            && reader_post(
            h,
            spec_frame_bytes(mask, data, op).skip(h.header_len as int),
            max,
            post_buf,
            post_hdr,
            r,
        ),
    ensures
        r matches ReadStep::Control(c, p) && c == op && p@ == data,
        post_hdr is None,
        post_buf == Seq::<u8>::empty(),
{
    lemma_frame_roundtrip(mask, data, op);
    lemma_mask_involutive(data, mask);
    let frame = spec_frame_bytes(mask, data, op);
    let header_len = spec_frame_header_bytes(mask, data.len(), op).len();
    let h = spec_parse_frame_header(frame)->Ok_0->Ok_0;
    let buf = frame.skip(header_len as int);
    assert(buf =~= apply_mask_spec(data, mask));
    assert(buf.len() == data.len());
    assert(buf.take(h.payload_len as int) =~= buf);
    assert(buf.skip(h.payload_len as int) =~= Seq::<u8>::empty());
}

/// On a prefix of a valid serialized frame, whatever count of additional
/// bytes the parser asks for is still within the frame's header: supplying
/// the requested bytes is always possible, and parsing the whole header
/// succeeds.
pub proof fn lemma_parse_need_within_header(
    mask: Option<[u8; 4]>,
    data: Seq<u8>,
    op: OpCode,
    i: int,
)
    requires
        data.len() <= usize::MAX,
        !(op.spec_is_control() && data.len() > 125),
        0 <= i <= spec_frame_bytes(mask, data, op).len(),
    ensures
        spec_parse_frame_header(spec_frame_bytes(mask, data, op).take(i)) matches Ok(Err(n)) ==> i
            + n <= spec_frame_header_bytes(mask, data.len(), op).len(),
{
    let num = op.spec_number();
    let first = 0x80u8 | num;
    let mb = spec_mask_bit(mask);
    let hdr = spec_frame_header_bytes(mask, data.len(), op);
    let frame = spec_frame_bytes(mask, data, op);
    let p = frame.take(i);

    assert(num == 0 || num == 1 || num == 2 || num == 8 || num == 9 || num == 10);
    assert(mb == 0x00u8 || mb == 0x80u8);
    assert(frame[0] == first);
    assert(hdr.len() >= 2);

    if i < 2 {
        // the two fixed bytes are owed first
    } else {
        assert(p[0] == first && p[1] == frame[1]);
        if data.len() < 126 {
            let lc = data.len() as u8;
            assert(frame[1] == (mb | lc));
            assert((mb | lc) & 0x7f == lc && lc != 126 && lc != 127) by (bit_vector)
                requires
                    lc < 126,
                    mb == 0x00u8 || mb == 0x80u8,
            ;
            assert(((mb | lc) & 0x80 != 0) == (mb == 0x80u8)) by (bit_vector)
                requires
                    lc < 126,
                    mb == 0x00u8 || mb == 0x80u8,
            ;
            match mask {
                Option::None => {
                    assert(hdr.len() == 2);
                },
                Option::Some(m) => {
                    assert(hdr.len() == 6);
                },
            }
        } else if data.len() <= 0xFFFF {
            assert(frame[1] == (mb | 126u8));
            assert((mb | 126u8) & 0x7f == 126 && (((mb | 126u8) & 0x80 != 0) == (mb == 0x80u8)))
                by (bit_vector)
                requires
                    mb == 0x00u8 || mb == 0x80u8,
            ;
            match mask {
                Option::None => {
                    assert(hdr.len() == 4);
                },
                Option::Some(m) => {
                    assert(hdr.len() == 8);
                },
            }
        } else {
            assert(frame[1] == (mb | 127u8));
            assert((mb | 127u8) & 0x7f == 127 && (((mb | 127u8) & 0x80 != 0) == (mb == 0x80u8)))
                by (bit_vector)
                requires
                    mb == 0x00u8 || mb == 0x80u8,
            ;
            match mask {
                Option::None => {
                    assert(hdr.len() == 10);
                },
                Option::Some(m) => {
                    assert(hdr.len() == 14);
                },
            }
        }
    }
}

/// Round trip: parsing a serialized frame yields back its fin bit, mask,
/// opcode and payload length, and unmasking the bytes after the header yields
/// back the payload, for every payload size and every opcode that the
/// serializer accepts.
pub proof fn lemma_frame_roundtrip(mask: Option<[u8; 4]>, data: Seq<u8>, op: OpCode)
    requires
        data.len() <= usize::MAX,
        !(op.spec_is_control() && data.len() > 125),
    ensures
        ({
            let frame = spec_frame_bytes(mask, data, op);
            let header_len = spec_frame_header_bytes(mask, data.len(), op).len();
            &&& spec_parse_frame_header(frame) == Result::<
                Result<FrameHeader, usize>,
                ProtocolError,
            >::Ok(
                Result::<FrameHeader, usize>::Ok(
                    FrameHeader {
                        fin: true,
                        mask,
                        frametype: op,
                        header_len: header_len as u8,
                        payload_len: data.len() as usize,
                    },
                ),
            )
            &&& apply_mask_spec(frame.skip(header_len as int), mask) == data
        }),
{
    let num = op.spec_number();
    let first = 0x80u8 | num;
    let mb = spec_mask_bit(mask);
    let lb = spec_len_bytes(mb, data.len());
    let mbs = spec_mask_bytes(mask);
    let hdr = spec_frame_header_bytes(mask, data.len(), op);
    let masked = apply_mask_spec(data, mask);
    let frame = spec_frame_bytes(mask, data, op);
    let header_len = hdr.len();

    assert(num == 0 || num == 1 || num == 2 || num == 8 || num == 9 || num == 10);
    assert((0x80u8 | num) & 0x70 == 0 && (0x80u8 | num) & 0x80 != 0 && (0x80u8 | num) & 0x0f == num)
        by (bit_vector)
        requires
            num == 0 || num == 1 || num == 2 || num == 8 || num == 9 || num == 10,
    ;
    assert(spec_opcode_of(first & 0x0f) == Option::Some(op));

    assert(mb == 0x00u8 || mb == 0x80u8);
    assert(masked.len() == data.len());
    assert(frame.len() == header_len + data.len());
    assert(frame[0] == first);

    if data.len() < 126 {
        let lc = data.len() as u8;
        assert(lc < 126);
        assert(lb =~= seq![mb | lc]);
        assert(frame[1] == (mb | lc));
        assert(((mb | lc) & 0x80 != 0) == (mb == 0x80u8) && (mb | lc) & 0x7f == lc && lc != 126
            && lc != 127) by (bit_vector)
            requires
                lc < 126,
                mb == 0x00u8 || mb == 0x80u8,
        ;
        assert(spec_decoded_payload_len(frame) == lc as usize);
        assert(lc as usize == data.len());
        match mask {
            Option::None => {
                assert(hdr =~= seq![first, mb | lc]);
                assert(header_len == 2);
                assert(frame.skip(2) =~= masked);
            },
            Option::Some(m) => {
                assert(hdr =~= seq![first, mb | lc, m@[0], m@[1], m@[2], m@[3]]);
                assert(header_len == 6);
                assert(frame[2] == m@[0] && frame[3] == m@[1] && frame[4] == m@[2] && frame[5]
                    == m@[3]);
                assert([frame[2], frame[3], frame[4], frame[5]] =~= m);
                assert(frame.skip(6) =~= masked);
            },
        }
    } else if data.len() <= 0xFFFF {
        let l16 = data.len() as u16;
        assert(l16 == data.len());
        let b2 = (l16 >> 8u16) as u8;
        let b3 = l16 as u8;
        assert(lb =~= seq![mb | 126u8, b2, b3]);
        assert(frame[1] == (mb | 126u8) && frame[2] == b2 && frame[3] == b3);
        assert(((mb | 126u8) & 0x80 != 0) == (mb == 0x80u8) && (mb | 126u8) & 0x7f == 126)
            by (bit_vector)
            requires
                mb == 0x00u8 || mb == 0x80u8,
        ;
        assert(((((l16 >> 8u16) as u8) as u16) << 8u16) | ((l16 as u8) as u16) == l16)
            by (bit_vector);
        assert(spec_decoded_payload_len(frame) == l16 as usize);
        assert(l16 as usize == data.len());
        assert(!(data.len() as usize > 125 && op.spec_is_control()));
        match mask {
            Option::None => {
                assert(hdr =~= seq![first, mb | 126u8, b2, b3]);
                assert(header_len == 4);
                assert(frame.skip(4) =~= masked);
            },
            Option::Some(m) => {
                assert(hdr =~= seq![first, mb | 126u8, b2, b3, m@[0], m@[1], m@[2], m@[3]]);
                assert(header_len == 8);
                assert([frame[4], frame[5], frame[6], frame[7]] =~= m);
                assert(frame.skip(8) =~= masked);
            },
        }
    } else {
        let l64 = data.len() as u64;
        assert(l64 == data.len());
        let b2 = (l64 >> 56u64) as u8;
        let b3 = (l64 >> 48u64) as u8;
        let b4 = (l64 >> 40u64) as u8;
        let b5 = (l64 >> 32u64) as u8;
        let b6 = (l64 >> 24u64) as u8;
        let b7 = (l64 >> 16u64) as u8;
        let b8 = (l64 >> 8u64) as u8;
        let b9 = l64 as u8;
        assert(lb =~= seq![mb | 127u8, b2, b3, b4, b5, b6, b7, b8, b9]);
        assert(frame[1] == (mb | 127u8) && frame[2] == b2 && frame[3] == b3 && frame[4] == b4
            && frame[5] == b5 && frame[6] == b6 && frame[7] == b7 && frame[8] == b8 && frame[9]
            == b9);
        assert(((mb | 127u8) & 0x80 != 0) == (mb == 0x80u8) && (mb | 127u8) & 0x7f == 127)
            by (bit_vector)
            requires
                mb == 0x00u8 || mb == 0x80u8,
        ;
        assert(((((l64 >> 56u64) as u8) as u64) << 56u64) | ((((l64 >> 48u64) as u8) as u64)
            << 48u64) | ((((l64 >> 40u64) as u8) as u64) << 40u64) | ((((l64 >> 32u64) as u8)
            as u64) << 32u64) | ((((l64 >> 24u64) as u8) as u64) << 24u64) | ((((l64 >> 16u64)
            as u8) as u64) << 16u64) | ((((l64 >> 8u64) as u8) as u64) << 8u64) | ((l64 as u8)
            as u64) == l64) by (bit_vector);
        assert(spec_decoded_payload_len(frame) == l64 as usize);
        assert(l64 as usize == data.len());
        assert(!op.spec_is_control());
        match mask {
            Option::None => {
                assert(hdr =~= seq![first, mb | 127u8, b2, b3, b4, b5, b6, b7, b8, b9]);
                assert(header_len == 10);
                assert(frame.skip(10) =~= masked);
            },
            Option::Some(m) => {
                assert(hdr =~= seq![
                    first,
                    mb | 127u8,
                    b2,
                    b3,
                    b4,
                    b5,
                    b6,
                    b7,
                    b8,
                    b9,
                    m@[0],
                    m@[1],
                    m@[2],
                    m@[3],
                ]);
                assert(header_len == 14);
                assert([frame[10], frame[11], frame[12], frame[13]] =~= m);
                assert(frame.skip(14) =~= masked);
            },
        }
    }

    lemma_mask_involutive(data, mask);
}

} // verus!
