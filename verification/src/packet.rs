//! The central packet entity: a parse/build context over an owned byte
//! buffer.
//!
//! A [`CoapPacket`] owns its backing buffer for as long as it lives, so
//! no two packets can alias one mutable buffer region; the caller gets
//! the buffer back through [`CoapPacket::into_buffer`].  The context —
//! token length, option cursor, payload boundary — is index-based and is
//! tied to the buffer's bytes by the type's well-formedness predicate
//! [`CoapPacket::wf`]: the option region always decodes to exactly the
//! options the context records, and every accessor is proved against
//! that decoding.

use vstd::prelude::*;
use crate::codes::{CoapCode, CoapCodeClass, CoapContentFormat, CoapMessageType, CoapVersion};
use crate::error::CoapPacketError;
use crate::wire::{
    HEADER_SIZE, MAX_OPTION_VALUE_LEN, MAX_TOKEN_LEN, PAYLOAD_MARKER, OptionView, build_header,
    code_of, decode_one, decode_options, encode_option, id_of, last_number, lemma_decode_append,
    lemma_header_fields, nib_ext_len, nib_value, payload_part, spec_header, tkl_of, token_of,
    type_bits, version_bits,
};

verus! {

/// One recorded option: its absolute number and where its value bytes
/// stand in the packet's buffer.
#[derive(Clone, Copy)]
pub struct CoapOption {
    pub number: u16,
    pub start: usize,
    pub len: usize,
}

/// The numbers of the options the engine itself reads.
pub const OPT_URI_PATH: u16 = 11;

/// The Content-Format option number.
pub const OPT_CONTENT_FORMAT: u16 = 12;

/// The Accept option number.
pub const OPT_ACCEPT: u16 = 17;

/// The options a sequence of recorded options denotes over a buffer.
pub open spec fn opts_views(opts: Seq<CoapOption>, b: Seq<u8>) -> Seq<OptionView> {
    Seq::new(
        opts.len(),
        |i: int|
            OptionView {
                number: opts[i].number,
                value: b.subrange(opts[i].start as int, opts[i].start + opts[i].len),
            },
    )
}

/// A single CoAP message over an owned buffer: the fixed header and
/// token, the delta-encoded options, and an optional payload behind the
/// marker byte.
pub struct CoapPacket {
    pub buffer: Vec<u8>,
    pub token_len: usize,
    pub options: Vec<CoapOption>,
    pub last_opt_num: u16,
    pub opts_end: usize,
    pub has_payload_marker: bool,
    pub payload_len: usize,
}

impl CoapPacket {
    /// Where the option region begins: behind header and token.
    pub open spec fn hdr_len(self) -> int {
        HEADER_SIZE + self.token_len
    }

    /// Where the message ends inside the buffer.
    pub open spec fn msg_end(self) -> int {
        self.opts_end + if self.has_payload_marker {
            1 + self.payload_len as int
        } else {
            0
        }
    }

    /// The recorded option at index `i` as a value.
    pub open spec fn opt_view(self, i: int) -> OptionView {
        OptionView {
            number: self.options@[i].number,
            value: self.buffer@.subrange(
                self.options@[i].start as int,
                self.options@[i].start + self.options@[i].len,
            ),
        }
    }

    /// All recorded options as values, in wire order.
    pub open spec fn options_view(self) -> Seq<OptionView> {
        Seq::new(self.options@.len(), |i: int| self.opt_view(i))
    }

    /// The payload as a value; empty when no marker was written.
    pub open spec fn payload_view(self) -> Seq<u8> {
        if self.has_payload_marker {
            self.buffer@.subrange(self.opts_end + 1, self.msg_end())
        } else {
            seq![]
        }
    }

    /// The message-type bits of the packet's header.
    pub open spec fn spec_type_bits(self) -> u8 {
        type_bits(self.buffer@)
    }

    /// The token bytes of the packet.
    pub open spec fn spec_token(self) -> Seq<u8> {
        token_of(self.buffer@)
    }

    /// The code byte of the packet.
    pub open spec fn spec_code(self) -> u8 {
        code_of(self.buffer@)
    }

    /// The message id of the packet.
    pub open spec fn spec_id(self) -> u16 {
        id_of(self.buffer@)
    }

    /// The version bits of the packet's header.
    pub open spec fn spec_version_bits(self) -> u8 {
        version_bits(self.buffer@)
    }

    /// Well-formedness: the context never exceeds the buffer, the token
    /// is within bounds and agrees with the header nibble, a payload
    /// marker carries at least one payload byte, every recorded option
    /// lies inside the option region, and the option region decodes to
    /// exactly the recorded options and payload.
    pub open spec fn wf(self) -> bool {
        &&& self.buffer@.len() >= HEADER_SIZE
        &&& self.buffer@.len() <= usize::MAX
        &&& self.token_len <= MAX_TOKEN_LEN
        &&& tkl_of(self.buffer@) == self.token_len
        &&& self.hdr_len() <= self.opts_end
        &&& self.msg_end() <= self.buffer@.len()
        &&& (self.has_payload_marker ==> self.payload_len >= 1)
        &&& (!self.has_payload_marker ==> self.payload_len == 0)
        &&& forall|i: int|
            0 <= i < self.options@.len() ==> self.hdr_len() <= #[trigger] self.options@[i].start
                && self.options@[i].start + self.options@[i].len <= self.opts_end
        &&& decode_options(self.buffer@.subrange(self.hdr_len(), self.msg_end()), 0) == Some(
            (self.options_view(), self.payload_view()),
        )
        &&& self.last_opt_num as nat == last_number(0, self.options_view())
    }

    /// How many bytes of the buffer the message occupies.
    pub fn msg_len(&self) -> (n: usize)
        requires
            self.wf(),
        ensures
            n == self.msg_end(),
    {
        if self.has_payload_marker {
            self.opts_end + 1 + self.payload_len
        } else {
            self.opts_end
        }
    }

    /// Hands the backing buffer back to the caller, ending the packet's
    /// exclusive hold on it.
    pub fn into_buffer(self) -> (b: Vec<u8>)
        ensures
            b@ == self.buffer@,
    {
        self.buffer
    }

    /// Builds a fresh message into the caller's buffer: header with
    /// token, code and id, and, when one is given, a payload behind the
    /// marker.  The packet takes the buffer over; its free tail may
    /// later take options, appended before any payload.
    ///
    /// A token over eight bytes is [`CoapPacketError::TokenSizeError`];
    /// a buffer that cannot hold header and token is
    /// [`CoapPacketError::SmallBufferError`]; one that cannot also hold
    /// marker and payload is [`CoapPacketError::PayloadWriteError`].  A
    /// missing code builds the empty message, and an empty payload is
    /// treated as none, since a bare marker is not a legal message.
    pub fn new(
        buffer: Vec<u8>,
        type_: CoapMessageType,
        token_opt: Option<&[u8]>,
        code_opt: Option<CoapCode>,
        id: u16,
        payload_opt: Option<&[u8]>,
    ) -> (r: Result<CoapPacket, CoapPacketError>)
        ensures
            Self::new_token_len(token_opt) > MAX_TOKEN_LEN ==> (r matches Err(e) && e
                == CoapPacketError::TokenSizeError),
            Self::new_token_len(token_opt) <= MAX_TOKEN_LEN && buffer@.len() < HEADER_SIZE
                + Self::new_token_len(token_opt) ==> (r matches Err(e) && e
                == CoapPacketError::SmallBufferError),
            Self::new_token_len(token_opt) <= MAX_TOKEN_LEN && buffer@.len() >= HEADER_SIZE
                + Self::new_token_len(token_opt) && Self::new_payload_len(payload_opt) > 0
                && buffer@.len() < HEADER_SIZE + Self::new_token_len(token_opt) + 1
                + Self::new_payload_len(payload_opt) ==> (r matches Err(e) && e
                == CoapPacketError::PayloadWriteError),
            Self::new_token_len(token_opt) <= MAX_TOKEN_LEN && buffer@.len() >= HEADER_SIZE
                + Self::new_token_len(token_opt) + if Self::new_payload_len(payload_opt) > 0 {
                1 + Self::new_payload_len(payload_opt)
            } else {
                0
            } ==> r is Ok,
            r matches Ok(p) ==> {
                &&& p.wf()
                &&& p.buffer@.len() == buffer@.len()
                &&& p.spec_version_bits() == 1
                &&& p.spec_type_bits() == type_.wire()
                &&& p.spec_token() == Self::new_token(token_opt)
                &&& p.spec_code() == Self::new_code(code_opt)
                &&& p.spec_id() == id
                &&& p.options_view() == Seq::<OptionView>::empty()
                &&& p.payload_view() == Self::new_payload(payload_opt)
                &&& p.msg_end() == HEADER_SIZE + Self::new_token_len(token_opt)
                    + if Self::new_payload_len(payload_opt) > 0 {
                    1 + Self::new_payload_len(payload_opt)
                } else {
                    0
                }
            },
    {
        let ghost orig_len = buffer@.len();
        let empty: Vec<u8> = Vec::new();
        let token: &[u8] = match token_opt {
            Some(t) => t,
            None => empty.as_slice(),
        };
        if token.len() > MAX_TOKEN_LEN {
            return Err(CoapPacketError::TokenSizeError);
        }
        let code: u8 = match code_opt {
            Some(c) => (c.to_c() as u8),
            None => 0,
        };
        let mut buffer = buffer;
        let n = match build_header(&mut buffer, type_, token, code, id) {
            Ok(n) => n,
            Err(e) => {
                return Err(e);
            },
        };
        proof {
            lemma_header_fields(type_, token@, code, id);
        }
        let mut pkt = CoapPacket {
            buffer,
            token_len: n - HEADER_SIZE,
            options: Vec::new(),
            last_opt_num: 0,
            opts_end: n,
            has_payload_marker: false,
            payload_len: 0,
        };
        proof {
            assert(pkt.buffer.len() == pkt.buffer@.len());
            assert(pkt.buffer@.subrange(0, n as int) == spec_header(type_, token@, code, id));
            assert(tkl_of(pkt.buffer@) == tkl_of(pkt.buffer@.subrange(0, n as int)));
            assert(type_bits(pkt.buffer@) == type_bits(pkt.buffer@.subrange(0, n as int)));
            assert(version_bits(pkt.buffer@) == version_bits(pkt.buffer@.subrange(0, n as int)));
            assert(code_of(pkt.buffer@) == code_of(pkt.buffer@.subrange(0, n as int)));
            assert(id_of(pkt.buffer@) == id_of(pkt.buffer@.subrange(0, n as int)));
            assert(token_of(pkt.buffer@) =~= token_of(pkt.buffer@.subrange(0, n as int)));
            assert(pkt.buffer@.subrange(pkt.hdr_len(), pkt.msg_end()) =~= Seq::<u8>::empty());
            assert(pkt.options_view() =~= Seq::<OptionView>::empty());
            assert(pkt.wf());
        }
        let plen: usize = match payload_opt {
            Some(p) => p.len(),
            None => 0,
        };
        if plen == 0 {
            return Ok(pkt);
        }
        let payload: &[u8] = match payload_opt {
            Some(p) => p,
            None => empty.as_slice(),
        };
        let blen = pkt.buffer.len();
        if blen - n < 1 || blen - n - 1 < plen {
            return Err(CoapPacketError::PayloadWriteError);
        }
        pkt.buffer.set(n, PAYLOAD_MARKER);
        let mut i: usize = 0;
        while i < plen
            invariant
                i <= plen,
                plen == payload@.len(),
                n + 1 + plen <= pkt.buffer@.len() <= usize::MAX,
                pkt.buffer@.len() == orig_len,
                HEADER_SIZE <= n,
                pkt.token_len == n - HEADER_SIZE,
                pkt.opts_end == n,
                pkt.options@.len() == 0,
                pkt.last_opt_num == 0,
                pkt.has_payload_marker == false,
                pkt.buffer@.len() >= HEADER_SIZE,
                pkt.buffer@[n as int] == PAYLOAD_MARKER,
                forall|j: int| 0 <= j < i ==> pkt.buffer@[n + 1 + j] == payload@[j],
                pkt.buffer@.subrange(0, n as int) == spec_header(type_, token@, code, id),
            decreases plen - i,
        {
            pkt.buffer.set(n + 1 + i, payload[i]);
            i = i + 1;
        }
        let pkt = CoapPacket {
            has_payload_marker: true,
            payload_len: plen,
            ..pkt
        };
        proof {
            assert(pkt.buffer@.subrange(0, n as int) == spec_header(type_, token@, code, id));
            assert(tkl_of(pkt.buffer@) == tkl_of(pkt.buffer@.subrange(0, n as int)));
            assert(type_bits(pkt.buffer@) == type_bits(pkt.buffer@.subrange(0, n as int)));
            assert(version_bits(pkt.buffer@) == version_bits(pkt.buffer@.subrange(0, n as int)));
            assert(code_of(pkt.buffer@) == code_of(pkt.buffer@.subrange(0, n as int)));
            assert(id_of(pkt.buffer@) == id_of(pkt.buffer@.subrange(0, n as int)));
            assert(token_of(pkt.buffer@) =~= token_of(pkt.buffer@.subrange(0, n as int)));
            let region = pkt.buffer@.subrange(pkt.hdr_len(), pkt.msg_end());
            assert(region[0] == PAYLOAD_MARKER);
            assert(region.len() == 1 + plen >= 2);
            assert(region.skip(1) =~= pkt.payload_view());
            assert(pkt.payload_view() =~= payload@);
            assert(decode_options(region, 0) == Some(
                (Seq::<OptionView>::empty(), pkt.payload_view()),
            ));
            assert(pkt.options_view() =~= Seq::<OptionView>::empty());
            assert(pkt.wf());
        }
        Ok(pkt)
    }

    /// The token bytes `new` was given, empty when none.
    pub open spec fn new_token(token_opt: Option<&[u8]>) -> Seq<u8> {
        match token_opt {
            Some(t) => t@,
            None => seq![],
        }
    }

    /// The token length `new` was given.
    pub open spec fn new_token_len(token_opt: Option<&[u8]>) -> int {
        Self::new_token(token_opt).len() as int
    }

    /// The code byte `new` was given, the empty message when none.
    pub open spec fn new_code(code_opt: Option<CoapCode>) -> u8 {
        match code_opt {
            Some(c) => c.wire() as u8,
            None => 0,
        }
    }

    /// The payload bytes `new` was given, empty when none.
    pub open spec fn new_payload(payload_opt: Option<&[u8]>) -> Seq<u8> {
        match payload_opt {
            Some(p) => p@,
            None => seq![],
        }
    }

    /// The payload length `new` was given.
    pub open spec fn new_payload_len(payload_opt: Option<&[u8]>) -> int {
        Self::new_payload(payload_opt).len() as int
    }

    /// The bytes of the message itself: everything up to the message's
    /// end, without the buffer's free tail.
    pub open spec fn msg_bytes(self) -> Seq<u8> {
        self.buffer@.subrange(0, self.msg_end())
    }

    /// Whether a byte sequence is a parseable message: room for the
    /// fixed header, a token length within bounds and present, and an
    /// option region that decodes.
    pub open spec fn parse_ok(b: Seq<u8>) -> bool {
        &&& b.len() >= HEADER_SIZE
        &&& tkl_of(b) <= MAX_TOKEN_LEN
        &&& b.len() >= HEADER_SIZE + tkl_of(b)
        &&& decode_options(b.subrange(HEADER_SIZE + tkl_of(b) as int, b.len() as int), 0) is Some
    }

    /// Parses a received message: reads the header, checks the token
    /// length, walks the delta-encoded options and finds the payload,
    /// all as a zero-copy view over the taken buffer.
    ///
    /// Succeeds exactly on parseable bytes; every malformed input is
    /// [`CoapPacketError::ParseError`].  On success the packet's
    /// recorded options and payload are exactly what the option region
    /// decodes to, and the whole buffer is the message.
    #[verifier::rlimit(80)]
    pub fn read_packet(buf: Vec<u8>) -> (r: Result<CoapPacket, CoapPacketError>)
        ensures
            r is Ok <==> Self::parse_ok(buf@),
            r is Err ==> r == Err::<CoapPacket, CoapPacketError>(CoapPacketError::ParseError),
            r matches Ok(p) ==> {
                &&& p.wf()
                &&& p.buffer@ == buf@
                &&& p.msg_end() == buf@.len()
                &&& Some((p.options_view(), p.payload_view())) == decode_options(
                    buf@.subrange(HEADER_SIZE + tkl_of(buf@) as int, buf@.len() as int),
                    0,
                )
            },
    {
        let len = buf.len();
        if len < HEADER_SIZE {
            return Err(CoapPacketError::ParseError);
        }
        let tkl = (buf[0] & 0x0fu8) as usize;
        proof {
            assert(tkl == tkl_of(buf@));
        }
        if tkl > MAX_TOKEN_LEN {
            return Err(CoapPacketError::ParseError);
        }
        if len - HEADER_SIZE < tkl {
            return Err(CoapPacketError::ParseError);
        }
        let hdr = HEADER_SIZE + tkl;
        let mut pos: usize = hdr;
        let mut options: Vec<CoapOption> = Vec::new();
        let mut last: u16 = 0;
        let mut has_marker = false;
        while pos < len
            invariant_except_break
                !has_marker,
            invariant
                hdr <= pos <= len,
                hdr == HEADER_SIZE + tkl,
                tkl == tkl_of(buf@) <= MAX_TOKEN_LEN,
                len == buf@.len() <= usize::MAX,
                forall|k: int|
                    0 <= k < options@.len() ==> hdr <= #[trigger] options@[k].start
                        && options@[k].start + options@[k].len <= pos,
                last as nat == last_number(0, opts_views(options@, buf@)),
                decode_options(buf@.subrange(hdr as int, len as int), 0) == (match decode_options(
                    buf@.subrange(pos as int, len as int),
                    last as nat,
                ) {
                    Option::None => Option::None::<(Seq<OptionView>, Seq<u8>)>,
                    Option::Some((o, p)) => Option::Some((opts_views(options@, buf@) + o, p)),
                }),
            ensures
                hdr <= pos <= len,
                forall|k: int|
                    0 <= k < options@.len() ==> hdr <= #[trigger] options@[k].start
                        && options@[k].start + options@[k].len <= pos,
                last as nat == last_number(0, opts_views(options@, buf@)),
                has_marker ==> pos < len && len - pos >= 2 && buf@[pos as int] == PAYLOAD_MARKER
                    && decode_options(buf@.subrange(hdr as int, len as int), 0) == Some(
                    (opts_views(options@, buf@), buf@.subrange(pos + 1, len as int)),
                ),
                !has_marker ==> pos == len && decode_options(
                    buf@.subrange(hdr as int, len as int),
                    0,
                ) == Some((opts_views(options@, buf@), Seq::<u8>::empty())),
            decreases len - pos,
        {
            let ghost rb = buf@.subrange(pos as int, len as int);
            let b0 = buf[pos];
            proof {
                assert(rb[0] == b0);
                assert(rb.len() == len - pos >= 1);
            }
            if b0 == PAYLOAD_MARKER {
                if len - pos < 2 {
                    proof {
                        assert(decode_options(rb, last as nat) is None);
                    }
                    return Err(CoapPacketError::ParseError);
                }
                has_marker = true;
                proof {
                    assert(decode_options(rb, last as nat) == Some(
                        (Seq::<OptionView>::empty(), rb.skip(1)),
                    ));
                    assert(rb.skip(1) =~= buf@.subrange(pos + 1, len as int));
                    assert(opts_views(options@, buf@) + Seq::<OptionView>::empty() =~= opts_views(
                        options@,
                        buf@,
                    ));
                }
                break;
            }
            let dn = b0 >> 4u8;
            let ln = b0 & 0x0fu8;
            if dn == 15 || ln == 15 {
                proof {
                    assert(decode_one(rb, last as nat) is None);
                    assert(decode_options(rb, last as nat) is None);
                }
                return Err(CoapPacketError::ParseError);
            }
            let dext: usize = if dn < 13 {
                0
            } else if dn == 13 {
                1
            } else {
                2
            };
            let lext: usize = if ln < 13 {
                0
            } else if ln == 13 {
                1
            } else {
                2
            };
            proof {
                assert(dext == nib_ext_len(dn));
                assert(lext == nib_ext_len(ln));
            }
            if len - pos < 1 + dext + lext {
                proof {
                    assert(decode_one(rb, last as nat) is None);
                    assert(decode_options(rb, last as nat) is None);
                }
                return Err(CoapPacketError::ParseError);
            }
            let delta: u32 = if dn < 13 {
                dn as u32
            } else if dn == 13 {
                13 + (buf[pos + 1] as u32)
            } else {
                269 + 256 * (buf[pos + 1] as u32) + (buf[pos + 2] as u32)
            };
            proof {
                if dn == 13 {
                    assert(rb[1] == buf@[pos + 1]);
                }
                if dn == 14 {
                    assert(rb[1] == buf@[pos + 1]);
                    assert(rb[2] == buf@[pos + 2]);
                }
                assert(delta == nib_value(dn, rb, 1));
            }
            let num32: u32 = (last as u32) + delta;
            if num32 > 65535 {
                proof {
                    assert(decode_one(rb, last as nat) is None);
                    assert(decode_options(rb, last as nat) is None);
                }
                return Err(CoapPacketError::ParseError);
            }
            let vlen32: u32 = if ln < 13 {
                ln as u32
            } else if ln == 13 {
                13 + (buf[pos + 1 + dext] as u32)
            } else {
                269 + 256 * (buf[pos + 1 + dext] as u32) + (buf[pos + 2 + dext] as u32)
            };
            proof {
                if ln == 13 {
                    assert(rb[1 + dext] == buf@[pos + 1 + dext]);
                }
                if ln == 14 {
                    assert(rb[1 + dext] == buf@[pos + 1 + dext]);
                    assert(rb[2 + dext] == buf@[pos + 2 + dext]);
                }
                assert(vlen32 == nib_value(ln, rb, 1 + dext));
            }
            let vlen = vlen32 as usize;
            let remaining: usize = len - pos - 1 - dext - lext;
            if vlen > remaining {
                proof {
                    assert(decode_one(rb, last as nat) is None);
                    assert(decode_options(rb, last as nat) is None);
                }
                return Err(CoapPacketError::ParseError);
            }
            let vstart = pos + 1 + dext + lext;
            let used = 1 + dext + lext + vlen;
            let ghost ov = OptionView {
                number: num32 as u16,
                value: buf@.subrange(vstart as int, vstart + vlen),
            };
            proof {
                assert(rb.subrange(1 + dext + lext, 1 + dext + lext + vlen as int) =~= buf@
                    .subrange(vstart as int, vstart + vlen));
                assert(decode_one(rb, last as nat) == Some((ov, used as int)));
                assert(rb.skip(used as int) =~= buf@.subrange(pos + used, len as int));
            }
            let ghost old_options = options@;
            let ghost old_last = last;
            options.push(
                CoapOption { number: num32 as u16, start: vstart, len: vlen },
            );
            last = num32 as u16;
            pos = pos + used;
            proof {
                assert(opts_views(options@, buf@) =~= opts_views(old_options, buf@) + seq![ov]);
                assert(opts_views(options@, buf@).last() == ov);
                let inner = decode_options(
                    buf@.subrange(pos as int, len as int),
                    last as nat,
                );
                if inner is Some {
                    let (o, p) = inner->Some_0;
                    assert(opts_views(old_options, buf@) + (seq![ov] + o) =~= opts_views(
                        options@,
                        buf@,
                    ) + o);
                }
            }
        }
        let opts_end = pos;
        let has_payload_marker = has_marker;
        let payload_len: usize = if has_marker {
            len - pos - 1
        } else {
            0
        };
        let pkt = CoapPacket {
            buffer: buf,
            token_len: tkl,
            options,
            last_opt_num: last,
            opts_end,
            has_payload_marker,
            payload_len,
        };
        proof {
            assert(pkt.options_view() =~= opts_views(pkt.options@, pkt.buffer@));
            assert(pkt.msg_end() == len);
            if has_marker {
                assert(pkt.payload_view() =~= pkt.buffer@.subrange(opts_end + 1, len as int));
            } else {
                assert(pkt.payload_view() =~= Seq::<u8>::empty());
            }
            assert(pkt.wf());
        }
        Ok(pkt)
    }

    /// The round trip of building and parsing: any well-formed packet's
    /// message bytes are parseable, and they parse back to exactly the
    /// packet's own header fields, options and payload.
    pub proof fn lemma_packet_bytes_round_trip(self)
        requires
            self.wf(),
        ensures
            Self::parse_ok(self.msg_bytes()),
            version_bits(self.msg_bytes()) == self.spec_version_bits(),
            type_bits(self.msg_bytes()) == self.spec_type_bits(),
            tkl_of(self.msg_bytes()) == self.token_len,
            code_of(self.msg_bytes()) == self.spec_code(),
            id_of(self.msg_bytes()) == self.spec_id(),
            token_of(self.msg_bytes()) == self.spec_token(),
            decode_options(
                self.msg_bytes().subrange(self.hdr_len(), self.msg_bytes().len() as int),
                0,
            ) == Some((self.options_view(), self.payload_view())),
    {
        let m = self.msg_bytes();
        assert(m[0] == self.buffer@[0]);
        assert(m[1] == self.buffer@[1]);
        assert(m[2] == self.buffer@[2]);
        assert(m[3] == self.buffer@[3]);
        assert(token_of(m) =~= self.spec_token());
        assert(m.subrange(self.hdr_len(), m.len() as int) =~= self.buffer@.subrange(
            self.hdr_len(),
            self.msg_end(),
        ));
    }

    /// The protocol version of the packet, or
    /// [`CoapPacketError::VersionUnknownError`] when the wire carries
    /// anything but the single supported version.
    pub fn get_version(&self) -> (r: Result<CoapVersion, CoapPacketError>)
        requires
            self.wf(),
        ensures
            r == CoapVersion::spec_from_wire(self.spec_version_bits() as u32),
    {
        let b0 = self.buffer[0];
        CoapVersion::from_c((b0 >> 6u8) as u32)
    }

    /// The token's length in bytes.
    pub fn get_token_len(&self) -> (n: usize)
        requires
            self.wf(),
        ensures
            n == self.spec_token().len(),
    {
        self.token_len
    }

    /// The token: `None` when its length is zero, else a copy of its
    /// bytes.  The oversized-token arm is defensive: a well-formed
    /// packet cannot carry one.
    pub fn get_token(&self) -> (r: Result<Option<Vec<u8>>, CoapPacketError>)
        requires
            self.wf(),
        ensures
            self.spec_token().len() == 0 ==> (r matches Ok(t) && t is None),
            self.spec_token().len() > 0 ==> (r matches Ok(t) && t matches Some(v) && v@
                == self.spec_token()),
    {
        if self.token_len > MAX_TOKEN_LEN {
            return Err(CoapPacketError::TokenSizeError);
        }
        if self.token_len == 0 {
            return Ok(None);
        }
        let mut out: Vec<u8> = Vec::new();
        let mut i: usize = 0;
        while i < self.token_len
            invariant
                i <= self.token_len,
                HEADER_SIZE + self.token_len <= self.buffer@.len() <= usize::MAX,
                out@ == self.buffer@.subrange(HEADER_SIZE as int, HEADER_SIZE + i),
            decreases self.token_len - i,
        {
            out.push(self.buffer[HEADER_SIZE + i]);
            proof {
                assert(out@ =~= self.buffer@.subrange(HEADER_SIZE as int, HEADER_SIZE + i + 1));
            }
            i = i + 1;
        }
        proof {
            assert(out@ =~= self.spec_token());
        }
        Ok(Some(out))
    }

    /// The message id.
    pub fn get_id(&self) -> (id: u16)
        requires
            self.wf(),
        ensures
            id == self.spec_id(),
    {
        let hi = self.buffer[2];
        let lo = self.buffer[3];
        ((hi as u16) << 8u16) | (lo as u16)
    }

    /// The code class and the full message code of the packet, or
    /// [`CoapPacketError::CodeMatchError`] when the code byte resolves
    /// to no known code.
    pub fn get_message_code_with_class(&self) -> (r: Result<
        (CoapCodeClass, CoapCode),
        CoapPacketError,
    >)
        requires
            self.wf(),
        ensures
            r matches Ok((cls, code)) ==> CoapCodeClass::spec_from_wire(
                (self.spec_code() >> 5) as u32,
            ) == Ok::<CoapCodeClass, CoapPacketError>(cls) && CoapCode::spec_from_wire(
                self.spec_code() as u32,
            ) == Ok::<CoapCode, CoapPacketError>(code),
            r matches Err(e) ==> (CoapCodeClass::spec_from_wire((self.spec_code() >> 5) as u32)
                == Err::<CoapCodeClass, CoapPacketError>(e) || CoapCode::spec_from_wire(
                self.spec_code() as u32,
            ) == Err::<CoapCode, CoapPacketError>(e)),
            r is Ok <==> CoapCodeClass::spec_from_wire((self.spec_code() >> 5) as u32) is Ok
                && CoapCode::spec_from_wire(self.spec_code() as u32) is Ok,
    {
        let byte = self.buffer[1];
        let cls = match CoapCodeClass::from_c((byte >> 5u8) as u32) {
            Ok(c) => c,
            Err(e) => {
                return Err(e);
            },
        };
        match CoapCode::from_c(byte as u32) {
            Ok(code) => Ok((cls, code)),
            Err(e) => Err(e),
        }
    }

    /// The code class of the packet's code byte, or
    /// [`CoapPacketError::CodeMatchError`] for an unknown class.
    pub fn get_message_code_class(&self) -> (r: Result<CoapCodeClass, CoapPacketError>)
        requires
            self.wf(),
        ensures
            r == CoapCodeClass::spec_from_wire((self.spec_code() >> 5) as u32),
    {
        let byte = self.buffer[1];
        CoapCodeClass::from_c((byte >> 5u8) as u32)
    }

    /// The full message code of the packet, or
    /// [`CoapPacketError::CodeMatchError`] for an unknown code.
    pub fn get_message_code(&self) -> (r: Result<CoapCode, CoapPacketError>)
        requires
            self.wf(),
        ensures
            r == CoapCode::spec_from_wire(self.spec_code() as u32),
    {
        let byte = self.buffer[1];
        CoapCode::from_c(byte as u32)
    }

    /// Appends one option behind those already present.  Options must
    /// come in non-decreasing number order and before any payload:
    /// a lower number than the last one written, a value over the
    /// encoding's length bound, or a packet whose payload marker is
    /// already placed, is the caller's [`CoapPacketError::OptionError`];
    /// a buffer without room for the encoded option is
    /// [`CoapPacketError::SmallBufferError`].
    pub fn put_option(&mut self, num: u16, value: &[u8]) -> (r: Result<(), CoapPacketError>)
        requires
            old(self).wf(),
        ensures
            final(self).wf(),
            old(self).has_payload_marker ==> r == Err::<(), CoapPacketError>(
                CoapPacketError::OptionError,
            ),
            !old(self).has_payload_marker && num < old(self).last_opt_num ==> r == Err::<
                (),
                CoapPacketError,
            >(CoapPacketError::OptionError),
            !old(self).has_payload_marker && num >= old(self).last_opt_num && value@.len()
                > MAX_OPTION_VALUE_LEN ==> r == Err::<(), CoapPacketError>(
                CoapPacketError::OptionError,
            ),
            !old(self).has_payload_marker && num >= old(self).last_opt_num && value@.len()
                <= MAX_OPTION_VALUE_LEN && old(self).opts_end + encode_option(
                (num - old(self).last_opt_num) as nat,
                value@,
            ).len() > old(self).buffer@.len() ==> r == Err::<(), CoapPacketError>(
                CoapPacketError::SmallBufferError,
            ),
            !old(self).has_payload_marker && num >= old(self).last_opt_num && value@.len()
                <= MAX_OPTION_VALUE_LEN && old(self).opts_end + encode_option(
                (num - old(self).last_opt_num) as nat,
                value@,
            ).len() <= old(self).buffer@.len() ==> r is Ok,
            r matches Err(_) ==> {
                &&& final(self).buffer@ == old(self).buffer@
                &&& final(self).options@ == old(self).options@
                &&& final(self).opts_end == old(self).opts_end
                &&& final(self).last_opt_num == old(self).last_opt_num
                &&& final(self).has_payload_marker == old(self).has_payload_marker
                &&& final(self).payload_len == old(self).payload_len
                &&& final(self).token_len == old(self).token_len
            },
            r is Ok ==> {
                &&& final(self).options_view() == old(self).options_view().push(
                    OptionView { number: num, value: value@ },
                )
                &&& final(self).payload_view() == old(self).payload_view()
                &&& final(self).buffer@.len() == old(self).buffer@.len()
                &&& final(self).spec_token() == old(self).spec_token()
                &&& final(self).spec_code() == old(self).spec_code()
                &&& final(self).spec_id() == old(self).spec_id()
                &&& final(self).spec_type_bits() == old(self).spec_type_bits()
                &&& final(self).spec_version_bits() == old(self).spec_version_bits()
                &&& final(self).token_len == old(self).token_len
                &&& final(self).msg_end() == old(self).msg_end() + encode_option(
                    (num - old(self).last_opt_num) as nat,
                    value@,
                ).len()
            },
    {
        if self.has_payload_marker {
            return Err(CoapPacketError::OptionError);
        }
        let at = self.opts_end;
        let last = self.last_opt_num;
        let n = match crate::wire::put_option(&mut self.buffer, at, last, num, value) {
            Ok(n) => n,
            Err(e) => {
                proof {
                    assert forall|k: int|
                        0 <= k < self.options@.len() implies self.options_view()[k] == old(
                        self,
                    ).options_view()[k] by {}
                    assert(self.options_view() =~= old(self).options_view());
                    assert(self.payload_view() =~= old(self).payload_view());
                    assert(self.wf());
                }
                return Err(e);
            },
        };
        let ghost e = encode_option((num - last) as nat, value@);
        let ghost old_pkt = *old(self);
        let vstart = at + (n - value.len());
        proof {
            assert(self.buffer@.subrange(at as int, at + n as int) == e);
            assert(e == seq![(crate::wire::nib_of((num - last) as nat) << 4) | crate::wire::nib_of(
                value@.len(),
            )] + crate::wire::ext_of((num - last) as nat) + crate::wire::ext_of(value@.len())
                + value@);
            assert forall|j: int| 0 <= j < value@.len() implies e[n - value@.len() + j]
                == value@[j] by {}
            assert(self.buffer@.subrange(vstart as int, vstart + value@.len()) =~= value@);
        }
        self.options.push(CoapOption { number: num, start: vstart, len: value.len() });
        self.last_opt_num = num;
        self.opts_end = at + n;
        proof {
            let newov = OptionView { number: num, value: value@ };
            // the bytes before the new option, header and all, kept their values
            assert(self.buffer@.subrange(0, at as int) == old_pkt.buffer@.subrange(0, at as int));
            assert forall|j: int| 0 <= j < at implies self.buffer@[j] == old_pkt.buffer@[j] by {
                assert(self.buffer@.subrange(0, at as int)[j] == old_pkt.buffer@.subrange(
                    0,
                    at as int,
                )[j]);
            }
            assert(tkl_of(self.buffer@) == tkl_of(old_pkt.buffer@));
            assert(type_bits(self.buffer@) == type_bits(old_pkt.buffer@));
            assert(version_bits(self.buffer@) == version_bits(old_pkt.buffer@));
            assert(code_of(self.buffer@) == code_of(old_pkt.buffer@));
            assert(id_of(self.buffer@) == id_of(old_pkt.buffer@));
            assert(token_of(self.buffer@) =~= token_of(old_pkt.buffer@));
            // the old option region kept its bytes, so the old views are intact
            let hdr = old_pkt.hdr_len();
            let old_region = old_pkt.buffer@.subrange(hdr, old_pkt.opts_end as int);
            let new_region = self.buffer@.subrange(hdr, self.opts_end as int);
            assert(new_region =~= old_region + e);
            assert(self.options_view() =~= old_pkt.options_view().push(newov)) by {
                assert forall|k: int| 0 <= k < old_pkt.options@.len() implies self.opt_view(k)
                    == old_pkt.opt_view(k) by {
                    assert(self.buffer@.subrange(
                        self.options@[k].start as int,
                        self.options@[k].start + self.options@[k].len,
                    ) =~= old_pkt.buffer@.subrange(
                        old_pkt.options@[k].start as int,
                        old_pkt.options@[k].start + old_pkt.options@[k].len,
                    ));
                }
            }
            assert(old_pkt.payload_view() =~= Seq::<u8>::empty());
            assert(old_pkt.buffer@.subrange(old_pkt.hdr_len(), old_pkt.msg_end()) == old_region);
            lemma_decode_append(old_region, 0, old_pkt.options_view(), num, value@);
            assert(decode_options(new_region, 0) == Some(
                (old_pkt.options_view().push(newov), Seq::<u8>::empty()),
            ));
            assert(self.payload_view() =~= Seq::<u8>::empty());
            assert(self.options_view().last() == newov);
            assert(self.wf());
        }
        Ok(())
    }
}

/// The first option with the given number, in wire order.
pub open spec fn first_option(opts: Seq<OptionView>, num: u16) -> Option<OptionView>
    decreases opts.len(),
{
    if opts.len() == 0 {
        None
    } else if opts[0].number == num {
        Some(opts[0])
    } else {
        first_option(opts.skip(1), num)
    }
}

/// The numeric value a format option denotes: the zero- to two-byte
/// big-endian integer of its value, or the reserved maximum when the
/// option is absent or its value too long to be a format.
pub open spec fn format_wire_value(o: Option<OptionView>) -> u32 {
    match o {
        Option::None => 65535,
        Option::Some(o) => {
            if o.value.len() == 0 {
                0
            } else if o.value.len() == 1 {
                o.value[0] as u32
            } else if o.value.len() == 2 {
                ((o.value[0] as u32) * 256 + (o.value[1] as u32)) as u32
            } else {
                65535
            }
        },
    }
}

/// Dropping matched-free prefixes does not change which option is found
/// first.
proof fn lemma_first_option_skip(opts: Seq<OptionView>, num: u16, i: int)
    requires
        0 <= i <= opts.len(),
        forall|j: int| 0 <= j < i ==> (#[trigger] opts[j]).number != num,
    ensures
        first_option(opts, num) == first_option(opts.skip(i), num),
    decreases i,
{
    if i > 0 {
        assert(opts[0].number != num);
        assert(opts.len() > 0);
        lemma_first_option_skip(opts.skip(1), num, i - 1);
        assert(opts.skip(1).skip(i - 1) =~= opts.skip(i));
    } else {
        assert(opts.skip(0) =~= opts);
    }
}

impl CoapPacket {
    /// The numeric value of the first option with the given number, in
    /// the zero- to two-byte format-option reading.
    fn option_format_value(&self, num: u16) -> (v: u32)
        requires
            self.wf(),
        ensures
            v == format_wire_value(first_option(self.options_view(), num)),
    {
        let count = self.options.len();
        let mut i: usize = 0;
        while i < count
            invariant
                self.wf(),
                count == self.options@.len(),
                i <= count,
                forall|j: int| 0 <= j < i ==> (#[trigger] self.options_view()[j]).number != num,
            decreases count - i,
        {
            let o = self.options[i];
            if o.number == num {
                proof {
                    lemma_first_option_skip(self.options_view(), num, i as int);
                    assert(self.options_view().skip(i as int)[0] == self.options_view()[i as int]);
                    assert(first_option(self.options_view(), num) == Some(
                        self.options_view()[i as int],
                    ));
                    assert(self.options_view()[i as int].value == self.buffer@.subrange(
                        o.start as int,
                        o.start + o.len,
                    ));
                }
                if o.len == 0 {
                    return 0;
                } else if o.len == 1 {
                    let b = self.buffer[o.start];
                    proof {
                        assert(self.buffer@.subrange(o.start as int, o.start + o.len)[0] == b);
                    }
                    return b as u32;
                } else if o.len == 2 {
                    let hi = self.buffer[o.start];
                    let lo = self.buffer[o.start + 1];
                    proof {
                        assert(self.buffer@.subrange(o.start as int, o.start + o.len)[0] == hi);
                        assert(self.buffer@.subrange(o.start as int, o.start + o.len)[1] == lo);
                    }
                    return 256 * (hi as u32) + (lo as u32);
                } else {
                    return 65535;
                }
            }
            proof {
                assert(self.options_view()[i as int].number == o.number);
            }
            i = i + 1;
        }
        proof {
            lemma_first_option_skip(self.options_view(), num, count as int);
            assert(self.options_view().skip(count as int) =~= Seq::<OptionView>::empty());
        }
        65535
    }

    /// The message type of the packet's header; total, since every
    /// two-bit value is a type.
    pub fn get_type(&self) -> (r: Result<CoapMessageType, CoapPacketError>)
        requires
            self.wf(),
        ensures
            r == CoapMessageType::spec_from_wire(self.spec_type_bits() as u32),
    {
        let bits = (self.buffer[0] >> 4u8) & 3u8;
        CoapMessageType::from_c(bits as u32)
    }

    /// A copy of the payload bytes; empty when the message carries
    /// none.
    pub fn get_payload(&self) -> (p: Vec<u8>)
        requires
            self.wf(),
        ensures
            p@ == self.payload_view(),
    {
        let mut out: Vec<u8> = Vec::new();
        if !self.has_payload_marker {
            return out;
        }
        let start = self.opts_end + 1;
        let mut i: usize = 0;
        while i < self.payload_len
            invariant
                i <= self.payload_len,
                start == self.opts_end + 1,
                start + self.payload_len <= self.buffer@.len() <= usize::MAX,
                out@ == self.buffer@.subrange(start as int, start + i),
            decreases self.payload_len - i,
        {
            out.push(self.buffer[start + i]);
            proof {
                assert(out@ =~= self.buffer@.subrange(start as int, start + i + 1));
            }
            i = i + 1;
        }
        proof {
            assert(out@ =~= self.payload_view());
        }
        out
    }

    /// A copy of the value of the first option with the given number,
    /// or `None` when the message carries no such option.
    pub fn get_option_value(&self, number: u16) -> (r: Option<Vec<u8>>)
        requires
            self.wf(),
        ensures
            first_option(self.options_view(), number) is None ==> r is None,
            first_option(self.options_view(), number) matches Some(o) ==> (r matches Some(v) && v@
                == o.value),
    {
        let count = self.options.len();
        let mut i: usize = 0;
        while i < count
            invariant
                self.wf(),
                count == self.options@.len(),
                i <= count,
                forall|j: int| 0 <= j < i ==> (#[trigger] self.options_view()[j]).number != number,
            decreases count - i,
        {
            let o = self.options[i];
            if o.number == number {
                proof {
                    lemma_first_option_skip(self.options_view(), number, i as int);
                    assert(self.options_view().skip(i as int)[0] == self.options_view()[i as int]);
                    assert(first_option(self.options_view(), number) == Some(
                        self.options_view()[i as int],
                    ));
                    assert(o.start + o.len <= self.opts_end);
                }
                let mut out: Vec<u8> = Vec::new();
                let mut j: usize = 0;
                while j < o.len
                    invariant
                        j <= o.len,
                        o.start + o.len <= self.buffer@.len() <= usize::MAX,
                        out@ == self.buffer@.subrange(o.start as int, o.start + j),
                    decreases o.len - j,
                {
                    out.push(self.buffer[o.start + j]);
                    proof {
                        assert(out@ =~= self.buffer@.subrange(o.start as int, o.start + j + 1));
                    }
                    j = j + 1;
                }
                proof {
                    assert(out@ =~= self.options_view()[i as int].value);
                }
                return Some(out);
            }
            proof {
                assert(self.options_view()[i as int].number == o.number);
            }
            i = i + 1;
        }
        proof {
            lemma_first_option_skip(self.options_view(), number, count as int);
            assert(self.options_view().skip(count as int) =~= Seq::<OptionView>::empty());
        }
        None
    }

    /// The content format the packet declares for its payload;
    /// [`CoapContentFormat::NoFormat`] when the option is absent or its
    /// value unallocated.
    pub fn get_content_type(&self) -> (r: CoapContentFormat)
        requires
            self.wf(),
        ensures
            r == CoapContentFormat::spec_from_wire(
                format_wire_value(first_option(self.options_view(), OPT_CONTENT_FORMAT)),
            ),
    {
        CoapContentFormat::from_c(self.option_format_value(OPT_CONTENT_FORMAT))
    }

    /// The content format the packet's sender will accept in the
    /// answer; [`CoapContentFormat::NoFormat`] when the option is absent
    /// or its value unallocated.
    pub fn get_accept(&self) -> (r: CoapContentFormat)
        requires
            self.wf(),
        ensures
            r == CoapContentFormat::spec_from_wire(
                format_wire_value(first_option(self.options_view(), OPT_ACCEPT)),
            ),
    {
        CoapContentFormat::from_c(self.option_format_value(OPT_ACCEPT))
    }
}

/// The path the Uri-Path options of a message spell: one slash before
/// each segment, nothing for other options.
pub open spec fn uri_path_of(opts: Seq<OptionView>) -> Seq<u8>
    decreases opts.len(),
{
    if opts.len() == 0 {
        seq![]
    } else {
        (if opts[0].number == OPT_URI_PATH {
            seq![0x2fu8] + opts[0].value
        } else {
            seq![]
        }) + uri_path_of(opts.skip(1))
    }
}

/// The request URI a message addresses: the root path when it names no
/// segment, else the slash-joined segments.
pub open spec fn uri_of(opts: Seq<OptionView>) -> Seq<u8> {
    if uri_path_of(opts).len() == 0 {
        seq![0x2fu8]
    } else {
        uri_path_of(opts)
    }
}

/// Walking one more option extends the spelled path by exactly that
/// option's contribution.
proof fn lemma_uri_path_take(opts: Seq<OptionView>, i: int)
    requires
        0 <= i < opts.len(),
    ensures
        uri_path_of(opts.take(i + 1)) == uri_path_of(opts.take(i)) + (if opts[i].number
            == OPT_URI_PATH {
            seq![0x2fu8] + opts[i].value
        } else {
            seq![]
        }),
    decreases i,
{
    if i == 0 {
        assert(opts.take(1) =~= seq![opts[0]]);
        assert(opts.take(1).skip(1) =~= Seq::<OptionView>::empty());
        assert(opts.take(0) =~= Seq::<OptionView>::empty());
        assert(uri_path_of(Seq::<OptionView>::empty()) == Seq::<u8>::empty());
        assert(opts.take(1)[0] == opts[0]);
        assert(uri_path_of(opts.take(1)) =~= (if opts[0].number == OPT_URI_PATH {
            seq![0x2fu8] + opts[0].value
        } else {
            seq![]
        }));
    } else {
        lemma_uri_path_take(opts.skip(1), i - 1);
        assert(opts.take(i + 1).skip(1) =~= opts.skip(1).take(i));
        assert(opts.take(i).skip(1) =~= opts.skip(1).take(i - 1));
        assert(opts.take(i + 1)[0] == opts[0]);
        assert(opts.take(i)[0] == opts[0]);
        assert(opts.take(i).len() == i);
        assert(opts.skip(1)[i - 1] == opts[i]);
        let c0 = if opts[0].number == OPT_URI_PATH {
            seq![0x2fu8] + opts[0].value
        } else {
            seq![]
        };
        let ci = if opts[i].number == OPT_URI_PATH {
            seq![0x2fu8] + opts[i].value
        } else {
            seq![]
        };
        assert(uri_path_of(opts.take(i + 1)) == c0 + uri_path_of(opts.skip(1).take(i)));
        assert(uri_path_of(opts.take(i)) == c0 + uri_path_of(opts.skip(1).take(i - 1)));
        assert(c0 + (uri_path_of(opts.skip(1).take(i - 1)) + ci) =~= (c0 + uri_path_of(
            opts.skip(1).take(i - 1),
        )) + ci);
    }
}

impl CoapPacket {
    /// A copy of the token bytes.
    fn token_vec(&self) -> (t: Vec<u8>)
        requires
            self.wf(),
        ensures
            t@ == self.spec_token(),
    {
        let mut out: Vec<u8> = Vec::new();
        let mut i: usize = 0;
        while i < self.token_len
            invariant
                i <= self.token_len,
                HEADER_SIZE + self.token_len <= self.buffer@.len() <= usize::MAX,
                out@ == self.buffer@.subrange(HEADER_SIZE as int, HEADER_SIZE + i),
            decreases self.token_len - i,
        {
            out.push(self.buffer[HEADER_SIZE + i]);
            proof {
                assert(out@ =~= self.buffer@.subrange(HEADER_SIZE as int, HEADER_SIZE + i + 1));
            }
            i = i + 1;
        }
        proof {
            assert(out@ =~= self.spec_token());
        }
        out
    }

    /// The URI the packet's Uri-Path options address, as a slash-joined
    /// byte string; the root path when there is no such option.
    pub fn uri_path(&self) -> (p: Vec<u8>)
        requires
            self.wf(),
        ensures
            p@ == uri_of(self.options_view()),
    {
        let count = self.options.len();
        let mut out: Vec<u8> = Vec::new();
        let mut i: usize = 0;
        while i < count
            invariant
                self.wf(),
                count == self.options@.len(),
                i <= count,
                out@ == uri_path_of(self.options_view().take(i as int)),
            decreases count - i,
        {
            let o = self.options[i];
            proof {
                assert(self.options_view()[i as int].number == o.number);
                assert(self.options_view()[i as int].value == self.buffer@.subrange(
                    o.start as int,
                    o.start + o.len,
                ));
                assert(o.start + o.len <= self.opts_end);
            }
            if o.number == OPT_URI_PATH {
                out.push(0x2fu8);
                let ghost before = out@;
                let mut j: usize = 0;
                while j < o.len
                    invariant
                        j <= o.len,
                        o.start + o.len <= self.buffer@.len() <= usize::MAX,
                        out@ == before + self.buffer@.subrange(o.start as int, o.start + j),
                    decreases o.len - j,
                {
                    out.push(self.buffer[o.start + j]);
                    proof {
                        assert(out@ =~= before + self.buffer@.subrange(
                            o.start as int,
                            o.start + j + 1,
                        ));
                    }
                    j = j + 1;
                }
                proof {
                    assert(out@ =~= uri_path_of(self.options_view().take(i as int)) + (seq![0x2fu8]
                        + self.options_view()[i as int].value));
                }
            }
            proof {
                lemma_uri_path_take(self.options_view(), i as int);
            }
            i = i + 1;
        }
        proof {
            assert(self.options_view().take(count as int) =~= self.options_view());
        }
        if out.len() == 0 {
            out.push(0x2fu8);
        }
        out
    }

    /// Overwrites the message code in place; everything else of the
    /// packet keeps its value.
    pub fn header_set_code(&mut self, code: CoapCode)
        requires
            old(self).wf(),
        ensures
            final(self).wf(),
            final(self).spec_code() == code.wire(),
            final(self).spec_token() == old(self).spec_token(),
            final(self).spec_id() == old(self).spec_id(),
            final(self).spec_type_bits() == old(self).spec_type_bits(),
            final(self).spec_version_bits() == old(self).spec_version_bits(),
            final(self).options_view() == old(self).options_view(),
            final(self).payload_view() == old(self).payload_view(),
            final(self).msg_end() == old(self).msg_end(),
            final(self).buffer@.len() == old(self).buffer@.len(),
    {
        let w = code.to_c();
        proof {
            assert(w < 256);
        }
        self.buffer.set(1, w as u8);
        proof {
            self.lemma_unchanged_below_region(*old(self), 1);
        }
    }

    /// Overwrites the message type in place; version, token length and
    /// everything else of the packet keep their values.
    pub fn header_set_type(&mut self, type_: CoapMessageType)
        requires
            old(self).wf(),
        ensures
            final(self).wf(),
            final(self).spec_type_bits() == type_.wire(),
            final(self).spec_code() == old(self).spec_code(),
            final(self).spec_token() == old(self).spec_token(),
            final(self).spec_id() == old(self).spec_id(),
            final(self).spec_version_bits() == old(self).spec_version_bits(),
            final(self).options_view() == old(self).options_view(),
            final(self).payload_view() == old(self).payload_view(),
            final(self).msg_end() == old(self).msg_end(),
            final(self).buffer@.len() == old(self).buffer@.len(),
    {
        let t = type_.to_c() as u8;
        let b0 = self.buffer[0];
        let nb0: u8 = (b0 & 0xcfu8) | (t << 4u8);
        proof {
            assert(t < 4);
            crate::wire::lemma_set_type_bits(b0, t);
        }
        self.buffer.set(0, nb0);
        proof {
            self.lemma_unchanged_below_region(*old(self), 0);
        }
    }

    /// A packet whose bytes changed only below the option region, with
    /// the token-length nibble intact, keeps its views and its
    /// well-formedness.
    proof fn lemma_unchanged_below_region(&self, prev: CoapPacket, idx: int)
        requires
            prev.wf(),
            0 <= idx < HEADER_SIZE,
            self.buffer@.len() == prev.buffer@.len(),
            self.token_len == prev.token_len,
            self.options@ == prev.options@,
            self.last_opt_num == prev.last_opt_num,
            self.opts_end == prev.opts_end,
            self.has_payload_marker == prev.has_payload_marker,
            self.payload_len == prev.payload_len,
            forall|j: int| 0 <= j < self.buffer@.len() && j != idx ==> self.buffer@[j]
                == prev.buffer@[j],
            tkl_of(self.buffer@) == tkl_of(prev.buffer@),
        ensures
            self.wf(),
            self.options_view() == prev.options_view(),
            self.payload_view() == prev.payload_view(),
            self.spec_token() == prev.spec_token(),
    {
        assert(self.spec_token() =~= prev.spec_token());
        assert forall|k: int| 0 <= k < self.options@.len() implies self.opt_view(k)
            == prev.opt_view(k) by {
            assert(prev.hdr_len() <= prev.options@[k].start);
            assert(self.buffer@.subrange(
                self.options@[k].start as int,
                self.options@[k].start + self.options@[k].len,
            ) =~= prev.buffer@.subrange(
                prev.options@[k].start as int,
                prev.options@[k].start + prev.options@[k].len,
            ));
        }
        assert(self.options_view() =~= prev.options_view());
        assert(self.payload_view() =~= prev.payload_view());
        assert(self.buffer@.subrange(self.hdr_len(), self.msg_end()) =~= prev.buffer@.subrange(
            prev.hdr_len(),
            prev.msg_end(),
        ));
    }

    /// The type of a reply to this packet: a confirmable request gets a
    /// piggybacked acknowledgement, anything else a non-confirmable
    /// message.
    pub open spec fn reply_type(self) -> CoapMessageType {
        if type_bits(self.buffer@) == 0 {
            CoapMessageType::Ack
        } else {
            CoapMessageType::Non
        }
    }

    /// The value bytes of a Content-Format option: the shortest
    /// big-endian form of the format's number.
    pub open spec fn cf_value_bytes(v: u16) -> Seq<u8> {
        if v == 0 {
            seq![]
        } else if v < 256 {
            seq![v as u8]
        } else {
            seq![(v >> 8) as u8, v as u8]
        }
    }

    /// The option stream a reply carries: one Content-Format option, or
    /// none when no recognized format was named.
    pub open spec fn cf_option_views(cf: Option<CoapContentFormat>) -> Seq<OptionView> {
        match cf {
            Option::None => seq![],
            Option::Some(f) => {
                if f == CoapContentFormat::NoFormat {
                    seq![]
                } else {
                    seq![
                        OptionView {
                            number: OPT_CONTENT_FORMAT,
                            value: Self::cf_value_bytes(f.wire() as u16),
                        },
                    ]
                }
            },
        }
    }

    /// The exact bytes of a reply to this packet: the reply header with
    /// the request's token and id, the Content-Format option when one is
    /// named, and the payload behind the marker when one is given.
    pub open spec fn spec_reply(
        self,
        code: CoapCode,
        cf: Option<CoapContentFormat>,
        payload: Seq<u8>,
    ) -> Seq<u8> {
        spec_header(self.reply_type(), self.spec_token(), code.wire() as u8, self.spec_id())
            + crate::wire::encode_options(0, Self::cf_option_views(cf)) + payload_part(payload)
    }

    /// Every reply the engine lays out is itself a parseable message
    /// carrying the reply's own fields: the request's token and id, the
    /// reply code, the named Content-Format option and the payload.
    pub proof fn lemma_reply_round_trip(
        self,
        code: CoapCode,
        cf: Option<CoapContentFormat>,
        payload: Seq<u8>,
    )
        requires
            self.wf(),
        ensures
            ({
                let m = self.spec_reply(code, cf, payload);
                &&& Self::parse_ok(m)
                &&& version_bits(m) == 1
                &&& type_bits(m) == self.reply_type().wire()
                &&& token_of(m) == self.spec_token()
                &&& code_of(m) == code.wire()
                &&& id_of(m) == self.spec_id()
                &&& decode_options(
                    m.subrange(HEADER_SIZE + self.spec_token().len(), m.len() as int),
                    0,
                ) == Some((Self::cf_option_views(cf), payload))
            }),
    {
        let views = Self::cf_option_views(cf);
        assert(crate::wire::opts_wf(0, views)) by {
            match cf {
                Option::Some(f) => {
                    if f != CoapContentFormat::NoFormat {
                        assert(views.skip(1) =~= Seq::<OptionView>::empty());
                        assert(crate::wire::opts_wf(
                            OPT_CONTENT_FORMAT as nat,
                            Seq::<OptionView>::empty(),
                        ));
                        assert(Self::cf_value_bytes(f.wire() as u16).len() <= 2);
                    }
                },
                Option::None => {},
            }
        }
        crate::wire::lemma_message_round_trip(
            self.reply_type(),
            self.spec_token(),
            code.wire() as u8,
            self.spec_id(),
            views,
            payload,
        );
        assert(code.wire() < 256);
    }

    /// Builds a bare reply into the caller's buffer: the reply header
    /// with this packet's token and id and the given code, and nothing
    /// else.  Succeeds exactly when the buffer holds header and token;
    /// a smaller buffer is [`CoapPacketError::SmallBufferError`] and is
    /// left untouched.
    pub fn reply_no_payload(&self, resp_buffer: &mut Vec<u8>, code: CoapCode) -> (r: Result<
        (),
        CoapPacketError,
    >)
        requires
            self.wf(),
        ensures
            final(resp_buffer)@.len() == old(resp_buffer)@.len(),
            r is Ok <==> old(resp_buffer)@.len() >= HEADER_SIZE + self.spec_token().len(),
            r matches Err(e) ==> e == CoapPacketError::SmallBufferError && final(resp_buffer)@
                == old(resp_buffer)@,
            r is Ok ==> {
                &&& final(resp_buffer)@.subrange(
                    0,
                    HEADER_SIZE + self.spec_token().len(),
                ) == spec_header(
                    self.reply_type(),
                    self.spec_token(),
                    code.wire() as u8,
                    self.spec_id(),
                )
                &&& final(resp_buffer)@.subrange(
                    HEADER_SIZE + self.spec_token().len(),
                    final(resp_buffer)@.len() as int,
                ) == old(resp_buffer)@.subrange(
                    HEADER_SIZE + self.spec_token().len(),
                    old(resp_buffer)@.len() as int,
                )
            },
    {
        let token = self.token_vec();
        let rt = self.reply_type_exec();
        let w = code.to_c();
        proof {
            assert(w < 256);
        }
        let id = self.get_id();
        match build_header(resp_buffer, rt, token.as_slice(), w as u8, id) {
            Ok(_) => Ok(()),
            Err(_) => Err(CoapPacketError::SmallBufferError),
        }
    }

    /// The reply type as a value.
    fn reply_type_exec(&self) -> (t: CoapMessageType)
        requires
            self.wf(),
        ensures
            t == self.reply_type(),
    {
        let bits = (self.buffer[0] >> 4u8) & 3u8;
        if bits == 0 {
            CoapMessageType::Ack
        } else {
            CoapMessageType::Non
        }
    }

    /// Builds a complete reply into the caller's buffer in one call:
    /// the reply header with this packet's token and id, a
    /// Content-Format option when a recognized format is named, and the
    /// payload behind the marker when one is given.  Returns the number
    /// of bytes written.  Succeeds exactly when the buffer holds the
    /// whole reply; a smaller buffer is
    /// [`CoapPacketError::SmallBufferError`] and is left untouched.
    #[verifier::rlimit(80)]
    pub fn reply_simple(
        &self,
        resp_buffer: &mut Vec<u8>,
        code: CoapCode,
        content_format_opt: Option<CoapContentFormat>,
        payload: &[u8],
    ) -> (r: Result<usize, CoapPacketError>)
        requires
            self.wf(),
        ensures
            final(resp_buffer)@.len() == old(resp_buffer)@.len(),
            r is Ok <==> old(resp_buffer)@.len() >= self.spec_reply(
                code,
                content_format_opt,
                payload@,
            ).len(),
            r matches Err(e) ==> e == CoapPacketError::SmallBufferError && final(resp_buffer)@
                == old(resp_buffer)@,
            r matches Ok(n) ==> {
                &&& n == self.spec_reply(code, content_format_opt, payload@).len()
                &&& final(resp_buffer)@.subrange(0, n as int) == self.spec_reply(
                    code,
                    content_format_opt,
                    payload@,
                )
                &&& final(resp_buffer)@.subrange(n as int, final(resp_buffer)@.len() as int)
                    == old(resp_buffer)@.subrange(n as int, old(resp_buffer)@.len() as int)
            },
    {
        let ghost reply = self.spec_reply(code, content_format_opt, payload@);
        let token = self.token_vec();
        let rt = self.reply_type_exec();
        let w = code.to_c();
        proof {
            assert(w < 256);
        }
        let id = self.get_id();
        // the Content-Format option's value, shortest big-endian form
        let ghost cf_views = Self::cf_option_views(content_format_opt);
        let mut cf_value: Vec<u8> = Vec::new();
        let mut has_cf = false;
        match content_format_opt {
            Some(f) => {
                let fw16 = f.to_c() as u16;
                if fw16 != 65535 {
                    has_cf = true;
                    if fw16 == 0 {
                    } else if fw16 < 256 {
                        cf_value.push(fw16 as u8);
                    } else {
                        cf_value.push((fw16 >> 8u16) as u8);
                        cf_value.push(fw16 as u8);
                    }
                    proof {
                        assert(fw16 == f.wire());
                        assert(f != CoapContentFormat::NoFormat);
                        assert(cf_value@ =~= Self::cf_value_bytes(fw16));
                        assert(cf_views =~= seq![
                            OptionView { number: OPT_CONTENT_FORMAT, value: cf_value@ },
                        ]);
                    }
                } else {
                    proof {
                        assert(f.wire() == 65535);
                        assert(f == CoapContentFormat::NoFormat);
                        assert(cf_views =~= Seq::<OptionView>::empty());
                    }
                }
            },
            None => {
                proof {
                    assert(cf_views =~= Seq::<OptionView>::empty());
                }
            },
        }
        let opt_len: usize = if has_cf {
            1 + cf_value.len()
        } else {
            0
        };
        let ghost opts_bytes = crate::wire::encode_options(0, cf_views);
        proof {
            if has_cf {
                assert(cf_views.skip(1) =~= Seq::<OptionView>::empty());
                assert(crate::wire::encode_options(12, Seq::<OptionView>::empty())
                    == Seq::<u8>::empty());
                assert(opts_bytes =~= encode_option(12, cf_value@));
                assert(crate::wire::ext_of(12).len() == 0);
                assert(crate::wire::ext_of(cf_value@.len()).len() == 0);
                assert(opts_bytes.len() == 1 + cf_value@.len());
            } else {
                assert(opts_bytes == Seq::<u8>::empty());
            }
        }
        let hn = HEADER_SIZE + token.len();
        let base = hn + opt_len;
        let plen = payload.len();
        proof {
            assert(reply.len() == base + if plen > 0 {
                1 + plen as int
            } else {
                0
            });
        }
        if plen > 0 {
            if resp_buffer.len() < base + 1 || resp_buffer.len() - base - 1 < plen {
                return Err(CoapPacketError::SmallBufferError);
            }
        } else {
            if resp_buffer.len() < base {
                return Err(CoapPacketError::SmallBufferError);
            }
        }
        let ghost header = spec_header(
            self.reply_type(),
            self.spec_token(),
            code.wire() as u8,
            self.spec_id(),
        );
        let ghost resp0 = resp_buffer@;
        match build_header(resp_buffer, rt, token.as_slice(), w as u8, id) {
            Ok(_) => {},
            Err(_) => {
                return Err(CoapPacketError::ReplyError);
            },
        }
        proof {
            assert forall|j: int| hn <= j < resp_buffer@.len() implies resp_buffer@[j]
                == resp0[j] by {
                assert(resp_buffer@.subrange(hn as int, resp_buffer@.len() as int)[j - hn]
                    == resp0.subrange(hn as int, resp0.len() as int)[j - hn]);
            }
        }
        let ghost resp1 = resp_buffer@;
        if has_cf {
            match crate::wire::put_option(resp_buffer, hn, 0, OPT_CONTENT_FORMAT,
                cf_value.as_slice()) {
                Ok(_) => {},
                Err(_) => {
                    return Err(CoapPacketError::ReplyError);
                },
            }
            proof {
                assert(resp_buffer@.subrange(0, hn as int) =~= header);
                assert forall|j: int| base <= j < resp_buffer@.len() implies resp_buffer@[j]
                    == resp1[j] by {
                    assert(resp_buffer@.subrange(base as int, resp_buffer@.len() as int)[j - base]
                        == resp1.subrange(base as int, resp1.len() as int)[j - base]);
                }
            }
        }
        proof {
            assert(resp_buffer@.subrange(0, hn as int) == header);
            assert(resp_buffer@.subrange(hn as int, base as int) =~= opts_bytes);
            assert forall|j: int| base <= j < resp_buffer@.len() implies resp_buffer@[j] == old(
                resp_buffer,
            )@[j] by {
                if has_cf {
                    assert(resp_buffer@[j] == resp1[j]);
                }
                assert(resp1[j] == resp0[j]);
            }
        }
        if plen == 0 {
            proof {
                assert(payload_part(payload@) == Seq::<u8>::empty());
                assert(resp_buffer@.subrange(0, base as int) =~= reply);
                assert(resp_buffer@.subrange(base as int, resp_buffer@.len() as int) =~= old(
                    resp_buffer,
                )@.subrange(base as int, old(resp_buffer)@.len() as int));
            }
            return Ok(base);
        }
        resp_buffer.set(base, PAYLOAD_MARKER);
        let mut i: usize = 0;
        while i < plen
            invariant
                i <= plen,
                plen == payload@.len(),
                base + 1 + plen <= resp_buffer@.len() <= usize::MAX,
                resp_buffer@.len() == old(resp_buffer)@.len(),
                resp_buffer@[base as int] == PAYLOAD_MARKER,
                resp_buffer@.subrange(0, base as int) == header + opts_bytes,
                forall|j: int| 0 <= j < i ==> resp_buffer@[base + 1 + j] == payload@[j],
                forall|j: int|
                    base + 1 + plen <= j < resp_buffer@.len() ==> #[trigger] resp_buffer@[j]
                        == old(resp_buffer)@[j],
            decreases plen - i,
        {
            resp_buffer.set(base + 1 + i, payload[i]);
            proof {
                assert(resp_buffer@.subrange(0, base as int) =~= header + opts_bytes);
            }
            i = i + 1;
        }
        let n = base + 1 + plen;
        proof {
            assert(resp_buffer@.subrange(0, n as int) =~= reply);
            assert(resp_buffer@.subrange(n as int, resp_buffer@.len() as int) =~= old(
                resp_buffer,
            )@.subrange(n as int, old(resp_buffer)@.len() as int));
        }
        Ok(n)
    }
}

} // verus!
