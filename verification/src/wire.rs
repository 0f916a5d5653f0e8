//! The byte-level wire format: the fixed header and the delta-encoded
//! option stream of RFC 7252.
//!
//! Everything a message puts on the wire is stated here as a function of
//! plain values: [`spec_header`] gives the exact bytes of a header,
//! [`encode_option`] and [`encode_options`] the bytes of an option
//! stream, and [`decode_options`] reads such a stream back, yielding
//! `None` on malformed input.  The round-trip laws at the end of the
//! module tie the two directions together.

use vstd::prelude::*;
use crate::codes::CoapMessageType;
use crate::error::CoapPacketError;

verus! {

/// The size of the fixed message header in bytes.
pub const HEADER_SIZE: usize = 4;

/// The longest token the protocol admits.
pub const MAX_TOKEN_LEN: usize = 8;

/// The longest option value the two-byte extended length can carry:
/// 65535 plus the 269 offset of the extended form.
pub const MAX_OPTION_VALUE_LEN: usize = 65804;

/// The byte that separates the option stream from the payload.
pub const PAYLOAD_MARKER: u8 = 0xff;

/// The first header byte: version 1 in the top two bits, the message
/// type in the next two, the token length in the low nibble.
pub open spec fn hdr_byte0(t: CoapMessageType, tkl: u8) -> u8 {
    0x40u8 | ((t.wire() as u8) << 4) | tkl
}

/// The exact bytes of a message header: version-type-length byte, code
/// byte, big-endian message id, then the token.
pub open spec fn spec_header(t: CoapMessageType, token: Seq<u8>, code: u8, id: u16) -> Seq<u8> {
    seq![
        hdr_byte0(t, token.len() as u8),
        code,
        (id >> 8) as u8,
        id as u8,
    ] + token
}

/// The version bits of a header.
pub open spec fn version_bits(b: Seq<u8>) -> u8 {
    b[0] >> 6
}

/// The message-type bits of a header.
pub open spec fn type_bits(b: Seq<u8>) -> u8 {
    (b[0] >> 4) & 3
}

/// The token-length nibble of a header.
pub open spec fn tkl_of(b: Seq<u8>) -> u8 {
    b[0] & 0x0f
}

/// The code byte of a header.
pub open spec fn code_of(b: Seq<u8>) -> u8 {
    b[1]
}

/// The big-endian message id of a header.
pub open spec fn id_of(b: Seq<u8>) -> u16 {
    (((b[2] as u16) << 8) | (b[3] as u16)) as u16
}

/// The token bytes of a header.
pub open spec fn token_of(b: Seq<u8>) -> Seq<u8> {
    b.subrange(HEADER_SIZE as int, HEADER_SIZE + tkl_of(b) as int)
}

/// Packing a two-bit type and a small token length into the first header
/// byte keeps each field readable and the version at 1.
pub proof fn lemma_byte0_fields(t: u8, k: u8)
    by (bit_vector)
    requires
        t < 4,
        k <= 8,
    ensures
        (0x40u8 | (t << 4) | k) >> 6 == 1,
        ((0x40u8 | (t << 4) | k) >> 4) & 3 == t,
        (0x40u8 | (t << 4) | k) & 0x0f == k,
{
}

/// Replacing the two type bits of a first header byte keeps the
/// version bits and the token-length nibble.
pub proof fn lemma_set_type_bits(b: u8, t: u8)
    by (bit_vector)
    requires
        t < 4,
    ensures
        ((b & 0xcf) | (t << 4)) >> 6 == b >> 6,
        (((b & 0xcf) | (t << 4)) >> 4) & 3 == t,
        ((b & 0xcf) | (t << 4)) & 0x0f == b & 0x0f,
{
}

/// A sixteen-bit value split into two bytes big-endian recomposes.
pub proof fn lemma_u16_bytes(x: u16)
    by (bit_vector)
    ensures
        ((((x >> 8) as u8) as u16) << 8) | ((x as u8) as u16) == x,
        (((x >> 8) as u8) as u32) * 256 + ((x as u8) as u32) == x as u32,
{
}

/// Every header field reads back from the bytes that [`spec_header`]
/// lays down.
pub proof fn lemma_header_fields(t: CoapMessageType, token: Seq<u8>, code: u8, id: u16)
    requires
        token.len() <= MAX_TOKEN_LEN,
    ensures
        spec_header(t, token, code, id).len() == HEADER_SIZE + token.len(),
        version_bits(spec_header(t, token, code, id)) == 1,
        type_bits(spec_header(t, token, code, id)) == t.wire(),
        tkl_of(spec_header(t, token, code, id)) == token.len(),
        code_of(spec_header(t, token, code, id)) == code,
        id_of(spec_header(t, token, code, id)) == id,
        token_of(spec_header(t, token, code, id)) == token,
{
    let b = spec_header(t, token, code, id);
    lemma_byte0_fields(t.wire() as u8, token.len() as u8);
    lemma_u16_bytes(id);
    assert(token_of(b) =~= token);
}

/// Writes a message header into the front of `buffer`: the
/// version-type-length byte, the code, the big-endian id and the token.
///
/// Succeeds exactly when the token is within the protocol's length bound
/// and the buffer can hold the header; the bytes past the header keep
/// their old values, as does the buffer's length.
pub fn build_header(
    buffer: &mut Vec<u8>,
    type_: CoapMessageType,
    token: &[u8],
    code: u8,
    id: u16,
) -> (r: Result<usize, CoapPacketError>)
    ensures
        final(buffer)@.len() == old(buffer)@.len(),
        token@.len() > MAX_TOKEN_LEN ==> r == Err::<usize, CoapPacketError>(
            CoapPacketError::TokenSizeError,
        ),
        token@.len() <= MAX_TOKEN_LEN && old(buffer)@.len() < HEADER_SIZE + token@.len()
            ==> r == Err::<usize, CoapPacketError>(CoapPacketError::SmallBufferError),
        token@.len() <= MAX_TOKEN_LEN && old(buffer)@.len() >= HEADER_SIZE + token@.len()
            ==> r == Ok::<usize, CoapPacketError>((HEADER_SIZE + token@.len()) as usize),
        r matches Err(_) ==> final(buffer)@ == old(buffer)@,
        r matches Ok(n) ==> {
            &&& n == HEADER_SIZE + token@.len()
            &&& final(buffer)@.subrange(0, n as int) == spec_header(type_, token@, code, id)
            &&& final(buffer)@.subrange(n as int, final(buffer)@.len() as int) == old(
                buffer,
            )@.subrange(n as int, old(buffer)@.len() as int)
        },
{
    if token.len() > MAX_TOKEN_LEN {
        return Err(CoapPacketError::TokenSizeError);
    }
    let tkl = token.len();
    if buffer.len() < HEADER_SIZE + tkl {
        return Err(CoapPacketError::SmallBufferError);
    }
    let t_bits = type_.to_c() as u8;
    let byte0: u8 = 0x40u8 | (t_bits << 4u8) | (tkl as u8);
    proof {
        assert(t_bits < 4);
        assert(byte0 == hdr_byte0(type_, tkl as u8));
    }
    buffer.set(0, byte0);
    buffer.set(1, code);
    buffer.set(2, (id >> 8u16) as u8);
    buffer.set(3, id as u8);
    let mut i: usize = 0;
    while i < tkl
        invariant
            i <= tkl,
            tkl == token@.len() <= MAX_TOKEN_LEN,
            buffer@.len() == old(buffer)@.len() >= HEADER_SIZE + tkl,
            buffer@.subrange(0, HEADER_SIZE as int) == spec_header(
                type_,
                token@,
                code,
                id,
            ).subrange(0, HEADER_SIZE as int),
            buffer@.subrange(HEADER_SIZE as int, HEADER_SIZE + i) == token@.subrange(0, i as int),
            buffer@.subrange(HEADER_SIZE + tkl, buffer@.len() as int) == old(buffer)@.subrange(
                HEADER_SIZE + tkl,
                old(buffer)@.len() as int,
            ),
        decreases tkl - i,
    {
        buffer.set(HEADER_SIZE + i, token[i]);
        proof {
            assert(buffer@.subrange(0, HEADER_SIZE as int) =~= spec_header(
                type_,
                token@,
                code,
                id,
            ).subrange(0, HEADER_SIZE as int));
            assert(buffer@.subrange(HEADER_SIZE as int, HEADER_SIZE + i + 1) =~= token@.subrange(
                0,
                i + 1,
            ));
            assert(buffer@.subrange(HEADER_SIZE + tkl, buffer@.len() as int) =~= old(
                buffer,
            )@.subrange(HEADER_SIZE + tkl, old(buffer)@.len() as int));
        }
        i = i + 1;
    }
    proof {
        let h = spec_header(type_, token@, code, id);
        assert forall|j: int| 0 <= j < HEADER_SIZE + tkl implies buffer@[j] == h[j] by {
            if j < HEADER_SIZE {
                assert(buffer@.subrange(0, HEADER_SIZE as int)[j] == h.subrange(
                    0,
                    HEADER_SIZE as int,
                )[j]);
            } else {
                assert(buffer@.subrange(HEADER_SIZE as int, HEADER_SIZE + tkl)[j - HEADER_SIZE]
                    == token@.subrange(0, tkl as int)[j - HEADER_SIZE]);
            }
        }
        assert(buffer@.subrange(0, (HEADER_SIZE + tkl) as int) =~= spec_header(
            type_,
            token@,
            code,
            id,
        ));
    }
    Ok(HEADER_SIZE + tkl)
}

/// One option as a value: its absolute number and its value bytes.
#[verifier::ext_equal]
pub struct OptionView {
    pub number: u16,
    pub value: Seq<u8>,
}

/// The nibble that encodes an option delta or length: the value itself
/// below 13, or the marker for the one- or two-byte extended form.
pub open spec fn nib_of(v: nat) -> u8 {
    if v < 13 {
        v as u8
    } else if v < 269 {
        13
    } else {
        14
    }
}

/// The extension bytes that follow the nibble: none below 13, one byte
/// carrying `v - 13` below 269, else two bytes carrying `v - 269`
/// big-endian.
pub open spec fn ext_of(v: nat) -> Seq<u8> {
    if v < 13 {
        seq![]
    } else if v < 269 {
        seq![(v - 13) as u8]
    } else {
        seq![(((v - 269) as u16) >> 8) as u8, ((v - 269) as u16) as u8]
    }
}

/// The exact bytes of one encoded option with the given delta to its
/// predecessor's number.
pub open spec fn encode_option(delta: nat, value: Seq<u8>) -> Seq<u8> {
    seq![(nib_of(delta) << 4) | nib_of(value.len())] + ext_of(delta) + ext_of(value.len()) + value
}

/// An option sequence that may legally follow an option numbered `last`:
/// numbers non-decreasing from `last` on, every value within the length
/// bound of the encoding.
pub open spec fn opts_wf(last: nat, opts: Seq<OptionView>) -> bool
    decreases opts.len(),
{
    opts.len() == 0 || {
        &&& last <= opts[0].number
        &&& opts[0].value.len() <= MAX_OPTION_VALUE_LEN
        &&& opts_wf(opts[0].number as nat, opts.skip(1))
    }
}

/// The number the next option's delta counts from: `last` while nothing
/// is written, else the last written option's number.
pub open spec fn last_number(last: nat, opts: Seq<OptionView>) -> nat {
    if opts.len() == 0 {
        last
    } else {
        opts.last().number as nat
    }
}

/// The exact bytes of a whole option stream, each option delta-encoded
/// against its predecessor's number.
pub open spec fn encode_options(last: nat, opts: Seq<OptionView>) -> Seq<u8>
    decreases opts.len(),
{
    if opts.len() == 0 {
        seq![]
    } else {
        encode_option((opts[0].number - last) as nat, opts[0].value) + encode_options(
            opts[0].number as nat,
            opts.skip(1),
        )
    }
}

/// How many extension bytes a nibble announces.
pub open spec fn nib_ext_len(nib: u8) -> int {
    if nib < 13 {
        0
    } else if nib == 13 {
        1
    } else {
        2
    }
}

/// The delta or length a nibble and its extension bytes at `at` denote.
pub open spec fn nib_value(nib: u8, b: Seq<u8>, at: int) -> nat {
    if nib < 13 {
        nib as nat
    } else if nib == 13 {
        (13 + b[at]) as nat
    } else {
        (269 + (b[at] as int) * 256 + (b[at + 1] as int)) as nat
    }
}

/// Reads one option from the front of `b`, whose delta counts from
/// `last`: the option and the number of bytes it occupies, or `None` if
/// the front of `b` is not a well-formed option.
pub open spec fn decode_one(b: Seq<u8>, last: nat) -> Option<(OptionView, int)> {
    if b.len() < 1 {
        None
    } else {
        let dn = b[0] >> 4;
        let ln = b[0] & 0x0f;
        if dn == 15 || ln == 15 {
            None
        } else {
            let dext = nib_ext_len(dn);
            let lext = nib_ext_len(ln);
            if b.len() < 1 + dext + lext {
                None
            } else {
                let delta = nib_value(dn, b, 1);
                let vlen = nib_value(ln, b, 1 + dext);
                let hdr = 1 + dext + lext;
                if last + delta > u16::MAX {
                    None
                } else if b.len() < hdr + vlen {
                    None
                } else {
                    Some(
                        (
                            OptionView {
                                number: (last + delta) as u16,
                                value: b.subrange(hdr, hdr + vlen),
                            },
                            hdr + vlen,
                        ),
                    )
                }
            }
        }
    }
}

/// Reads a whole option stream with optional payload: the options in
/// order and the payload bytes behind the marker, or `None` if the bytes
/// are not a well-formed stream.  A marker followed by no payload is
/// malformed, as the protocol demands.
pub open spec fn decode_options(b: Seq<u8>, last: nat) -> Option<(Seq<OptionView>, Seq<u8>)>
    decreases b.len(),
{
    if b.len() == 0 {
        Some((seq![], seq![]))
    } else if b[0] == PAYLOAD_MARKER {
        if b.len() >= 2 {
            Some((seq![], b.skip(1)))
        } else {
            None
        }
    } else {
        match decode_one(b, last) {
            Option::None => None,
            Option::Some((opt, used)) => {
                if used < 1 || used > b.len() {
                    None
                } else {
                    match decode_options(b.skip(used), opt.number as nat) {
                        Option::None => None,
                        Option::Some((opts, payload)) => Some((seq![opt] + opts, payload)),
                    }
                }
            },
        }
    }
}

/// Packing two nibbles of at most 14 into one byte keeps both readable,
/// and the byte cannot be the payload marker.
pub proof fn lemma_nib_pack(d: u8, l: u8)
    by (bit_vector)
    requires
        d <= 14,
        l <= 14,
    ensures
        ((d << 4) | l) >> 4 == d,
        ((d << 4) | l) & 0x0f == l,
        ((d << 4) | l) != 0xff,
{
}

/// One encoded option at the front of any byte stream reads back as
/// itself, occupying exactly its own bytes.
pub proof fn lemma_decode_one_encode(last: nat, num: u16, value: Seq<u8>, rest: Seq<u8>)
    requires
        last <= num,
        value.len() <= MAX_OPTION_VALUE_LEN,
    ensures
        decode_one(encode_option((num - last) as nat, value) + rest, last) == Some(
            (
                OptionView { number: num, value },
                encode_option((num - last) as nat, value).len() as int,
            ),
        ),
{
    let delta = (num - last) as nat;
    let vlen = value.len();
    let e = encode_option(delta, value);
    let b = e + rest;
    let dn = nib_of(delta);
    let ln = nib_of(vlen);
    lemma_nib_pack(dn, ln);
    assert(b[0] == (dn << 4) | ln);
    assert(b[0] >> 4 == dn && b[0] & 0x0f == ln);
    let dext = nib_ext_len(dn);
    let lext = nib_ext_len(ln);
    assert(ext_of(delta).len() == dext);
    assert(ext_of(vlen).len() == lext);
    assert(e.len() == 1 + dext + lext + vlen);
    // the extension bytes stand right behind the first byte
    assert forall|j: int| 0 <= j < dext implies b[1 + j] == ext_of(delta)[j] by {
        assert(e[1 + j] == ext_of(delta)[j]);
    }
    assert forall|j: int| 0 <= j < lext implies b[1 + dext + j] == ext_of(vlen)[j] by {
        assert(e[1 + dext + j] == ext_of(vlen)[j]);
    }
    if delta >= 269 {
        lemma_u16_bytes((delta - 269) as u16);
    }
    assert(nib_value(dn, b, 1) == delta);
    if vlen >= 269 {
        lemma_u16_bytes((vlen - 269) as u16);
    }
    assert(nib_value(ln, b, 1 + dext) == vlen);
    assert(last + delta == num);
    let hdr = 1 + dext + lext;
    assert forall|j: int| 0 <= j < vlen implies b[hdr + j] == value[j] by {
        assert(e[hdr + j] == value[j]);
    }
    assert(b.subrange(hdr, hdr + vlen as int) =~= value);
}

/// The bytes behind a payload: nothing when there is none, else the
/// marker and the payload itself.
pub open spec fn payload_part(payload: Seq<u8>) -> Seq<u8> {
    if payload.len() == 0 {
        seq![]
    } else {
        seq![PAYLOAD_MARKER] + payload
    }
}

/// The round trip of a whole message body: an option stream written in
/// non-decreasing number order, followed by an optional payload, decodes
/// back to exactly the options and the payload it was written from.
pub proof fn lemma_options_round_trip(last: nat, opts: Seq<OptionView>, payload: Seq<u8>)
    requires
        last <= u16::MAX,
        opts_wf(last, opts),
    ensures
        decode_options(encode_options(last, opts) + payload_part(payload), last) == Some(
            (opts, payload),
        ),
    decreases opts.len(),
{
    if opts.len() == 0 {
        assert(encode_options(last, opts) + payload_part(payload) =~= payload_part(payload));
        if payload.len() == 0 {
            assert(decode_options(payload_part(payload), last) == Some(
                (Seq::<OptionView>::empty(), Seq::<u8>::empty()),
            ));
            assert(opts =~= Seq::<OptionView>::empty());
            assert(payload =~= Seq::<u8>::empty());
        } else {
            let p = payload_part(payload);
            assert(p[0] == PAYLOAD_MARKER);
            assert(p.len() >= 2);
            assert(p.skip(1) =~= payload);
            assert(opts =~= Seq::<OptionView>::empty());
        }
    } else {
        let opt0 = opts[0];
        let delta = (opt0.number - last) as nat;
        let e0 = encode_option(delta, opt0.value);
        let tail = encode_options(opt0.number as nat, opts.skip(1)) + payload_part(payload);
        let b = encode_options(last, opts) + payload_part(payload);
        assert(b =~= e0 + tail);
        lemma_decode_one_encode(last, opt0.number, opt0.value, tail);
        assert(decode_one(b, last) == Some(
            (OptionView { number: opt0.number, value: opt0.value }, e0.len() as int),
        ));
        assert(OptionView { number: opt0.number, value: opt0.value } == opt0);
        lemma_nib_pack(nib_of(delta), nib_of(opt0.value.len()));
        assert(b[0] == (nib_of(delta) << 4) | nib_of(opt0.value.len()));
        assert(b[0] != PAYLOAD_MARKER);
        assert(e0.len() >= 1);
        assert(b.skip(e0.len() as int) =~= tail);
        lemma_options_round_trip(opt0.number as nat, opts.skip(1), payload);
        assert(decode_options(tail, opt0.number as nat) == Some((opts.skip(1), payload)));
        assert(seq![opt0] + opts.skip(1) =~= opts);
    }
}

/// What one option reads as depends only on the bytes it occupies:
/// appending bytes behind it changes nothing.
pub proof fn lemma_decode_one_prefix(b: Seq<u8>, ext: Seq<u8>, last: nat)
    requires
        decode_one(b, last) is Some,
    ensures
        decode_one(b + ext, last) == decode_one(b, last),
{
    let (opt, used) = decode_one(b, last)->Some_0;
    let c = b + ext;
    assert(c[0] == b[0]);
    let dn = b[0] >> 4;
    let ln = b[0] & 0x0f;
    let dext = nib_ext_len(dn);
    let lext = nib_ext_len(ln);
    assert forall|j: int| 0 <= j < b.len() implies c[j] == b[j] by {}
    assert(nib_value(dn, c, 1) == nib_value(dn, b, 1));
    assert(nib_value(ln, c, 1 + dext) == nib_value(ln, b, 1 + dext));
    let hdr = 1 + dext + lext;
    let vlen = nib_value(ln, b, 1 + dext);
    assert(c.subrange(hdr, hdr + vlen) =~= b.subrange(hdr, hdr + vlen));
}

/// Appending one more option, numbered no lower than everything already
/// written, extends what a stream without payload decodes to by exactly
/// that option.
pub proof fn lemma_decode_append(
    b: Seq<u8>,
    last: nat,
    opts: Seq<OptionView>,
    num: u16,
    value: Seq<u8>,
)
    requires
        last <= u16::MAX,
        decode_options(b, last) == Some((opts, Seq::<u8>::empty())),
        last_number(last, opts) <= num,
        value.len() <= MAX_OPTION_VALUE_LEN,
    ensures
        decode_options(
            b + encode_option((num - last_number(last, opts)) as nat, value),
            last,
        ) == Some((opts.push(OptionView { number: num, value }), Seq::<u8>::empty())),
    decreases b.len(),
{
    let lnum = last_number(last, opts);
    let e = encode_option((num - lnum) as nat, value);
    let c = b + e;
    if b.len() == 0 {
        assert(opts =~= Seq::<OptionView>::empty());
        assert(lnum == last);
        assert(c =~= e + Seq::<u8>::empty());
        lemma_decode_one_encode(last, num, value, Seq::<u8>::empty());
        lemma_nib_pack(nib_of((num - last) as nat), nib_of(value.len()));
        assert(c[0] == (nib_of((num - last) as nat) << 4) | nib_of(value.len()));
        assert(c[0] != PAYLOAD_MARKER);
        assert(c.len() == e.len() >= 1);
        assert(c.skip(e.len() as int) =~= Seq::<u8>::empty());
        assert(decode_options(c.skip(e.len() as int), num as nat) == Some(
            (Seq::<OptionView>::empty(), Seq::<u8>::empty()),
        ));
        assert(seq![OptionView { number: num, value }] + Seq::<OptionView>::empty() =~= opts.push(
            OptionView { number: num, value },
        ));
    } else {
        // the stream decodes without payload, so it cannot start with the marker
        if b[0] == PAYLOAD_MARKER {
            assert(decode_options(b, last) matches Some((_, p)) ==> p.len() >= 1);
            assert(false);
        }
        let (opt0, used) = decode_one(b, last)->Some_0;
        lemma_decode_one_prefix(b, e, last);
        assert(decode_one(c, last) == Some((opt0, used)));
        assert(c[0] == b[0]);
        assert(c.skip(used) =~= b.skip(used) + e);
        assert(decode_options(b.skip(used), opt0.number as nat) == Some(
            (opts.skip(1), Seq::<u8>::empty()),
        )) by {
            let inner = decode_options(b.skip(used), opt0.number as nat);
            assert(inner is Some);
            let (opts1, p1) = inner->Some_0;
            assert(opts == seq![opt0] + opts1 && p1 =~= Seq::<u8>::empty());
            assert((seq![opt0] + opts1).skip(1) =~= opts1);
        }
        assert(opts[0] == opt0) by {
            let (opts1, _p1) = decode_options(b.skip(used), opt0.number as nat)->Some_0;
            assert(opts == seq![opt0] + opts1);
            assert((seq![opt0] + opts1)[0] == opt0);
        }
        assert(last_number(opt0.number as nat, opts.skip(1)) == lnum) by {
            if opts.len() == 1 {
                assert(opts.skip(1).len() == 0);
                assert(opts.last() == opts[0]);
            } else {
                assert(opts.skip(1).last() == opts.last());
            }
        }
        lemma_decode_append(b.skip(used), opt0.number as nat, opts.skip(1), num, value);
        assert(decode_options(c.skip(used), opt0.number as nat) == Some(
            (opts.skip(1).push(OptionView { number: num, value }), Seq::<u8>::empty()),
        ));
        assert(seq![opt0] + opts.skip(1).push(OptionView { number: num, value }) =~= opts.push(
            OptionView { number: num, value },
        ));
    }
}

/// The round trip of a whole message: a header with its token, an
/// option stream in non-decreasing number order and an optional payload,
/// written as one byte sequence, read back field by field to exactly
/// what they were built from.
#[verifier::rlimit(100)]
pub proof fn lemma_message_round_trip(
    t: CoapMessageType,
    token: Seq<u8>,
    code: u8,
    id: u16,
    opts: Seq<OptionView>,
    payload: Seq<u8>,
)
    requires
        token.len() <= MAX_TOKEN_LEN,
        opts_wf(0, opts),
    ensures
        ({
            let m = spec_header(t, token, code, id) + encode_options(0, opts) + payload_part(
                payload,
            );
            &&& m.len() >= HEADER_SIZE
            &&& version_bits(m) == 1
            &&& type_bits(m) == t.wire()
            &&& tkl_of(m) == token.len()
            &&& code_of(m) == code
            &&& id_of(m) == id
            &&& token_of(m) == token
            &&& decode_options(m.subrange(HEADER_SIZE + token.len(), m.len() as int), 0) == Some(
                (opts, payload),
            )
        }),
{
    lemma_header_fields(t, token, code, id);
    let h = spec_header(t, token, code, id);
    let rest = encode_options(0, opts) + payload_part(payload);
    let m = h + rest;
    assert(m[0] == h[0]);
    assert(m[1] == h[1]);
    assert(m[2] == h[2]);
    assert(m[3] == h[3]);
    assert(token_of(m) =~= token);
    lemma_options_round_trip(0, opts, payload);
    assert(decode_options(rest, 0) == Some((opts, payload)));
    assert((spec_header(t, token, code, id) + encode_options(0, opts) + payload_part(
        payload,
    )).subrange(
        HEADER_SIZE + token.len(),
        (spec_header(t, token, code, id) + encode_options(0, opts) + payload_part(
            payload,
        )).len() as int,
    ) =~= rest);
    assert(decode_options(
        (spec_header(t, token, code, id) + encode_options(0, opts) + payload_part(
            payload,
        )).subrange(
            HEADER_SIZE + token.len(),
            (spec_header(t, token, code, id) + encode_options(0, opts) + payload_part(
                payload,
            )).len() as int,
        ),
        0,
    ) == Some((opts, payload)));
}

/// Writes one delta-encoded option at position `at` of `buffer`: the
/// delta and length nibbles with their extended forms, then the value.
///
/// The new option's number must not fall below `last_num`, the number
/// the delta counts from, and the value must fit the encoding's length
/// bound; either violation is the caller's [`CoapPacketError::OptionError`].
/// A buffer without room for the encoded bytes is
/// [`CoapPacketError::SmallBufferError`].  On success exactly the encoded
/// bytes stand at `at`, everything else keeps its old value, and the
/// number of bytes written is returned.
#[verifier::rlimit(80)]
pub fn put_option(
    buffer: &mut Vec<u8>,
    at: usize,
    last_num: u16,
    num: u16,
    value: &[u8],
) -> (r: Result<usize, CoapPacketError>)
    ensures
        final(buffer)@.len() == old(buffer)@.len(),
        num < last_num ==> r == Err::<usize, CoapPacketError>(CoapPacketError::OptionError),
        num >= last_num && value@.len() > MAX_OPTION_VALUE_LEN ==> r == Err::<
            usize,
            CoapPacketError,
        >(CoapPacketError::OptionError),
        num >= last_num && value@.len() <= MAX_OPTION_VALUE_LEN && at + encode_option(
            (num - last_num) as nat,
            value@,
        ).len() > old(buffer)@.len() ==> r == Err::<usize, CoapPacketError>(
            CoapPacketError::SmallBufferError,
        ),
        num >= last_num && value@.len() <= MAX_OPTION_VALUE_LEN && at + encode_option(
            (num - last_num) as nat,
            value@,
        ).len() <= old(buffer)@.len() ==> r == Ok::<usize, CoapPacketError>(
            encode_option((num - last_num) as nat, value@).len() as usize,
        ),
        r matches Err(_) ==> final(buffer)@ == old(buffer)@,
        r matches Ok(n) ==> {
            &&& n == encode_option((num - last_num) as nat, value@).len()
            &&& at + n <= final(buffer)@.len()
            &&& final(buffer)@.subrange(at as int, at + n) == encode_option(
                (num - last_num) as nat,
                value@,
            )
            &&& final(buffer)@.subrange(0, at as int) == old(buffer)@.subrange(0, at as int)
            &&& final(buffer)@.subrange(at + n, final(buffer)@.len() as int) == old(
                buffer,
            )@.subrange(at + n, old(buffer)@.len() as int)
        },
{
    if num < last_num {
        return Err(CoapPacketError::OptionError);
    }
    if value.len() > MAX_OPTION_VALUE_LEN {
        return Err(CoapPacketError::OptionError);
    }
    let delta: u16 = num - last_num;
    let vlen: usize = value.len();
    let dext: usize = if delta < 13 {
        0
    } else if delta < 269 {
        1
    } else {
        2
    };
    let lext: usize = if vlen < 13 {
        0
    } else if vlen < 269 {
        1
    } else {
        2
    };
    let ghost e = encode_option((num - last_num) as nat, value@);
    let needed: usize = 1 + dext + lext + vlen;
    proof {
        assert(e.len() == needed);
    }
    if needed > buffer.len() || at > buffer.len() - needed {
        return Err(CoapPacketError::SmallBufferError);
    }
    let dnib: u8 = if delta < 13 {
        delta as u8
    } else if delta < 269 {
        13
    } else {
        14
    };
    let lnib: u8 = if vlen < 13 {
        vlen as u8
    } else if vlen < 269 {
        13
    } else {
        14
    };
    proof {
        assert(dnib == nib_of((num - last_num) as nat));
        assert(lnib == nib_of(value@.len()));
    }
    proof {
        assert(e == seq![(dnib << 4) | lnib] + ext_of((num - last_num) as nat) + ext_of(
            value@.len(),
        ) + value@);
        assert(ext_of((num - last_num) as nat).len() == dext);
        assert(ext_of(value@.len()).len() == lext);
    }
    buffer.set(at, (dnib << 4u8) | lnib);
    let mut pos: usize = at + 1;
    if delta >= 13 && delta < 269 {
        buffer.set(pos, (delta - 13) as u8);
        pos = pos + 1;
    } else if delta >= 269 {
        let x: u16 = delta - 269;
        buffer.set(pos, (x >> 8u16) as u8);
        buffer.set(pos + 1, x as u8);
        pos = pos + 2;
    }
    proof {
        assert(pos == at + 1 + dext);
        assert(forall|j: int| 0 <= j < dext ==> #[trigger] e[1 + j] == ext_of((num - last_num) as nat)[j]);
        assert forall|j: int| 0 <= j < 1 + dext implies buffer@[at + j] == e[j] by {}
    }
    if vlen >= 13 && vlen < 269 {
        buffer.set(pos, (vlen - 13) as u8);
        pos = pos + 1;
    } else if vlen >= 269 {
        let x: u16 = (vlen - 269) as u16;
        buffer.set(pos, (x >> 8u16) as u8);
        buffer.set(pos + 1, x as u8);
        pos = pos + 2;
    }
    proof {
        assert(pos == at + 1 + dext + lext);
        assert(forall|j: int|
            0 <= j < lext ==> #[trigger] e[1 + dext + j] == ext_of(value@.len())[j]);
        assert forall|j: int| 0 <= j < 1 + dext + lext implies buffer@[at + j] == e[j] by {}
    }
    let mut i: usize = 0;
    while i < vlen
        invariant
            i <= vlen,
            vlen == value@.len(),
            pos == at + 1 + dext + lext,
            needed == 1 + dext + lext + vlen,
            at + needed <= buffer@.len(),
            buffer@.len() <= usize::MAX,
            e.len() == needed,
            buffer@.len() == old(buffer)@.len(),
            forall|j: int| 0 <= j < 1 + dext + lext + i ==> #[trigger] buffer@[at + j] == e[j],
            forall|j: int| 1 + dext + lext <= j < needed ==> #[trigger] e[j] == value@[j - 1 - dext - lext],
            forall|j: int|
                0 <= j < buffer@.len() && !(at <= j < at + needed) ==> buffer@[j] == old(
                    buffer,
                )@[j],
        decreases vlen - i,
    {
        buffer.set(pos + i, value[i]);
        i = i + 1;
    }
    proof {
        assert forall|k: int| 0 <= k < needed implies buffer@[at + k] == e[k] by {}
        assert(buffer@.subrange(at as int, at + needed) =~= e);
        assert(buffer@.subrange(0, at as int) =~= old(buffer)@.subrange(0, at as int));
        assert(buffer@.subrange(at + needed, buffer@.len() as int) =~= old(buffer)@.subrange(
            at + needed,
            old(buffer)@.len() as int,
        ));
    }
    Ok(needed)
}

} // verus!
