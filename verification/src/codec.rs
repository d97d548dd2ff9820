//! Frame codec: masking, the three-tier payload-length encoding
//! (7-bit literal, sentinel 126 + 16-bit extension, sentinel 127 +
//! 64-bit extension), and whole-frame encoding and decoding.

use vstd::prelude::*;
use vstd::string::StrSliceExecFns;
use vstd::string::StringSliceAdditionalSpecFns;
use crate::text::lossy_utf8;
use crate::text::utf8_lossy;

verus! {

/// XOR of two bytes is an involution: applying the same key byte twice
/// restores the original byte.
pub proof fn lemma_xor_involution(a: u8, k: u8)
    ensures
        (a ^ k) ^ k == a,
{
    assert((a ^ k) ^ k == a) by (bit_vector);
}

/// The wire transformation of a payload under a 4-byte masking key:
/// each byte is XORed with the key byte at its index modulo 4.
pub open spec fn mask_seq(p: Seq<u8>, k: Seq<u8>) -> Seq<u8>
    recommends
        k.len() == 4,
{
    Seq::new(p.len(), |i: int| p[i] ^ k[i % 4])
}

/// Applies the 4-byte masking key to a payload; the same operation
/// both masks and unmasks, since XOR is an involution.
pub fn apply_mask(p: &Vec<u8>, k: &[u8; 4]) -> (r: Vec<u8>)
    ensures
        r@ == mask_seq(p@, k@),
{
    let mut out: Vec<u8> = Vec::new();
    let mut i: usize = 0;
    while i < p.len()
        invariant
            i <= p.len(),
            out@.len() == i,
            forall|j: int| 0 <= j < i ==> out@[j] == p@[j] ^ k@[j % 4],
        decreases p.len() - i,
    {
        out.push(p[i] ^ k[i % 4]);
        i = i + 1;
    }
    assert(out@ =~= mask_seq(p@, k@));
    out
}

/// Masking round-trip: unmasking a masked payload with the same key
/// restores the payload exactly.
pub proof fn lemma_mask_roundtrip(p: Seq<u8>, k: Seq<u8>)
    requires
        k.len() == 4,
    ensures
        mask_seq(mask_seq(p, k), k) == p,
{
    assert forall|i: int| 0 <= i < p.len() implies mask_seq(mask_seq(p, k), k)[i] == p[i] by {
        lemma_xor_involution(p[i], k[i % 4]);
    }
    assert(mask_seq(mask_seq(p, k), k) =~= p);
}

/// 256 to the power `w`: the number of values a `w`-byte field can hold.
pub open spec fn pow256(w: nat) -> nat
    decreases w,
{
    if w == 0 {
        1
    } else {
        0x100 * pow256((w - 1) as nat)
    }
}

/// The value of a byte sequence read as a big-endian integer.
pub open spec fn be_val(s: Seq<u8>) -> nat
    decreases s.len(),
{
    if s.len() == 0 {
        0
    } else {
        (be_val(s.drop_last()) * 0x100 + s.last()) as nat
    }
}

/// The `w`-byte big-endian encoding of `n` (truncated to `w` bytes).
pub open spec fn be_bytes(n: nat, w: nat) -> Seq<u8>
    decreases w,
{
    if w == 0 {
        Seq::empty()
    } else {
        be_bytes(n / 0x100, (w - 1) as nat).push((n % 0x100) as u8)
    }
}

pub proof fn lemma_be_bytes_len(n: nat, w: nat)
    ensures
        be_bytes(n, w).len() == w,
    decreases w,
{
    if w > 0 {
        lemma_be_bytes_len(n / 0x100, (w - 1) as nat);
    }
}

/// Reading back the big-endian encoding of `n` recovers `n`,
/// for any `n` that fits in the encoded width.
pub proof fn lemma_be_roundtrip(n: nat, w: nat)
    requires
        n < pow256(w),
    ensures
        be_val(be_bytes(n, w)) == n,
    decreases w,
{
    if w > 0 {
        let rest = be_bytes(n / 0x100, (w - 1) as nat);
        lemma_be_bytes_len(n / 0x100, (w - 1) as nat);
        assert(be_bytes(n, w) == rest.push((n % 0x100) as u8));
        assert(rest.push((n % 0x100) as u8).drop_last() =~= rest);
        lemma_be_roundtrip(n / 0x100, (w - 1) as nat);
    }
}

/// The `w`-byte big-endian encoding of `n`, executable.
pub fn be_bytes_exec(n: u64, w: usize) -> (r: Vec<u8>)
    ensures
        r@ == be_bytes(n as nat, w as nat),
        r@.len() == w,
    decreases w,
{
    proof {
        lemma_be_bytes_len(n as nat, w as nat);
    }
    if w == 0 {
        Vec::new()
    } else {
        let mut v = be_bytes_exec(n / 0x100, w - 1);
        v.push((n % 0x100) as u8);
        v
    }
}

/// Monotonicity of `pow256` in the exponent.
pub proof fn lemma_pow256_increases(a: nat, b: nat)
    requires
        a <= b,
    ensures
        pow256(a) <= pow256(b),
    decreases b,
{
    if a < b {
        lemma_pow256_increases(a, (b - 1) as nat);
    }
}

/// Reads `w` bytes of `buf` starting at `start` as a big-endian integer.
pub fn be_val_range(buf: &Vec<u8>, start: usize, w: usize) -> (r: u64)
    requires
        start + w <= buf@.len(),
        w <= 8,
    ensures
        r as nat == be_val(buf@.subrange(start as int, (start + w) as int)),
{
    proof {
        vstd::std_specs::vec::axiom_spec_len(buf);
    }
    let mut acc: u64 = 0;
    let mut i: usize = 0;
    while i < w
        invariant
            i <= w,
            w <= 8,
            start + w <= buf@.len(),
            buf@.len() <= usize::MAX,
            acc as nat == be_val(buf@.subrange(start as int, (start + i) as int)),
            acc < pow256(i as nat),
        decreases w - i,
    {
        proof {
            let cur = buf@.subrange(start as int, (start + i) as int);
            let next = buf@.subrange(start as int, (start + i + 1) as int);
            assert(next.drop_last() =~= cur);
            assert(next.last() == buf@[start + i]);
            lemma_pow256_increases((i + 1) as nat, 8);
            assert(pow256(8) == 0x1_0000_0000_0000_0000) by {
                assert(pow256(0) == 1);
                assert(pow256(1) == 0x100);
                assert(pow256(2) == 0x1_0000);
                assert(pow256(3) == 0x100_0000);
                assert(pow256(4) == 0x1_0000_0000);
                assert(pow256(5) == 0x100_0000_0000);
                assert(pow256(6) == 0x1_0000_0000_0000);
                assert(pow256(7) == 0x100_0000_0000_0000);
            }
        }
        acc = acc * 0x100 + (buf[start + i] as u64);
        i = i + 1;
    }
    acc
}

/// The bytes of the length field: the leading length byte (with the mask
/// bit set when `masked`), followed by the 16- or 64-bit big-endian
/// extension when the payload does not fit the 7-bit literal form.
pub open spec fn length_bytes(n: nat, masked: bool) -> Seq<u8> {
    let base: u8 = if n < 126 {
        n as u8
    } else if n < 0x1_0000 {
        126u8
    } else {
        127u8
    };
    let first: u8 = if masked {
        base | 0x80
    } else {
        base
    };
    if n < 126 {
        seq![first]
    } else if n < 0x1_0000 {
        seq![first] + be_bytes(n, 2)
    } else {
        seq![first] + be_bytes(n, 8)
    }
}

/// A complete unmasked text frame with FIN set: header byte 0x81,
/// the length field, then the payload bytes.
pub open spec fn text_frame(payload: Seq<u8>) -> Seq<u8> {
    seq![0x81u8] + length_bytes(payload.len(), false) + payload
}

/// A complete masked text frame as a client sends it: header byte 0x81,
/// the length field with the mask bit set, the 4-byte masking key, then
/// the masked payload bytes.
pub open spec fn masked_text_frame(payload: Seq<u8>, key: Seq<u8>) -> Seq<u8>
    recommends
        key.len() == 4,
{
    seq![0x81u8] + length_bytes(payload.len(), true) + key + mask_seq(payload, key)
}

/// Encodes an unmasked text frame around the given payload bytes,
/// choosing the length form the payload size calls for.
pub fn encode_frame(payload: &Vec<u8>) -> (r: Vec<u8>)
    ensures
        r@ == text_frame(payload@),
{
    let mut out: Vec<u8> = Vec::new();
    out.push(0x81u8);
    let n = payload.len();
    if n < 126 {
        out.push(n as u8);
    } else if n <= 0xFFFF {
        out.push(126u8);
        let mut ext = be_bytes_exec(n as u64, 2);
        out.append(&mut ext);
    } else {
        out.push(127u8);
        let mut ext = be_bytes_exec(n as u64, 8);
        out.append(&mut ext);
    }
    let ghost header = out@;
    assert(header =~= seq![0x81u8] + length_bytes(payload@.len(), false));
    let mut i: usize = 0;
    while i < payload.len()
        invariant
            i <= payload@.len(),
            out@ == header + payload@.subrange(0, i as int),
        decreases payload.len() - i,
    {
        out.push(payload[i]);
        proof {
            assert(header + payload@.subrange(0, i as int) + seq![payload@[i as int]] =~= header
                + payload@.subrange(0, i + 1));
        }
        i = i + 1;
    }
    proof {
        assert(payload@.subrange(0, payload@.len() as int) =~= payload@);
    }
    out
}

/// Encodes a masked text frame around the given payload bytes, as a
/// client would send it.
pub fn encode_masked_frame(payload: &Vec<u8>, key: &[u8; 4]) -> (r: Vec<u8>)
    ensures
        r@ == masked_text_frame(payload@, key@),
{
    let mut out: Vec<u8> = Vec::new();
    out.push(0x81u8);
    let n = payload.len();
    if n < 126 {
        out.push((n as u8) | 0x80);
    } else if n <= 0xFFFF {
        out.push(126u8 | 0x80);
        let mut ext = be_bytes_exec(n as u64, 2);
        out.append(&mut ext);
    } else {
        out.push(127u8 | 0x80);
        let mut ext = be_bytes_exec(n as u64, 8);
        out.append(&mut ext);
    }
    let ghost header = out@;
    assert(header =~= seq![0x81u8] + length_bytes(payload@.len(), true));
    let mut i: usize = 0;
    while i < 4
        invariant
            i <= 4,
            out@ == header + key@.subrange(0, i as int),
        decreases 4 - i,
    {
        out.push(key[i]);
        proof {
            assert(header + key@.subrange(0, i as int) + seq![key@[i as int]] =~= header
                + key@.subrange(0, i + 1));
        }
        i = i + 1;
    }
    proof {
        assert(key@.subrange(0, 4) =~= key@);
    }
    let mut masked = apply_mask(payload, key);
    out.append(&mut masked);
    out
}

/// How many extended-length bytes follow the 2-byte header, given the
/// header's second byte: 2 after sentinel 126, 8 after sentinel 127,
/// none otherwise.
pub open spec fn spec_ext_len(b1: u8) -> nat {
    if b1 & 0x7f == 126 {
        2
    } else if b1 & 0x7f == 127 {
        8
    } else {
        0
    }
}

/// Whether the header's second byte has the mask bit set.
pub open spec fn spec_mask_flag(b1: u8) -> bool {
    b1 & 0x80 != 0
}

/// The payload length a frame declares, given the header's second byte
/// and the full buffer (from which the extension bytes are read).
pub open spec fn spec_payload_len(buf: Seq<u8>) -> nat
    recommends
        buf.len() >= 2 + spec_ext_len(buf[1]),
{
    let b1 = buf[1];
    if b1 & 0x7f == 126 {
        be_val(buf.subrange(2, 4))
    } else if b1 & 0x7f == 127 {
        be_val(buf.subrange(2, 10))
    } else {
        (b1 & 0x7f) as nat
    }
}

/// Decoding a frame from the bytes available so far: `None` exactly when
/// the buffer ends before the header, the extended length, the mask key
/// or the payload is complete (a read failure at that stage); otherwise
/// the unmasked payload bytes and the number of bytes the frame spans.
pub open spec fn spec_decode(buf: Seq<u8>) -> Option<(Seq<u8>, nat)> {
    if buf.len() < 2 {
        None
    } else {
        let ext = spec_ext_len(buf[1]);
        if buf.len() < 2 + ext {
            None
        } else {
            let plen = spec_payload_len(buf);
            let mlen: nat = if spec_mask_flag(buf[1]) {
                4
            } else {
                0
            };
            let total = 2 + ext + mlen + plen;
            if buf.len() < total {
                None
            } else {
                let raw = buf.subrange((2 + ext + mlen) as int, total as int);
                if spec_mask_flag(buf[1]) {
                    let key = buf.subrange((2 + ext) as int, (2 + ext + 4) as int);
                    Some((mask_seq(raw, key), total))
                } else {
                    Some((raw, total))
                }
            }
        }
    }
}

/// Bit-level facts about a length byte below 128: the 7-bit base length
/// and the mask flag read back exactly, with or without the mask bit.
proof fn lemma_low_byte_bits(x: u8)
    requires
        x < 128,
    ensures
        x & 0x7f == x,
        x & 0x80 == 0,
        (x | 0x80) & 0x7f == x,
        (x | 0x80) & 0x80 != 0,
{
    assert(x < 128 ==> (x & 0x7f == x) && (x & 0x80 == 0) && ((x | 0x80) & 0x7f == x) && ((x
        | 0x80) & 0x80 != 0)) by (bit_vector);
}

/// Decoding an encoded unmasked text frame recovers the payload exactly,
/// whichever of the three length forms the payload size selects, and
/// consumes the whole frame.
pub proof fn lemma_frame_roundtrip(payload: Seq<u8>)
    requires
        payload.len() < pow256(8),
    ensures
        spec_decode(text_frame(payload)) == Some((payload, text_frame(payload).len())),
{
    let n = payload.len();
    let lb = length_bytes(n, false);
    let buf = text_frame(payload);
    let base: u8 = if n < 126 {
        n as u8
    } else if n < 0x1_0000 {
        126u8
    } else {
        127u8
    };
    lemma_low_byte_bits(base);
    if n < 126 {
        assert(buf[1] == base);
        assert(spec_ext_len(buf[1]) == 0);
        assert(spec_payload_len(buf) == n);
        assert(buf.len() == 2 + n);
        assert(buf.subrange(2, (2 + n) as int) =~= payload);
    } else if n < 0x1_0000 {
        lemma_be_bytes_len(n, 2);
        assert(buf[1] == base);
        assert(spec_ext_len(buf[1]) == 2);
        assert(buf.len() == 4 + n);
        assert(buf.subrange(2, 4) =~= be_bytes(n, 2));
        assert(pow256(2) == 0x1_0000) by {
            assert(pow256(0) == 1);
            assert(pow256(1) == 0x100);
        }
        lemma_be_roundtrip(n, 2);
        assert(spec_payload_len(buf) == n);
        assert(buf.subrange(4, (4 + n) as int) =~= payload);
    } else {
        lemma_be_bytes_len(n, 8);
        assert(buf[1] == base);
        assert(spec_ext_len(buf[1]) == 8);
        assert(buf.len() == 10 + n);
        assert(buf.subrange(2, 10) =~= be_bytes(n, 8));
        lemma_be_roundtrip(n, 8);
        assert(spec_payload_len(buf) == n);
        assert(buf.subrange(10, (10 + n) as int) =~= payload);
    }
}

/// Decoding an encoded masked text frame recovers the payload exactly:
/// the decoder reads the key it finds after the length field and undoes
/// the masking the encoder applied.
pub proof fn lemma_masked_frame_roundtrip(payload: Seq<u8>, key: Seq<u8>)
    requires
        key.len() == 4,
        payload.len() < pow256(8),
    ensures
        spec_decode(masked_text_frame(payload, key)) == Some(
            (payload, masked_text_frame(payload, key).len()),
        ),
{
    let n = payload.len();
    let buf = masked_text_frame(payload, key);
    let base: u8 = if n < 126 {
        n as u8
    } else if n < 0x1_0000 {
        126u8
    } else {
        127u8
    };
    lemma_low_byte_bits(base);
    lemma_mask_roundtrip(payload, key);
    if n < 126 {
        assert(buf[1] == (base | 0x80));
        assert(spec_ext_len(buf[1]) == 0);
        assert(spec_payload_len(buf) == n);
        assert(buf.len() == 6 + n);
        assert(buf.subrange(2, 6) =~= key);
        assert(buf.subrange(6, (6 + n) as int) =~= mask_seq(payload, key));
    } else if n < 0x1_0000 {
        lemma_be_bytes_len(n, 2);
        assert(buf[1] == (base | 0x80));
        assert(spec_ext_len(buf[1]) == 2);
        assert(buf.len() == 8 + n);
        assert(buf.subrange(2, 4) =~= be_bytes(n, 2));
        assert(pow256(2) == 0x1_0000) by {
            assert(pow256(0) == 1);
            assert(pow256(1) == 0x100);
        }
        lemma_be_roundtrip(n, 2);
        assert(spec_payload_len(buf) == n);
        assert(buf.subrange(4, 8) =~= key);
        assert(buf.subrange(8, (8 + n) as int) =~= mask_seq(payload, key));
    } else {
        lemma_be_bytes_len(n, 8);
        assert(buf[1] == (base | 0x80));
        assert(spec_ext_len(buf[1]) == 8);
        assert(buf.len() == 14 + n);
        assert(buf.subrange(2, 10) =~= be_bytes(n, 8));
        lemma_be_roundtrip(n, 8);
        assert(spec_payload_len(buf) == n);
        assert(buf.subrange(10, 14) =~= key);
        assert(buf.subrange(14, (14 + n) as int) =~= mask_seq(payload, key));
    }
}

/// A decodable frame cut short anywhere — in the header, the extended
/// length, the mask key or the payload — decodes to `None`: a read that
/// fails at any stage yields no message, however much was already read.
pub proof fn lemma_decode_prefix_none(buf: Seq<u8>, i: int)
    requires
        spec_decode(buf) is Some,
        0 <= i < (spec_decode(buf)->0).1,
    ensures
        spec_decode(buf.take(i)) is None,
{
    let t = buf.take(i);
    if i >= 2 {
        assert(t[1] == buf[1]);
        let ext = spec_ext_len(buf[1]);
        if i >= 2 + ext {
            if buf[1] & 0x7f == 126 {
                assert(t.subrange(2, 4) =~= buf.subrange(2, 4));
            } else if buf[1] & 0x7f == 127 {
                assert(t.subrange(2, 10) =~= buf.subrange(2, 10));
            }
            assert(spec_payload_len(t) == spec_payload_len(buf));
        }
    }
}

/// How many extended-length bytes must be read after a header whose
/// second byte is `b1`.
pub fn ext_len_of(b1: u8) -> (r: usize)
    ensures
        r as nat == spec_ext_len(b1),
{
    let base = b1 & 0x7f;
    if base == 126 {
        2
    } else if base == 127 {
        8
    } else {
        0
    }
}

/// Whether a header whose second byte is `b1` announces a masked payload.
pub fn mask_flag_of(b1: u8) -> (r: bool)
    ensures
        r == spec_mask_flag(b1),
{
    b1 & 0x80 != 0
}

/// Decodes one frame from the start of `buf`: the unmasked payload bytes
/// and the number of bytes consumed, or `None` when the buffer ends
/// before the frame is complete.
pub fn decode_frame(buf: &Vec<u8>) -> (r: Option<(Vec<u8>, usize)>)
    ensures
        r is Some <==> spec_decode(buf@) is Some,
        r is Some ==> spec_decode(buf@) == Some(((r->0).0@, (r->0).1 as nat)),
{
    if buf.len() < 2 {
        return None;
    }
    let b1 = buf[1];
    let masked = mask_flag_of(b1);
    let ext = ext_len_of(b1);
    if buf.len() < 2 + ext {
        return None;
    }
    let plen64: u64 = if ext == 0 {
        (b1 & 0x7f) as u64
    } else {
        be_val_range(buf, 2, ext)
    };
    proof {
        if ext == 0 {
            assert(b1 & 0x7f < 126) by (bit_vector)
                requires
                    b1 & 0x7f != 126 && b1 & 0x7f != 127,
            ;
        }
        assert(plen64 as nat == spec_payload_len(buf@));
    }
    let mlen: usize = if masked {
        4
    } else {
        0
    };
    let pre = 2 + ext + mlen;
    if buf.len() < pre {
        return None;
    }
    let rem = buf.len() - pre;
    if plen64 > rem as u64 {
        return None;
    }
    let plen = plen64 as usize;
    assert(buf@.len() <= usize::MAX);
    let mut raw: Vec<u8> = Vec::new();
    let mut i: usize = 0;
    while i < plen
        invariant
            i <= plen,
            pre + plen <= buf@.len(),
            buf@.len() <= usize::MAX,
            raw@ == buf@.subrange(pre as int, (pre + i) as int),
        decreases plen - i,
    {
        raw.push(buf[pre + i]);
        proof {
            assert(buf@.subrange(pre as int, (pre + i) as int) + seq![buf@[pre + i]]
                =~= buf@.subrange(pre as int, (pre + i + 1) as int));
        }
        i = i + 1;
    }
    let total = pre + plen;
    if masked {
        let key: [u8; 4] = [buf[2 + ext], buf[2 + ext + 1], buf[2 + ext + 2], buf[2 + ext + 3]];
        proof {
            assert(key@ =~= buf@.subrange((2 + ext) as int, (2 + ext + 4) as int));
        }
        let payload = apply_mask(&raw, &key);
        Some((payload, total))
    } else {
        Some((raw, total))
    }
}

/// Encodes a message as a single unmasked text frame: header byte 0x81,
/// the length field the message's UTF-8 size calls for, then its bytes.
pub fn encode_text_frame(message: &str) -> (r: Vec<u8>)
    ensures
        r@ == text_frame(message.spec_bytes()),
{
    let payload = message.as_bytes_vec();
    encode_frame(&payload)
}

/// Decodes one frame from the start of `buf` and converts its unmasked
/// payload to text, substituting the replacement character for invalid
/// byte sequences: the message and the number of bytes the frame spans,
/// or `None` when the buffer ends before the frame is complete.
pub fn decode_text_frame(buf: &Vec<u8>) -> (r: Option<(String, usize)>)
    ensures
        r is Some <==> spec_decode(buf@) is Some,
        r is Some ==> ({
            let payload = (spec_decode(buf@)->0).0;
            &&& (r->0).0@ == lossy_utf8(payload)
            &&& vstd::utf8::valid_utf8(payload) ==> (r->0).0@ == vstd::utf8::decode_utf8(payload)
            &&& (r->0).1 as nat == (spec_decode(buf@)->0).1
        }),
{
    match decode_frame(buf) {
        None => None,
        Some((payload, used)) => {
            let text = utf8_lossy(&payload);
            Some((text, used))
        },
    }
}

/// The payload length a frame header declares, from the header's second
/// byte and the extended-length bytes that followed it.
pub fn frame_payload_len(b1: u8, ext: &Vec<u8>) -> (r: u64)
    requires
        ext@.len() == spec_ext_len(b1),
    ensures
        r as nat == spec_payload_len(seq![0x81u8, b1] + ext@),
{
    let base = b1 & 0x7f;
    let ghost buf = seq![0x81u8, b1] + ext@;
    if base == 126 {
        proof {
            assert(buf.subrange(2, 4) =~= ext@.subrange(0, 2));
            assert(ext@.subrange(0, 2) =~= ext@);
        }
        be_val_range(ext, 0, 2)
    } else if base == 127 {
        proof {
            assert(buf.subrange(2, 10) =~= ext@.subrange(0, 8));
            assert(ext@.subrange(0, 8) =~= ext@);
        }
        be_val_range(ext, 0, 8)
    } else {
        base as u64
    }
}

} // verus!
