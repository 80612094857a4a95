use vstd::prelude::*;
use vstd::arithmetic::div_mod::lemma_fundamental_div_mod;
use vstd::arithmetic::power::{pow, lemma_pow_positive};
use vstd::arithmetic::power2::{pow2, lemma_pow2_adds, lemma2_to64};
use crate::error::ProtoError;

verus! {

/// A varint occupies at most this many bytes; a decoder stops after reading
/// this many continuation bytes even if the last still has its top bit set.
pub const MAX_VARINT_BYTES: usize = 10;

/// The largest field tag that can share a varint key with a 3-bit wire-type
/// code without overflowing 64 bits.
pub const MAX_TAG: u64 = 0x1FFF_FFFF_FFFF_FFFF;

/// The bytes of the varint encoding of `v`: seven payload bits per byte,
/// least significant group first, the top bit set on every byte but the last.
pub open spec fn varint_enc(v: u64) -> Seq<u8>
    decreases v,
{
    if v < 0x80 {
        seq![v as u8]
    } else {
        seq![(v % 0x80 + 0x80) as u8] + varint_enc((v / 0x80) as u64)
    }
}

/// True when a varint decoder starting at the head of `s` with `k` bytes of
/// budget left finds a terminating byte (or exhausts its budget) before
/// running off the end of `s`.
pub open spec fn varint_ok(s: Seq<u8>, k: nat) -> bool
    decreases k,
{
    if k == 0 {
        true
    } else if s.len() == 0 {
        false
    } else if s[0] < 0x80 {
        true
    } else {
        varint_ok(s.skip(1), (k - 1) as nat)
    }
}

/// Number of bytes such a decoder consumes from the head of `s`.
pub open spec fn varint_size(s: Seq<u8>, k: nat) -> nat
    decreases k,
{
    if k == 0 || s.len() == 0 {
        0
    } else if s[0] < 0x80 {
        1
    } else {
        1 + varint_size(s.skip(1), (k - 1) as nat)
    }
}

/// The value such a decoder accumulates: seven bits per byte, least
/// significant group first, truncated to 64 bits.
pub open spec fn varint_value(s: Seq<u8>, k: nat) -> u64
    decreases k,
{
    if k == 0 || s.len() == 0 {
        0
    } else if s[0] < 0x80 {
        s[0] as u64
    } else {
        (((s[0] - 0x80) + 0x80 * varint_value(s.skip(1), (k - 1) as nat)) % 0x1_0000_0000_0000_0000) as u64
    }
}

/// The bytes of `b` from position `p` on; empty when `p` is out of range.
pub open spec fn suffix_at(b: Seq<u8>, p: nat) -> Seq<u8> {
    if p <= b.len() {
        b.skip(p as int)
    } else {
        Seq::<u8>::empty()
    }
}

/// A full-budget varint decode succeeds at position `p` of buffer `b`.
pub open spec fn varint_ok_at(b: Seq<u8>, p: nat) -> bool {
    varint_ok(suffix_at(b, p), MAX_VARINT_BYTES as nat)
}

/// Bytes consumed by a full-budget varint decode at position `p`.
pub open spec fn varint_size_at(b: Seq<u8>, p: nat) -> nat {
    varint_size(suffix_at(b, p), MAX_VARINT_BYTES as nat)
}

/// Value produced by a full-budget varint decode at position `p`.
pub open spec fn varint_value_at(b: Seq<u8>, p: nat) -> u64 {
    varint_value(suffix_at(b, p), MAX_VARINT_BYTES as nat)
}

/// The varint encoding is never empty and never longer than ten bytes.
pub proof fn lemma_varint_enc_len(v: u64)
    ensures
        1 <= varint_enc(v).len() <= MAX_VARINT_BYTES,
{
    assert(pow(0x80, 10) == 0x40_0000_0000_0000_0000 as int) by {
        reveal_with_fuel(pow, 11);
    }
    lemma_varint_enc_len_bound(v, 10);
}

/// If `v` is below `0x80^k`, its encoding takes at most `k` bytes.
proof fn lemma_varint_enc_len_bound(v: u64, k: nat)
    requires
        1 <= k,
        (v as int) < pow(0x80, k),
    ensures
        1 <= varint_enc(v).len() <= k,
    decreases v,
{
    if v < 0x80 {
    } else {
        let q = (v / 0x80) as u64;
        assert(k != 1) by {
            reveal_with_fuel(pow, 2);
        }
        assert(pow(0x80, k) == 0x80 * pow(0x80, (k - 1) as nat)) by {
            reveal(pow);
        }
        assert(q < v) by {
            lemma_fundamental_div_mod(v as int, 0x80);
        }
        lemma_pow_positive(0x80, (k - 1) as nat);
        assert((q as int) < pow(0x80, (k - 1) as nat)) by (nonlinear_arith)
            requires
                q == v as int / 0x80,
                (v as int) < 0x80 * pow(0x80, (k - 1) as nat),
                pow(0x80, (k - 1) as nat) > 0,
        ;
        lemma_varint_enc_len_bound(q, (k - 1) as nat);
    }
}

/// Decoding the encoding of `v`, with anything at all appended after it,
/// consumes exactly the encoding and yields `v` back.
pub proof fn lemma_varint_enc_decodes(v: u64, rest: Seq<u8>)
    ensures
        varint_ok(varint_enc(v) + rest, MAX_VARINT_BYTES as nat),
        varint_size(varint_enc(v) + rest, MAX_VARINT_BYTES as nat) == varint_enc(v).len(),
        varint_value(varint_enc(v) + rest, MAX_VARINT_BYTES as nat) == v,
{
    lemma_varint_enc_len(v);
    lemma_varint_enc_decodes_fuel(v, rest, MAX_VARINT_BYTES as nat);
}

proof fn lemma_varint_enc_decodes_fuel(v: u64, rest: Seq<u8>, k: nat)
    requires
        varint_enc(v).len() <= k,
    ensures
        varint_ok(varint_enc(v) + rest, k),
        varint_size(varint_enc(v) + rest, k) == varint_enc(v).len(),
        varint_value(varint_enc(v) + rest, k) == v,
    decreases v,
{
    let s = varint_enc(v) + rest;
    if v < 0x80 {
        assert(s[0] == v as u8);
    } else {
        let q = (v / 0x80) as u64;
        lemma_fundamental_div_mod(v as int, 0x80);
        assert(q < v);
        assert(s[0] == (v % 0x80 + 0x80) as u8);
        assert(s.skip(1) =~= varint_enc(q) + rest);
        lemma_varint_enc_decodes_fuel(q, rest, (k - 1) as nat);
        assert((s[0] - 0x80) + 0x80 * varint_value(s.skip(1), (k - 1) as nat) == v);
    }
}

/// A successful decode is unaffected by bytes appended after the buffer:
/// it consumes the same prefix and yields the same value.
pub proof fn lemma_varint_extend(s: Seq<u8>, rest: Seq<u8>, k: nat)
    requires
        varint_ok(s, k),
    ensures
        varint_ok(s + rest, k),
        varint_size(s + rest, k) == varint_size(s, k),
        varint_value(s + rest, k) == varint_value(s, k),
    decreases k,
{
    if k == 0 {
    } else if s[0] < 0x80 {
        assert((s + rest)[0] == s[0]);
    } else {
        assert((s + rest)[0] == s[0]);
        assert((s + rest).skip(1) =~= s.skip(1) + rest);
        lemma_varint_extend(s.skip(1), rest, (k - 1) as nat);
    }
}

/// A successful decode within budget consumes at least one byte and never
/// more than the buffer holds.
pub proof fn lemma_varint_size_bounds(s: Seq<u8>, k: nat)
    requires
        varint_ok(s, k),
        k > 0,
        s.len() > 0,
    ensures
        1 <= varint_size(s, k) <= s.len(),
        varint_size(s, k) <= k,
    decreases k,
{
    if s[0] < 0x80 {
    } else {
        assert(varint_ok(s.skip(1), (k - 1) as nat));
        assert(varint_size(s, k) == 1 + varint_size(s.skip(1), (k - 1) as nat));
        if (k - 1) as nat == 0 {
            assert(varint_size(s.skip(1), 0) == 0);
        } else if s.skip(1).len() == 0 {
            assert(!varint_ok(s.skip(1), (k - 1) as nat));
        } else {
            lemma_varint_size_bounds(s.skip(1), (k - 1) as nat);
        }
    }
}

/// Zigzag maps a signed 64-bit value onto an unsigned one: nonnegative
/// values go to the even numbers, negative ones to the odd numbers, so that
/// small magnitudes stay small.
pub open spec fn zigzag_spec(v: i64) -> u64 {
    if v >= 0 {
        (2 * v) as u64
    } else {
        (-2 * v - 1) as u64
    }
}

/// The inverse mapping: even numbers come back nonnegative, odd ones
/// negative.
pub open spec fn zagzig_spec(u: u64) -> i64 {
    if u % 2 == 0 {
        (u / 2) as i64
    } else {
        (-((u + 1) / 2)) as i64
    }
}

/// Zigzag followed by its inverse is the identity on all signed values,
/// the extremes included.
pub proof fn lemma_zigzag_roundtrip(v: i64)
    ensures
        zagzig_spec(zigzag_spec(v)) == v,
{
}

/// The inverse followed by zigzag is the identity on all unsigned values.
pub proof fn lemma_zagzig_roundtrip(u: u64)
    ensures
        zigzag_spec(zagzig_spec(u)) == u,
{
}

/// The varint value of a field key packing tag and wire-type code: the tag
/// in the high bits, the 3-bit code in the low bits.
pub open spec fn key_val(tag: u64, code: u64) -> u64
    recommends
        tag <= MAX_TAG,
        code < 8,
{
    (8 * tag + code) as u64
}

/// Unpacking a packed field key recovers the tag and the code exactly.
pub proof fn lemma_key_roundtrip(tag: u64, code: u64)
    requires
        tag <= MAX_TAG,
        code < 8,
    ensures
        key_val(tag, code) / 8 == tag,
        key_val(tag, code) % 8 == code,
{
    vstd::arithmetic::div_mod::lemma_fundamental_div_mod_converse(
        key_val(tag, code) as int,
        8,
        tag as int,
        code as int,
    );
}

/// The little-endian bytes of the low `n` bytes of a 64-bit word.
pub open spec fn le_bytes(w: u64, n: nat) -> Seq<u8>
    decreases n,
{
    if n == 0 {
        Seq::<u8>::empty()
    } else {
        seq![(w % 0x100) as u8] + le_bytes((w / 0x100) as u64, (n - 1) as nat)
    }
}

/// The 64-bit word a little-endian byte sequence denotes, truncated to 64
/// bits when the sequence is longer than eight bytes.
pub open spec fn le_word(s: Seq<u8>) -> u64
    decreases s.len(),
{
    if s.len() == 0 {
        0
    } else {
        ((s[0] + 0x100 * le_word(s.skip(1))) % 0x1_0000_0000_0000_0000) as u64
    }
}

/// A little-endian encoding takes exactly as many bytes as asked for.
pub proof fn lemma_le_bytes_len(w: u64, n: nat)
    ensures
        le_bytes(w, n).len() == n,
    decreases n,
{
    if n > 0 {
        lemma_le_bytes_len((w / 0x100) as u64, (n - 1) as nat);
    }
}

/// A word assembled from at most eight little-endian bytes fits in that
/// many bytes.
pub proof fn lemma_le_word_bound(s: Seq<u8>)
    requires
        s.len() <= 8,
    ensures
        le_word(s) < pow2(8 * s.len()),
    decreases s.len(),
{
    lemma2_to64();
    if s.len() == 0 {
    } else {
        lemma_le_word_bound(s.skip(1));
        lemma_pow2_adds(8, 8 * (s.len() - 1) as nat);
        assert(s[0] + 0x100 * le_word(s.skip(1)) < 0x100 * pow2(8 * (s.len() - 1) as nat));
    }
}

/// Reading back the little-endian bytes of a word that fits the width
/// yields the word.
pub proof fn lemma_le_roundtrip(w: u64, n: nat)
    requires
        n <= 8,
        w < pow2(8 * n),
    ensures
        le_word(le_bytes(w, n)) == w,
    decreases n,
{
    lemma2_to64();
    if n == 0 {
        assert(pow2(0) == 1) by {
            reveal_with_fuel(vstd::arithmetic::power::pow, 1);
        }
    } else {
        let q = (w / 0x100) as u64;
        lemma_fundamental_div_mod(w as int, 0x100);
        lemma_pow2_adds(8, 8 * (n - 1) as nat);
        assert((q as int) < pow2(8 * (n - 1) as nat)) by (nonlinear_arith)
            requires
                q == w as int / 0x100,
                (w as int) < 0x100 * pow2(8 * (n - 1) as nat),
                pow2(8 * (n - 1) as nat) > 0,
        ;
        lemma_le_roundtrip(q, (n - 1) as nat);
        let s = le_bytes(w, n);
        assert(s.skip(1) =~= le_bytes(q, (n - 1) as nat));
    }
}

/// The concatenated varint encodings of a run of words, with no separators:
/// the body of a packed repeated field.
pub open spec fn packed_enc(ws: Seq<u64>) -> Seq<u8>
    decreases ws.len(),
{
    if ws.len() == 0 {
        Seq::<u8>::empty()
    } else {
        varint_enc(ws[0]) + packed_enc(ws.skip(1))
    }
}

/// Distance from `p` up to `end`, clamped at zero.
pub open spec fn span(p: nat, end: nat) -> nat {
    if p <= end {
        (end - p) as nat
    } else {
        0
    }
}

/// The outcome of decoding varints one after another from `p` until the
/// cursor lands exactly on `end`: the decoded words, a bounds error when a
/// varint is truncated at the buffer's end, a misalignment error when a
/// varint runs past `end`.
pub open spec fn packed_read(b: Seq<u8>, p: nat, end: nat) -> Result<Seq<u64>, ProtoError>
    decreases span(p, end),
{
    if p > end {
        Err(ProtoError::Misalignment)
    } else if p == end {
        Ok(Seq::<u64>::empty())
    } else if !varint_ok_at(b, p) {
        Err(ProtoError::Bounds)
    } else {
        let sz = varint_size_at(b, p);
        if sz == 0 {
            // A decode that starts inside the buffer consumes at least one
            // byte, so this case never arises; it only settles termination.
            Err(ProtoError::Bounds)
        } else {
            match packed_read(b, (p + sz) as nat, end) {
                Ok(ws) => Ok(seq![varint_value_at(b, p)] + ws),
                Err(e) => Err(e),
            }
        }
    }
}

/// Prepend already-decoded words to the outcome of decoding the rest of a
/// packed run.
pub open spec fn packed_join(pre: Seq<u64>, r: Result<Seq<u64>, ProtoError>) -> Result<
    Seq<u64>,
    ProtoError,
> {
    match r {
        Ok(ws) => Ok(pre + ws),
        Err(e) => Err(e),
    }
}

/// One step of a packed run: a successful varint decode inside the run
/// peels one word off the front.
pub proof fn lemma_packed_read_step(b: Seq<u8>, p: nat, end: nat)
    requires
        p < end,
        varint_ok_at(b, p),
    ensures
        varint_size_at(b, p) >= 1,
        packed_read(b, p, end) == packed_join(
            seq![varint_value_at(b, p)],
            packed_read(b, (p + varint_size_at(b, p)) as nat, end),
        ),
{
    assert(suffix_at(b, p).len() > 0);
    lemma_varint_size_bounds(suffix_at(b, p), MAX_VARINT_BYTES as nat);
}

/// The outcome of decoding a whole packed field at `p`: a varint length
/// prefix, then the packed run it delimits.
pub open spec fn packed_read_at(b: Seq<u8>, p: nat) -> Result<Seq<u64>, ProtoError> {
    if !varint_ok_at(b, p) {
        Err(ProtoError::Bounds)
    } else {
        let n = varint_value_at(b, p);
        let p1 = p + varint_size_at(b, p);
        if p1 + n > b.len() {
            Err(ProtoError::Bounds)
        } else {
            packed_read(b, p1 as nat, (p1 + n) as nat)
        }
    }
}

/// Wherever the encoding of `v` stands in a buffer, decoding at its first
/// byte consumes exactly the encoding and yields `v`: the varint round-trip
/// law, framed by arbitrary surrounding bytes.
pub proof fn lemma_varint_at(prefix: Seq<u8>, v: u64, rest: Seq<u8>)
    ensures
        varint_ok_at(prefix + varint_enc(v) + rest, prefix.len()),
        varint_size_at(prefix + varint_enc(v) + rest, prefix.len()) == varint_enc(v).len(),
        varint_value_at(prefix + varint_enc(v) + rest, prefix.len()) == v,
{
    let b = prefix + varint_enc(v) + rest;
    assert(suffix_at(b, prefix.len()) =~= varint_enc(v) + rest);
    lemma_varint_enc_decodes(v, rest);
}

/// Wherever a length-prefixed payload stands in a buffer — the byte count
/// as a varint, then the bytes themselves — reading the length-delimited
/// field at its first byte yields the payload back.
pub proof fn lemma_bytes_roundtrip(prefix: Seq<u8>, payload: Seq<u8>, rest: Seq<u8>)
    requires
        payload.len() <= u64::MAX,
    ensures
        bytes_read_at(
            prefix + varint_enc(payload.len() as u64) + payload + rest,
            prefix.len(),
        ) == Ok::<Seq<u8>, ProtoError>(payload),
{
    let n = payload.len() as u64;
    let b = prefix + varint_enc(n) + payload + rest;
    assert(b =~= prefix + varint_enc(n) + (payload + rest));
    lemma_varint_at(prefix, n, payload + rest);
    let p1 = prefix.len() + varint_enc(n).len();
    assert(b.subrange(p1 as int, (p1 + payload.len()) as int) =~= payload);
}

/// Wherever the concatenated encodings of a run of words stand in a
/// buffer, decoding varints from the run's first byte until its last lands
/// exactly on its end and yields the words back.
pub proof fn lemma_packed_body_decodes(ws: Seq<u64>, prefix: Seq<u8>, rest: Seq<u8>)
    ensures
        packed_read(
            prefix + packed_enc(ws) + rest,
            prefix.len(),
            prefix.len() + packed_enc(ws).len(),
        ) == Ok::<Seq<u64>, ProtoError>(ws),
    decreases ws.len(),
{
    let b = prefix + packed_enc(ws) + rest;
    let p = prefix.len();
    let end = p + packed_enc(ws).len();
    if ws.len() == 0 {
        assert(ws =~= Seq::<u64>::empty());
    } else {
        let head = ws[0];
        let tail = ws.skip(1);
        assert(packed_enc(ws) == varint_enc(head) + packed_enc(tail));
        assert(b =~= prefix + varint_enc(head) + (packed_enc(tail) + rest));
        lemma_varint_at(prefix, head, packed_enc(tail) + rest);
        lemma_varint_enc_len(head);
        lemma_packed_read_step(b, p, end as nat);
        assert(b =~= (prefix + varint_enc(head)) + packed_enc(tail) + rest);
        lemma_packed_body_decodes(tail, prefix + varint_enc(head), rest);
        assert(seq![head] + tail =~= ws);
    }
}

/// Wherever a whole packed field body stands in a buffer — the body's byte
/// count as a varint, then the elements' encodings back to back — reading
/// the packed field at its first byte yields the words back: the packed
/// round-trip law.
pub proof fn lemma_packed_roundtrip(ws: Seq<u64>, prefix: Seq<u8>, rest: Seq<u8>)
    requires
        packed_enc(ws).len() <= u64::MAX,
    ensures
        packed_read_at(
            prefix + varint_enc(packed_enc(ws).len() as u64) + packed_enc(ws) + rest,
            prefix.len(),
        ) == Ok::<Seq<u64>, ProtoError>(ws),
{
    let body = packed_enc(ws);
    let n = body.len() as u64;
    let b = prefix + varint_enc(n) + body + rest;
    assert(b =~= prefix + varint_enc(n) + (body + rest));
    lemma_varint_at(prefix, n, body + rest);
    let p1 = prefix.len() + varint_enc(n).len();
    assert(b =~= (prefix + varint_enc(n)) + body + rest);
    lemma_packed_body_decodes(ws, prefix + varint_enc(n), rest);
}

/// The outcome of decoding a length-delimited payload at `p`: a varint
/// length prefix, then exactly that many raw bytes.
pub open spec fn bytes_read_at(b: Seq<u8>, p: nat) -> Result<Seq<u8>, ProtoError> {
    if !varint_ok_at(b, p) {
        Err(ProtoError::Bounds)
    } else {
        let n = varint_value_at(b, p);
        let p1 = p + varint_size_at(b, p);
        if p1 + n > b.len() {
            Err(ProtoError::Bounds)
        } else {
            Ok(b.subrange(p1 as int, (p1 + n) as int))
        }
    }
}

} // verus!
