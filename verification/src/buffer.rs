use vstd::prelude::*;
use vstd::arithmetic::div_mod::{lemma_add_mod_noop, lemma_small_mod};
use vstd::arithmetic::power2::{pow2, lemma_pow2_adds, lemma2_to64};
use vstd::slice::{slice_subrange, slice_to_vec};
use vstd::utf8::{valid_utf8, encode_utf8, decode_utf8};
use crate::bit_cast::{BitCast, SignedCast};
use crate::error::ProtoError;
use crate::wire::{
    varint_enc, varint_ok, varint_size, varint_value, suffix_at, varint_ok_at, varint_size_at,
    varint_value_at, lemma_varint_size_bounds, zigzag_spec, zagzig_spec, key_val, bytes_read_at,
    le_bytes, le_word, packed_enc, packed_read, packed_read_at, packed_join, lemma_packed_read_step,
    span, MAX_VARINT_BYTES, MAX_TAG,
};

verus! {

/// The wire layout of one field's value: how the bytes after the field key
/// are to be consumed.
#[derive(Debug, PartialEq, Eq, Structural, Clone, Copy)]
pub enum Type {
    /// A variable-length integer: unsigned or zigzag-signed numbers, bools,
    /// enumerations.
    Varint,
    /// Exactly eight raw little-endian bytes.
    Fixed64,
    /// A varint byte-length prefix followed by that many raw bytes: strings,
    /// blobs, nested messages, packed runs.
    Bytes,
    /// Exactly four raw little-endian bytes.
    Fixed32,
    /// No payload at all.
    Null,
}

impl Type {
    /// The 3-bit code this wire type takes inside a field key.
    pub open spec fn spec_code(self) -> u64 {
        match self {
            Type::Varint => 0,
            Type::Fixed64 => 1,
            Type::Bytes => 2,
            Type::Fixed32 => 5,
            Type::Null => 7,
        }
    }

    /// True of the five code values that denote a wire type; 3, 4 and 6 are
    /// reserved and invalid.
    pub open spec fn code_valid(c: u64) -> bool {
        c == 0 || c == 1 || c == 2 || c == 5 || c == 7
    }

    /// The wire type a valid code denotes.
    pub open spec fn spec_from_code(c: u64) -> Type
        recommends
            Type::code_valid(c),
    {
        if c == 0 {
            Type::Varint
        } else if c == 1 {
            Type::Fixed64
        } else if c == 2 {
            Type::Bytes
        } else if c == 5 {
            Type::Fixed32
        } else {
            Type::Null
        }
    }

    /// The 3-bit code this wire type takes inside a field key.
    pub fn code(&self) -> (c: u64)
        ensures
            c == self.spec_code(),
            Type::code_valid(c),
    {
        match self {
            Type::Varint => 0,
            Type::Fixed64 => 1,
            Type::Bytes => 2,
            Type::Fixed32 => 5,
            Type::Null => 7,
        }
    }

    /// Recover a wire type from the low three bits of a field key; the
    /// reserved codes 3, 4 and 6 are a format error.
    pub fn from_code(c: u64) -> (r: Result<Type, ProtoError>)
        ensures
            r is Ok <==> Type::code_valid(c % 8),
            r matches Ok(t) ==> t == Type::spec_from_code(c % 8),
            r is Err ==> r == Result::<Type, ProtoError>::Err(ProtoError::Format),
    {
        match c % 8 {
            0 => Ok(Type::Varint),
            1 => Ok(Type::Fixed64),
            2 => Ok(Type::Bytes),
            5 => Ok(Type::Fixed32),
            7 => Ok(Type::Null),
            _ => Err(ProtoError::Format),
        }
    }
}

/// A decoded field key: the caller-assigned tag and the wire type of the
/// value that follows it.
#[derive(Debug, PartialEq, Eq, Structural, Clone, Copy)]
pub struct Field {
    /// The tag that tracks which datum this field carries.
    pub tag: u64,
    /// How the field's value is laid out on the wire.
    pub wire_type: Type,
}

/// What a structured value implements to be read out of a protobuf
/// message. The engine decodes each field key and hands the tag here; the
/// implementation either consumes exactly the value belonging to that tag,
/// or consumes nothing, and the engine then skips the value by its wire
/// type. A partial consume derails every later field: consume all of the
/// value or none of it.
pub trait ProtoRead {
    /// The tags this reader recognizes. A call with any other tag declines
    /// it: the reader consumes nothing, returns successfully, and the
    /// engine's skip takes over. The default — recognizing nothing — stands
    /// for implementations outside the verified world, which override
    /// `read` only; an implementation verified here overrides it with the
    /// tags its `read` consumes.
    open spec fn recognizes(tag: u64) -> bool {
        false
    }

    /// Read the value for one decoded `tag` from the buffer into `self`,
    /// or leave the cursor exactly where it is to decline the tag.
    fn read(&mut self, tag: u64, pbf: &mut Protobuf) -> (r: Result<(), ProtoError>)
        ensures
            final(pbf).buf@ == old(pbf).buf@,
            final(pbf).pos >= old(pbf).pos,
            !Self::recognizes(tag) ==> r is Ok && final(pbf).pos == old(pbf).pos,
    ;
}

/// What a structured value implements to be written as a protobuf
/// message: appending every present field, each preceded by its key, in an
/// order of the implementation's choosing. Absent optional fields emit
/// nothing at all.
pub trait ProtoWrite {
    /// The exact bytes this value's fields occupy on the wire. The default
    /// stands for implementations outside the verified world, which
    /// override `write` only; an implementation verified here overrides it
    /// with the bytes its `write` emits.
    open spec fn wire_bytes(&self) -> Seq<u8> {
        Seq::<u8>::empty()
    }

    /// Append this value's fields to the buffer.
    fn write(&self, pbf: &mut Protobuf)
        ensures
            final(pbf).buf@ == old(pbf).buf@ + self.wire_bytes(),
            final(pbf).pos == old(pbf).pos,
    ;
}

/// A protobuf buffer session: one growable byte sequence and one read
/// cursor. Writing appends to the end of `buf`; reading consumes bytes at
/// `pos` and advances it.
pub struct Protobuf {
    /// The owned byte sequence.
    pub buf: Vec<u8>,
    /// The read cursor: the offset of the next byte a read will consume.
    pub pos: usize,
}

impl Default for Protobuf {
    /// An empty buffer with the cursor at the start.
    fn default() -> (r: Protobuf)
        ensures
            r.buf@ == Seq::<u8>::empty(),
            r.pos == 0,
    {
        Protobuf::new()
    }
}

/// Relies on `String::from_utf8`: it succeeds exactly on the byte
/// sequences that are valid UTF-8, and the string it returns encodes back
/// to the very bytes it was built from.
#[verifier::external_body]
fn bytes_to_string(v: Vec<u8>) -> (r: Option<String>)
    ensures
        (r is Some) == valid_utf8(v@),
        r matches Some(s) ==> encode_utf8(s@) == v@,
{
    String::from_utf8(v).ok()
}

/// Decode one varint from `buf` at `pos`, with `k` bytes of budget left.
/// Mirrors the specification functions of the `wire` module byte for byte.
fn decode_varint_from(buf: &Vec<u8>, pos: usize, k: usize) -> (r: Option<(u64, usize)>)
    ensures
        (r is Some) == varint_ok(suffix_at(buf@, pos as nat), k as nat),
        r matches Some(p) ==> {
            &&& p.1 == varint_size(suffix_at(buf@, pos as nat), k as nat)
            &&& p.0 == varint_value(suffix_at(buf@, pos as nat), k as nat)
            &&& p.1 <= k
            &&& (p.1 == 0 || pos + p.1 <= buf@.len())
        },
    decreases k,
{
    if k == 0 {
        Some((0, 0))
    } else if pos >= buf.len() {
        None
    } else {
        let b = buf[pos];
        if b < 0x80 {
            assert(suffix_at(buf@, pos as nat)[0] == b);
            Some((b as u64, 1))
        } else {
            let s = Ghost(suffix_at(buf@, pos as nat));
            assert(s@[0] == b && s@.len() > 0);
            assert(suffix_at(buf@, (pos + 1) as nat) =~= s@.skip(1));
            match decode_varint_from(buf, pos + 1, k - 1) {
                Option::None => None,
                Option::Some((v, n)) => {
                    let low = (b - 0x80) as u64;
                    let val = low.wrapping_add(v.wrapping_mul(0x80));
                    proof {
                        let m: int = 0x1_0000_0000_0000_0000;
                        lemma_add_mod_noop(low as int, 0x80 * (v as int), m);
                        lemma_small_mod(low as nat, m as nat);
                        lemma_small_mod(((low + (0x80 * (v as int)) % m) % m) as nat, m as nat);
                    }
                    Some((val, n + 1))
                },
            }
        }
    }
}

impl Protobuf {
    /// A fresh, empty write session.
    pub fn new() -> (r: Protobuf)
        ensures
            r.buf@ == Seq::<u8>::empty(),
            r.pos == 0,
    {
        Protobuf { buf: Vec::new(), pos: 0 }
    }

    /// A read session over an existing byte sequence, cursor at the start.
    pub fn from_input(buf: Vec<u8>) -> (r: Protobuf)
        ensures
            r.buf@ == buf@,
            r.pos == 0,
    {
        Protobuf { buf, pos: 0 }
    }

    /// Move the read cursor to an arbitrary byte offset.
    pub fn set_pos(&mut self, pos: usize)
        ensures
            final(self).buf@ == old(self).buf@,
            final(self).pos == pos,
    {
        self.pos = pos;
    }

    /// The length of the byte sequence.
    pub fn len(&self) -> (n: usize)
        ensures
            n == self.buf@.len(),
    {
        self.buf.len()
    }

    /// True when the byte sequence holds no bytes at all.
    pub fn is_empty(&self) -> (r: bool)
        ensures
            r == (self.buf@.len() == 0),
    {
        self.buf.len() == 0
    }

    /// Decode one varint at the cursor and advance past it. Fails with a
    /// bounds error exactly when the bytes run out before a terminating
    /// byte is found (within the ten-byte budget).
    pub fn decode_varint(&mut self) -> (r: Result<u64, ProtoError>)
        ensures
            final(self).buf@ == old(self).buf@,
            (r is Ok) == varint_ok_at(old(self).buf@, old(self).pos as nat),
            r matches Ok(v) ==> {
                &&& v == varint_value_at(old(self).buf@, old(self).pos as nat)
                &&& final(self).pos == old(self).pos + varint_size_at(old(self).buf@, old(self).pos as nat)
                &&& final(self).pos <= final(self).buf@.len()
                &&& final(self).pos > old(self).pos
            },
            r is Err ==> r == Result::<u64, ProtoError>::Err(ProtoError::Bounds)
                && final(self).pos == old(self).pos,
    {
        match decode_varint_from(&self.buf, self.pos, MAX_VARINT_BYTES) {
            Option::None => Err(ProtoError::Bounds),
            Option::Some((v, n)) => {
                let l = self.buf.len();
                proof {
                    let s = suffix_at(self.buf@, self.pos as nat);
                    assert(s.len() > 0);
                    lemma_varint_size_bounds(s, 10);
                    assert(self.pos + n <= l);
                }
                self.pos = self.pos + n;
                Ok(v)
            },
        }
    }

    /// After reading a field key, consume and discard the value it
    /// announces, according to its wire type.
    pub fn skip(&mut self, t: Type) -> (r: Result<(), ProtoError>)
        ensures
            final(self).buf@ == old(self).buf@,
            (r is Ok) == (skip_result(old(self).buf@, old(self).pos as nat, t) is Ok),
            r is Ok ==> skip_result(old(self).buf@, old(self).pos as nat, t)
                == Ok::<nat, ProtoError>(final(self).pos as nat),
            r matches Err(e) ==> skip_result(old(self).buf@, old(self).pos as nat, t)
                == Err::<nat, ProtoError>(e),
            final(self).pos >= old(self).pos,
    {
        match t {
            Type::Varint => {
                match self.decode_varint() {
                    Ok(_) => Ok(()),
                    Err(e) => Err(e),
                }
            },
            Type::Fixed64 => {
                if self.pos <= self.buf.len() && self.buf.len() - self.pos >= 8 {
                    self.pos = self.pos + 8;
                    Ok(())
                } else {
                    Err(ProtoError::Bounds)
                }
            },
            Type::Fixed32 => {
                if self.pos <= self.buf.len() && self.buf.len() - self.pos >= 4 {
                    self.pos = self.pos + 4;
                    Ok(())
                } else {
                    Err(ProtoError::Bounds)
                }
            },
            Type::Bytes => {
                let n = match self.decode_varint() {
                    Ok(v) => v,
                    Err(e) => {
                        return Err(e);
                    },
                };
                let rem = self.buf.len() - self.pos;
                if n > rem as u64 {
                    Err(ProtoError::Bounds)
                } else {
                    self.pos = self.pos + (n as usize);
                    Ok(())
                }
            },
            Type::Null => Ok(()),
        }
    }

    /// Decode one field key at the cursor: the tag and the wire type of the
    /// value that follows. A truncated key is a bounds error; a reserved
    /// wire-type code is a format error.
    pub fn read_field(&mut self) -> (r: Result<Field, ProtoError>)
        ensures
            final(self).buf@ == old(self).buf@,
            (r is Ok) == (varint_ok_at(old(self).buf@, old(self).pos as nat)
                && Type::code_valid(varint_value_at(old(self).buf@, old(self).pos as nat) % 8)),
            r matches Ok(f) ==> {
                &&& f.tag == varint_value_at(old(self).buf@, old(self).pos as nat) / 8
                &&& f.wire_type == Type::spec_from_code(
                    varint_value_at(old(self).buf@, old(self).pos as nat) % 8)
                &&& final(self).pos == old(self).pos
                    + varint_size_at(old(self).buf@, old(self).pos as nat)
                &&& final(self).pos <= final(self).buf@.len()
                &&& final(self).pos > old(self).pos
            },
            !varint_ok_at(old(self).buf@, old(self).pos as nat)
                ==> r == Result::<Field, ProtoError>::Err(ProtoError::Bounds)
                    && final(self).pos == old(self).pos,
            varint_ok_at(old(self).buf@, old(self).pos as nat)
                && !Type::code_valid(varint_value_at(old(self).buf@, old(self).pos as nat) % 8)
                ==> r == Result::<Field, ProtoError>::Err(ProtoError::Format),
            final(self).pos >= old(self).pos,
    {
        let val = match self.decode_varint() {
            Ok(v) => v,
            Err(e) => {
                return Err(e);
            },
        };
        let wire_type = match Type::from_code(val) {
            Ok(t) => t,
            Err(e) => {
                return Err(e);
            },
        };
        Ok(Field { tag: val / 8, wire_type })
    }

    /// Read one length-delimited payload at the cursor: a varint byte count
    /// and then exactly that many raw bytes, copied out.
    pub fn read_bytes(&mut self) -> (r: Result<Vec<u8>, ProtoError>)
        ensures
            final(self).buf@ == old(self).buf@,
            (r is Ok) == (bytes_read_at(old(self).buf@, old(self).pos as nat) is Ok),
            r matches Ok(v) ==> {
                &&& bytes_read_at(old(self).buf@, old(self).pos as nat)
                    == Ok::<Seq<u8>, ProtoError>(v@)
                &&& final(self).pos == old(self).pos
                    + varint_size_at(old(self).buf@, old(self).pos as nat)
                    + varint_value_at(old(self).buf@, old(self).pos as nat)
                &&& final(self).pos <= final(self).buf@.len()
            },
            r matches Err(e) ==> bytes_read_at(old(self).buf@, old(self).pos as nat)
                == Err::<Seq<u8>, ProtoError>(e),
            final(self).pos >= old(self).pos,
    {
        let n = match self.decode_varint() {
            Ok(v) => v,
            Err(e) => {
                return Err(e);
            },
        };
        let rem = self.buf.len() - self.pos;
        if n > rem as u64 {
            return Err(ProtoError::Bounds);
        }
        let start = self.pos;
        let end = self.pos + (n as usize);
        let out = slice_to_vec(slice_subrange(self.buf.as_slice(), start, end));
        self.pos = end;
        Ok(out)
    }

    /// Append the varint encoding of `val` to the owned buffer.
    pub fn write_varint(&mut self, val: u64)
        ensures
            final(self).buf@ == old(self).buf@ + varint_enc(val),
            final(self).pos == old(self).pos,
    {
        Protobuf::write_varint_to_buffer(&mut self.buf, val);
    }

    /// Append the varint encoding of `val` to a caller-owned byte vector,
    /// for callers that assemble wire bytes outside a session.
    pub fn write_varint_to_buffer(buf: &mut Vec<u8>, val: u64)
        ensures
            final(buf)@ == old(buf)@ + varint_enc(val),
    {
        let mut v: u64 = val;
        while v >= 0x80
            invariant
                buf@ + varint_enc(v) == old(buf)@ + varint_enc(val),
            decreases v,
        {
            let ghost prev = buf@;
            let ghost pv = v;
            buf.push((v % 0x80 + 0x80) as u8);
            v = v / 0x80;
            proof {
                assert(varint_enc(pv) == seq![(pv % 0x80 + 0x80) as u8] + varint_enc((pv / 0x80) as u64));
                assert(buf@ + varint_enc(v) =~= prev + varint_enc(pv));
            }
        }
        let ghost prev = buf@;
        let ghost pv = v;
        buf.push(v as u8);
        proof {
            assert(varint_enc(pv) == seq![pv as u8]);
            assert(buf@ =~= prev + varint_enc(pv));
        }
    }

    /// Append the zigzag varint encoding of a signed value.
    pub fn write_s_varint(&mut self, val: i64)
        ensures
            final(self).buf@ == old(self).buf@ + varint_enc(zigzag_spec(val)),
            final(self).pos == old(self).pos,
    {
        let u = zigzag(val);
        self.write_varint(u);
    }

    /// Append one field key: the tag and the wire type packed into one
    /// varint.
    pub fn write_field(&mut self, tag: u64, wire_type: Type)
        requires
            tag <= MAX_TAG,
        ensures
            final(self).buf@ == old(self).buf@ + varint_enc(key_val(tag, wire_type.spec_code())),
            final(self).pos == old(self).pos,
    {
        let key: u64 = tag * 8 + wire_type.code();
        self.write_varint(key);
    }

    /// Append a field key with the length-delimited wire type, then the
    /// byte count that will follow.
    pub fn write_length_varint(&mut self, tag: u64, val: usize)
        requires
            tag <= MAX_TAG,
        ensures
            final(self).buf@ == old(self).buf@ + varint_enc(key_val(tag, 2))
                + varint_enc(val as u64),
            final(self).pos == old(self).pos,
    {
        self.write_field(tag, Type::Bytes);
        self.write_varint(val as u64);
    }

    /// Append one varint field: key, then the value's 64-bit word as a
    /// varint.
    pub fn write_varint_field<T: BitCast>(&mut self, tag: u64, val: T)
        requires
            tag <= MAX_TAG,
        ensures
            final(self).buf@ == old(self).buf@ + varint_enc(key_val(tag, 0))
                + varint_enc(val.to_word()),
            final(self).pos == old(self).pos,
    {
        self.write_field(tag, Type::Varint);
        let w = val.to_u64();
        self.write_varint(w);
    }

    /// Append one signed varint field: key, then the zigzag encoding of the
    /// value.
    pub fn write_s_varint_field<T: SignedCast>(&mut self, tag: u64, val: T)
        requires
            tag <= MAX_TAG,
        ensures
            final(self).buf@ == old(self).buf@ + varint_enc(key_val(tag, 0))
                + varint_enc(zigzag_spec(val.to_i64())),
            final(self).pos == old(self).pos,
    {
        self.write_field(tag, Type::Varint);
        let v = val.widen_i64();
        self.write_s_varint(v);
    }

    /// Read one fixed-width value at the cursor: the type's width in raw
    /// little-endian bytes, reinterpreted through its bit pattern.
    pub fn read_fixed<T: BitCast>(&mut self) -> (r: Result<T, ProtoError>)
        ensures
            final(self).buf@ == old(self).buf@,
            (r is Ok) == (old(self).pos + T::spec_width() <= old(self).buf@.len()),
            r matches Ok(t) ==> {
                &&& t == T::of_word(le_word(old(self).buf@.subrange(
                    old(self).pos as int,
                    old(self).pos + T::spec_width(),
                )))
                &&& final(self).pos == old(self).pos + T::spec_width()
            },
            r is Err ==> r == Result::<T, ProtoError>::Err(ProtoError::Bounds)
                && final(self).pos == old(self).pos,
    {
        let size = T::width();
        if self.pos > self.buf.len() || self.buf.len() - self.pos < size {
            return Err(ProtoError::Bounds);
        }
        let p = self.pos;
        let l = self.buf.len();
        let mut acc: u64 = 0;
        let mut i = size;
        proof {
            assert(self.buf@.subrange((p + i) as int, (p + size) as int) =~= Seq::<u8>::empty());
        }
        while i > 0
            invariant
                i <= size,
                size == T::spec_width(),
                1 <= size <= 8,
                p + size <= l,
                l == self.buf@.len(),
                acc == le_word(self.buf@.subrange((p + i) as int, (p + size) as int)),
            decreases i,
        {
            i = i - 1;
            let ghost prev_acc = acc;
            let b = self.buf[p + i];
            proof {
                lemma2_to64();
                lemma_pow2_adds(8, 8 * (size - i - 1) as nat);
                if 8 * (size - i) < 64 {
                    vstd::arithmetic::power2::lemma_pow2_strictly_increases(
                        8 * (size - i) as nat,
                        64,
                    );
                }
                crate::wire::lemma_le_word_bound(
                    self.buf@.subrange((p + i + 1) as int, (p + size) as int),
                );
                assert(b + 0x100 * prev_acc < 0x100 * pow2(8 * (size - i - 1) as nat));
            }
            acc = (b as u64) + 0x100 * acc;
            proof {
                let s = self.buf@.subrange((p + i) as int, (p + size) as int);
                assert(s[0] == b);
                assert(s.skip(1) =~= self.buf@.subrange((p + i + 1) as int, (p + size) as int));
                lemma_small_mod(acc as nat, 0x1_0000_0000_0000_0000);
            }
        }
        self.pos = p + size;
        Ok(T::from_u64(acc))
    }

    /// Read one varint at the cursor and reinterpret its 64-bit word as a
    /// value of `T`.
    pub fn read_varint<T: BitCast>(&mut self) -> (r: Result<T, ProtoError>)
        ensures
            final(self).buf@ == old(self).buf@,
            (r is Ok) == varint_ok_at(old(self).buf@, old(self).pos as nat),
            r matches Ok(t) ==> {
                &&& t == T::of_word(varint_value_at(old(self).buf@, old(self).pos as nat))
                &&& final(self).pos == old(self).pos
                    + varint_size_at(old(self).buf@, old(self).pos as nat)
                &&& final(self).pos <= final(self).buf@.len()
            },
            r is Err ==> r == Result::<T, ProtoError>::Err(ProtoError::Bounds)
                && final(self).pos == old(self).pos,
    {
        match self.decode_varint() {
            Ok(v) => Ok(T::from_u64(v)),
            Err(e) => Err(e),
        }
    }

    /// Read one zigzag-encoded signed varint at the cursor as a value of
    /// `T`. The decoded number must lie in `T`'s range: the caller chooses
    /// `T` to match what was written.
    pub fn read_s_varint<T: SignedCast>(&mut self) -> (r: Result<T, ProtoError>)
        requires
            varint_ok_at(old(self).buf@, old(self).pos as nat) ==> {
                &&& T::spec_min()
                    <= zagzig_spec(varint_value_at(old(self).buf@, old(self).pos as nat))
                &&& zagzig_spec(varint_value_at(old(self).buf@, old(self).pos as nat))
                    <= T::spec_max()
            },
        ensures
            final(self).buf@ == old(self).buf@,
            (r is Ok) == varint_ok_at(old(self).buf@, old(self).pos as nat),
            r matches Ok(t) ==> {
                &&& t == T::of_i64(zagzig_spec(varint_value_at(old(self).buf@, old(self).pos as nat)))
                &&& final(self).pos == old(self).pos
                    + varint_size_at(old(self).buf@, old(self).pos as nat)
                &&& final(self).pos <= final(self).buf@.len()
            },
            r is Err ==> r == Result::<T, ProtoError>::Err(ProtoError::Bounds)
                && final(self).pos == old(self).pos,
    {
        match self.decode_varint() {
            Ok(v) => {
                let s = zagzig(v);
                Ok(T::narrow_i64(s))
            },
            Err(e) => Err(e),
        }
    }

    /// Append one fixed-width value: the low bytes of its word, little
    /// endian, exactly the type's width of them. This path never
    /// compresses.
    pub fn write_fixed<T: BitCast>(&mut self, val: T)
        ensures
            final(self).buf@ == old(self).buf@ + le_bytes(val.to_word(), T::spec_width()),
            final(self).pos == old(self).pos,
    {
        let size = T::width();
        let mut w = val.to_u64();
        let mut i: usize = 0;
        while i < size
            invariant
                i <= size,
                size == T::spec_width(),
                self.pos == old(self).pos,
                self.buf@ + le_bytes(w, (size - i) as nat)
                    == old(self).buf@ + le_bytes(val.to_word(), size as nat),
            decreases size - i,
        {
            let ghost prev = self.buf@;
            let ghost pw = w;
            let b = (w % 0x100) as u8;
            self.buf.push(b);
            w = w / 0x100;
            i = i + 1;
            proof {
                assert(le_bytes(pw, (size - i + 1) as nat) == seq![(pw % 0x100) as u8]
                    + le_bytes((pw / 0x100) as u64, (size - i) as nat));
                assert(self.buf@ + le_bytes(w, (size - i) as nat)
                    =~= prev + le_bytes(pw, (size - i + 1) as nat));
            }
        }
        proof {
            assert(self.buf@ + le_bytes(w, 0) =~= self.buf@);
        }
    }

    /// Append one fixed-width field: a key whose wire type matches the
    /// value's width, then the raw little-endian bytes. Only 4- and 8-byte
    /// types have a fixed wire type.
    pub fn write_fixed_field<T: BitCast + Copy>(&mut self, tag: u64, val: T)
        requires
            tag <= MAX_TAG,
            T::spec_width() == 4 || T::spec_width() == 8,
        ensures
            T::spec_width() == 4 ==> final(self).buf@ == old(self).buf@
                + varint_enc(key_val(tag, 5)) + le_bytes(val.to_word(), 4),
            T::spec_width() == 8 ==> final(self).buf@ == old(self).buf@
                + varint_enc(key_val(tag, 1)) + le_bytes(val.to_word(), 8),
            final(self).pos == old(self).pos,
    {
        let size = T::width();
        let wire_type = if size == 4 {
            Type::Fixed32
        } else {
            Type::Fixed64
        };
        self.write_field(tag, wire_type);
        self.write_fixed(val);
    }

    /// Read one packed run of unsigned varints at the cursor: a varint byte
    /// length, then varints back to back until the cursor lands exactly on
    /// the announced end. Landing past it is a misalignment error.
    pub fn read_packed<T: BitCast>(&mut self) -> (r: Result<Vec<T>, ProtoError>)
        ensures
            final(self).buf@ == old(self).buf@,
            (r is Ok) == (packed_read_at(old(self).buf@, old(self).pos as nat) is Ok),
            r matches Ok(v) ==> {
                &&& v@ == packed_read_at(old(self).buf@, old(self).pos as nat).unwrap()
                    .map_values(|w: u64| T::of_word(w))
                &&& final(self).pos == old(self).pos
                    + varint_size_at(old(self).buf@, old(self).pos as nat)
                    + varint_value_at(old(self).buf@, old(self).pos as nat)
            },
            r matches Err(e) ==> packed_read_at(old(self).buf@, old(self).pos as nat)
                == Err::<Seq<u64>, ProtoError>(e),
            final(self).pos >= old(self).pos,
    {
        let n = match self.decode_varint() {
            Ok(v) => v,
            Err(e) => {
                return Err(e);
            },
        };
        let rem = self.buf.len() - self.pos;
        if n > rem as u64 {
            return Err(ProtoError::Bounds);
        }
        let ghost p1 = self.pos as nat;
        let end = self.pos + (n as usize);
        let mut res: Vec<T> = Vec::new();
        let ghost mut words: Seq<u64> = Seq::<u64>::empty();
        proof {
            let b = old(self).buf@;
            assert(packed_read_at(b, old(self).pos as nat) == packed_read(b, p1, end as nat));
            if packed_read(b, p1, end as nat) is Ok {
                assert(Seq::<u64>::empty() + packed_read(b, p1, end as nat).unwrap()
                    =~= packed_read(b, p1, end as nat).unwrap());
            }
            assert(res@ =~= words.map_values(|w: u64| T::of_word(w)));
        }
        while self.pos < end
            invariant
                self.buf@ == old(self).buf@,
                self.pos >= p1,
                p1 >= old(self).pos,
                end as nat == p1 + n,
                p1 + n <= old(self).buf@.len(),
                res@ == words.map_values(|w: u64| T::of_word(w)),
                packed_read_at(old(self).buf@, old(self).pos as nat)
                    == packed_read(old(self).buf@, p1, end as nat),
                old(self).pos + varint_size_at(old(self).buf@, old(self).pos as nat)
                    + varint_value_at(old(self).buf@, old(self).pos as nat) == p1 + n,
                packed_read(old(self).buf@, p1, end as nat) == packed_join(
                    words,
                    packed_read(old(self).buf@, self.pos as nat, end as nat),
                ),
            decreases span(self.pos as nat, end as nat),
        {
            let ghost b = self.buf@;
            let ghost pos0 = self.pos as nat;
            let v = match self.decode_varint() {
                Ok(v) => v,
                Err(e) => {
                    proof {
                        assert(!varint_ok_at(b, pos0));
                        assert(packed_read(b, pos0, end as nat)
                            == Err::<Seq<u64>, ProtoError>(ProtoError::Bounds));
                        assert(packed_read(b, p1, end as nat)
                            == Err::<Seq<u64>, ProtoError>(ProtoError::Bounds));
                    }
                    return Err(e);
                },
            };
            proof {
                lemma_packed_read_step(b, pos0, end as nat);
            }
            res.push(T::from_u64(v));
            proof {
                let f = |w: u64| T::of_word(w);
                let prev_words = words;
                words = words.push(v);
                assert(res@ =~= words.map_values(f));
                if packed_read(b, self.pos as nat, end as nat) is Ok {
                    let ws = packed_read(b, self.pos as nat, end as nat).unwrap();
                    assert(prev_words + (seq![v] + ws) =~= words + ws);
                }
            }
        }
        if self.pos == end {
            proof {
                let b = old(self).buf@;
                assert(packed_read(b, self.pos as nat, end as nat)
                    == Ok::<Seq<u64>, ProtoError>(Seq::<u64>::empty()));
                assert(words + Seq::<u64>::empty() =~= words);
            }
            Ok(res)
        } else {
            Err(ProtoError::Misalignment)
        }
    }

    /// Read one packed run of zigzag-encoded signed varints at the cursor.
    /// Every decoded number must lie in `T`'s range: the caller chooses `T`
    /// to match what was written.
    pub fn read_s_packed<T: SignedCast>(&mut self) -> (r: Result<Vec<T>, ProtoError>)
        requires
            packed_read_at(old(self).buf@, old(self).pos as nat) matches Ok(ws)
                ==> forall|i: int|
                    0 <= i < ws.len() ==> T::spec_min() <= #[trigger] zagzig_spec(ws[i])
                        <= T::spec_max(),
        ensures
            final(self).buf@ == old(self).buf@,
            (r is Ok) == (packed_read_at(old(self).buf@, old(self).pos as nat) is Ok),
            r matches Ok(v) ==> {
                &&& v@ == packed_read_at(old(self).buf@, old(self).pos as nat).unwrap()
                    .map_values(|w: u64| T::of_i64(zagzig_spec(w)))
                &&& final(self).pos == old(self).pos
                    + varint_size_at(old(self).buf@, old(self).pos as nat)
                    + varint_value_at(old(self).buf@, old(self).pos as nat)
            },
            r matches Err(e) ==> packed_read_at(old(self).buf@, old(self).pos as nat)
                == Err::<Seq<u64>, ProtoError>(e),
            final(self).pos >= old(self).pos,
    {
        let ghost ws0 = packed_read_at(old(self).buf@, old(self).pos as nat);
        let words = match self.read_packed::<u64>() {
            Ok(v) => v,
            Err(e) => {
                return Err(e);
            },
        };
        proof {
            assert(words@ =~= ws0.unwrap());
        }
        let mut out: Vec<T> = Vec::new();
        let mut i: usize = 0;
        proof {
            assert(out@ =~= words@.take(0).map_values(|w: u64| T::of_i64(zagzig_spec(w))));
        }
        while i < words.len()
            invariant
                i <= words@.len(),
                words@ == ws0.unwrap(),
                ws0 matches Ok(ws) ==> forall|j: int|
                    0 <= j < ws.len() ==> T::spec_min() <= #[trigger] zagzig_spec(ws[j])
                        <= T::spec_max(),
                ws0 is Ok,
                out@ == words@.take(i as int).map_values(|w: u64| T::of_i64(zagzig_spec(w))),
            decreases words@.len() - i,
        {
            let v = words[i];
            let s = zagzig(v);
            out.push(T::narrow_i64(s));
            i = i + 1;
            proof {
                assert(out@ =~= words@.take(i as int).map_values(
                    |w: u64| T::of_i64(zagzig_spec(w)),
                ));
            }
        }
        proof {
            assert(words@.take(words@.len() as int) =~= words@);
        }
        Ok(out)
    }

    /// Append one packed field of unsigned varints: key, the body's byte
    /// length, then each element's varint encoding back to back, with no
    /// per-element keys.
    pub fn write_packed_varint<T: BitCast + Copy>(&mut self, tag: u64, val: &[T])
        requires
            tag <= MAX_TAG,
        ensures
            final(self).buf@ == old(self).buf@ + varint_enc(key_val(tag, 2))
                + varint_enc(packed_enc(val@.map_values(|x: T| x.to_word())).len() as u64)
                + packed_enc(val@.map_values(|x: T| x.to_word())),
            packed_enc(val@.map_values(|x: T| x.to_word())).len() <= usize::MAX,
            final(self).pos == old(self).pos,
    {
        let ghost ws = val@.map_values(|x: T| x.to_word());
        let mut bytes: Vec<u8> = Vec::new();
        let mut i: usize = 0;
        proof {
            assert(ws.skip(0) =~= ws);
        }
        while i < val.len()
            invariant
                i <= val@.len(),
                ws == val@.map_values(|x: T| x.to_word()),
                bytes@ + packed_enc(ws.skip(i as int)) == packed_enc(ws),
            decreases val@.len() - i,
        {
            let ghost prev = bytes@;
            let x = val[i];
            let w = x.to_u64();
            Protobuf::write_varint_to_buffer(&mut bytes, w);
            i = i + 1;
            proof {
                let tail = ws.skip((i - 1) as int);
                assert(tail[0] == ws[i - 1]);
                assert(tail.skip(1) =~= ws.skip(i as int));
                assert(packed_enc(tail) == varint_enc(ws[i - 1]) + packed_enc(ws.skip(i as int)));
                assert(bytes@ + packed_enc(ws.skip(i as int)) =~= prev + packed_enc(tail));
            }
        }
        proof {
            assert(ws.skip(val@.len() as int) =~= Seq::<u64>::empty());
            assert(bytes@ + packed_enc(ws.skip(val@.len() as int)) =~= bytes@);
        }
        self.write_length_varint(tag, bytes.len());
        self.buf.append(&mut bytes);
    }

    /// Append one packed field of zigzag-encoded signed varints: key, byte
    /// length, then each element's zigzag varint encoding back to back.
    pub fn write_packed_s_varint<T: SignedCast + Copy>(&mut self, tag: u64, val: &[T])
        requires
            tag <= MAX_TAG,
        ensures
            final(self).buf@ == old(self).buf@ + varint_enc(key_val(tag, 2))
                + varint_enc(packed_enc(val@.map_values(|x: T| zigzag_spec(x.to_i64()))).len() as u64)
                + packed_enc(val@.map_values(|x: T| zigzag_spec(x.to_i64()))),
            packed_enc(val@.map_values(|x: T| zigzag_spec(x.to_i64()))).len() <= usize::MAX,
            final(self).pos == old(self).pos,
    {
        let ghost ws = val@.map_values(|x: T| zigzag_spec(x.to_i64()));
        let mut bytes: Vec<u8> = Vec::new();
        let mut i: usize = 0;
        proof {
            assert(ws.skip(0) =~= ws);
        }
        while i < val.len()
            invariant
                i <= val@.len(),
                ws == val@.map_values(|x: T| zigzag_spec(x.to_i64())),
                bytes@ + packed_enc(ws.skip(i as int)) == packed_enc(ws),
            decreases val@.len() - i,
        {
            let ghost prev = bytes@;
            let x = val[i];
            let wide = x.widen_i64();
            let w = zigzag(wide);
            Protobuf::write_varint_to_buffer(&mut bytes, w);
            i = i + 1;
            proof {
                let tail = ws.skip((i - 1) as int);
                assert(tail[0] == ws[i - 1]);
                assert(tail.skip(1) =~= ws.skip(i as int));
                assert(packed_enc(tail) == varint_enc(ws[i - 1]) + packed_enc(ws.skip(i as int)));
                assert(bytes@ + packed_enc(ws.skip(i as int)) =~= prev + packed_enc(tail));
            }
        }
        proof {
            assert(ws.skip(val@.len() as int) =~= Seq::<u64>::empty());
            assert(bytes@ + packed_enc(ws.skip(val@.len() as int)) =~= bytes@);
        }
        self.write_length_varint(tag, bytes.len());
        self.buf.append(&mut bytes);
    }

    /// Read one length-delimited string at the cursor. The payload must be
    /// valid UTF-8; anything else is an encoding error.
    pub fn read_string(&mut self) -> (r: Result<String, ProtoError>)
        ensures
            final(self).buf@ == old(self).buf@,
            (r is Ok) == (match bytes_read_at(old(self).buf@, old(self).pos as nat) {
                Ok(payload) => valid_utf8(payload),
                Err(_) => false,
            }),
            r matches Ok(s) ==> {
                &&& bytes_read_at(old(self).buf@, old(self).pos as nat)
                    == Ok::<Seq<u8>, ProtoError>(encode_utf8(s@))
                &&& s@ == decode_utf8(bytes_read_at(old(self).buf@, old(self).pos as nat).unwrap())
                &&& final(self).pos == old(self).pos
                    + varint_size_at(old(self).buf@, old(self).pos as nat)
                    + varint_value_at(old(self).buf@, old(self).pos as nat)
            },
            r matches Err(e) ==> match bytes_read_at(old(self).buf@, old(self).pos as nat) {
                Ok(payload) => !valid_utf8(payload) && e == ProtoError::Encoding,
                Err(e2) => e == e2,
            },
            final(self).pos >= old(self).pos,
    {
        let v = match self.read_bytes() {
            Ok(v) => v,
            Err(e) => {
                return Err(e);
            },
        };
        let ghost payload = v@;
        match bytes_to_string(v) {
            Option::Some(s) => {
                proof {
                    vstd::utf8::encode_utf8_decode_utf8(s@);
                    assert(decode_utf8(payload) == s@);
                }
                Ok(s)
            },
            Option::None => Err(ProtoError::Encoding),
        }
    }

    /// Append the byte length of a string as a varint, then its UTF-8
    /// bytes, with no field key: the bare length-delimited payload.
    pub fn write_string(&mut self, val: &str)
        ensures
            final(self).buf@ == old(self).buf@ + varint_enc(encode_utf8(val@).len() as u64)
                + encode_utf8(val@),
            encode_utf8(val@).len() <= usize::MAX,
            final(self).pos == old(self).pos,
    {
        let bs = val.as_bytes();
        let l = bs.len();
        self.write_varint(l as u64);
        self.buf.extend_from_slice(bs);
    }

    /// Append one string field: key, byte length, UTF-8 bytes.
    pub fn write_string_field(&mut self, tag: u64, val: &str)
        requires
            tag <= MAX_TAG,
        ensures
            final(self).buf@ == old(self).buf@ + varint_enc(key_val(tag, 2))
                + varint_enc(encode_utf8(val@).len() as u64) + encode_utf8(val@),
            encode_utf8(val@).len() <= usize::MAX,
            final(self).pos == old(self).pos,
    {
        let bs = val.as_bytes();
        let l = bs.len();
        self.write_length_varint(tag, l);
        self.buf.extend_from_slice(bs);
    }

    /// Append one byte-blob field: key, byte length, the bytes themselves.
    pub fn write_bytes_field(&mut self, tag: u64, val: &[u8])
        requires
            tag <= MAX_TAG,
        ensures
            final(self).buf@ == old(self).buf@ + varint_enc(key_val(tag, 2))
                + varint_enc(val@.len() as u64) + val@,
            final(self).pos == old(self).pos,
    {
        let l = val.len();
        self.write_length_varint(tag, l);
        self.buf.extend_from_slice(val);
    }

    /// Read fields into `t` until the cursor reaches `end` (or the end of
    /// the buffer when `end` is `None`): decode a key, offer the tag to
    /// `t`, and skip the value by wire type whenever `t` declines it. A
    /// reader ignorant of a tag therefore never corrupts the fields after
    /// it: over a well-formed field sequence, a reader that recognizes
    /// none of its tags is proven to land exactly on `end`, every value
    /// skipped. Landing strictly past `end` is a misalignment error.
    pub fn read_fields<T: ProtoRead>(&mut self, t: &mut T, end: Option<usize>) -> (r: Result<
        (),
        ProtoError,
    >)
        ensures
            final(self).buf@ == old(self).buf@,
            final(self).pos >= old(self).pos,
            r is Ok ==> final(self).pos == read_extent(end, old(self).buf@),
            old(self).pos == read_extent(end, old(self).buf@) ==> r is Ok
                && final(self).pos == old(self).pos,
            old(self).pos > read_extent(end, old(self).buf@)
                ==> r == Result::<(), ProtoError>::Err(ProtoError::Misalignment)
                    && final(self).pos == old(self).pos,
            old(self).pos < read_extent(end, old(self).buf@)
                && !varint_ok_at(old(self).buf@, old(self).pos as nat)
                ==> r == Result::<(), ProtoError>::Err(ProtoError::Bounds)
                    && final(self).pos == old(self).pos,
            old(self).pos < read_extent(end, old(self).buf@)
                && varint_ok_at(old(self).buf@, old(self).pos as nat)
                && !Type::code_valid(varint_value_at(old(self).buf@, old(self).pos as nat) % 8)
                ==> r == Result::<(), ProtoError>::Err(ProtoError::Format),
            fields_wf(old(self).buf@, old(self).pos as nat, read_extent(end, old(self).buf@))
                && (forall|g: u64| !T::recognizes(g)) ==> r is Ok
                && final(self).pos == read_extent(end, old(self).buf@),
    {
        let stop = match end {
            Some(e) => e,
            None => self.buf.len(),
        };
        while self.pos < stop
            invariant
                self.buf@ == old(self).buf@,
                self.pos >= old(self).pos,
                stop as nat == read_extent(end, old(self).buf@),
                old(self).pos >= stop ==> self.pos == old(self).pos,
                self.pos > old(self).pos ==> {
                    &&& old(self).pos < stop
                    &&& varint_ok_at(old(self).buf@, old(self).pos as nat)
                    &&& Type::code_valid(varint_value_at(old(self).buf@, old(self).pos as nat)
                        % 8)
                },
                fields_wf(old(self).buf@, old(self).pos as nat, stop as nat) && (forall|g: u64|
                    !T::recognizes(g)) ==> fields_wf(
                    old(self).buf@,
                    self.pos as nat,
                    stop as nat,
                ),
            decreases crate::wire::span(self.pos as nat, stop as nat),
        {
            let ghost b0 = self.buf@;
            let ghost pos0 = self.pos as nat;
            let ghost wf_run = fields_wf(old(self).buf@, old(self).pos as nat, stop as nat)
                && (forall|g: u64| !T::recognizes(g));
            proof {
                if wf_run {
                    assert(fields_wf(b0, pos0, stop as nat));
                }
            }
            let field = match self.read_field() {
                Ok(f) => f,
                Err(e) => {
                    proof {
                        if wf_run {
                            assert(varint_ok_at(b0, pos0)
                                && Type::code_valid(varint_value_at(b0, pos0) % 8));
                            assert(false);
                        }
                    }
                    return Err(e);
                },
            };
            let start_pos = self.pos;
            match t.read(field.tag, self) {
                Ok(_) => (),
                Err(e) => {
                    proof {
                        if wf_run {
                            assert(!T::recognizes(field.tag));
                            assert(false);
                        }
                    }
                    return Err(e);
                },
            };
            if start_pos == self.pos {
                match self.skip(field.wire_type) {
                    Ok(_) => (),
                    Err(e) => {
                        proof {
                            if wf_run {
                                assert(skip_result(b0, start_pos as nat, field.wire_type) is Ok);
                                assert(false);
                            }
                        }
                        return Err(e);
                    },
                };
            }
            proof {
                if wf_run {
                    assert(!T::recognizes(field.tag));
                    assert(skip_result(b0, start_pos as nat, field.wire_type) matches Ok(p2)
                        ==> self.pos == p2 && fields_wf(b0, p2, stop as nat));
                }
            }
        }
        if self.pos == stop {
            Ok(())
        } else {
            Err(ProtoError::Misalignment)
        }
    }

    /// Read one nested message at the cursor: a varint byte length, then
    /// exactly that many bytes of fields, read into `t`. The end offset
    /// comes from the length prefix alone, so the nested fields can never
    /// overrun into the enclosing message's bytes.
    pub fn read_message<T: ProtoRead>(&mut self, t: &mut T) -> (r: Result<(), ProtoError>)
        ensures
            final(self).buf@ == old(self).buf@,
            final(self).pos >= old(self).pos,
            !varint_ok_at(old(self).buf@, old(self).pos as nat)
                ==> r == Result::<(), ProtoError>::Err(ProtoError::Bounds),
            varint_ok_at(old(self).buf@, old(self).pos as nat)
                && old(self).pos + varint_size_at(old(self).buf@, old(self).pos as nat)
                    + varint_value_at(old(self).buf@, old(self).pos as nat)
                    > old(self).buf@.len()
                ==> r == Result::<(), ProtoError>::Err(ProtoError::Bounds),
            r is Ok ==> {
                &&& varint_ok_at(old(self).buf@, old(self).pos as nat)
                &&& final(self).pos == old(self).pos
                    + varint_size_at(old(self).buf@, old(self).pos as nat)
                    + varint_value_at(old(self).buf@, old(self).pos as nat)
                &&& final(self).pos <= final(self).buf@.len()
            },
            varint_ok_at(old(self).buf@, old(self).pos as nat)
                && varint_value_at(old(self).buf@, old(self).pos as nat) == 0 ==> r is Ok
                && final(self).pos == old(self).pos
                    + varint_size_at(old(self).buf@, old(self).pos as nat),
            varint_ok_at(old(self).buf@, old(self).pos as nat)
                && old(self).pos + varint_size_at(old(self).buf@, old(self).pos as nat)
                    + varint_value_at(old(self).buf@, old(self).pos as nat)
                    <= old(self).buf@.len()
                && fields_wf(
                old(self).buf@,
                (old(self).pos + varint_size_at(old(self).buf@, old(self).pos as nat)) as nat,
                (old(self).pos + varint_size_at(old(self).buf@, old(self).pos as nat)
                    + varint_value_at(old(self).buf@, old(self).pos as nat)) as nat,
            ) && (forall|g: u64| !T::recognizes(g)) ==> r is Ok
                && final(self).pos == old(self).pos
                    + varint_size_at(old(self).buf@, old(self).pos as nat)
                    + varint_value_at(old(self).buf@, old(self).pos as nat),
    {
        let n = match self.decode_varint() {
            Ok(v) => v,
            Err(e) => {
                return Err(e);
            },
        };
        let rem = self.buf.len() - self.pos;
        if n > rem as u64 {
            return Err(ProtoError::Bounds);
        }
        let end = self.pos + (n as usize);
        self.read_fields(t, Some(end))
    }

    /// Append one nested-message field: encode `t` into a transient child
    /// session, then append a key, the child's byte length, and its bytes.
    pub fn write_message<T: ProtoWrite>(&mut self, tag: u64, t: &T)
        requires
            tag <= MAX_TAG,
        ensures
            final(self).buf@ == old(self).buf@ + varint_enc(key_val(tag, 2))
                + varint_enc(t.wire_bytes().len() as u64) + t.wire_bytes(),
            t.wire_bytes().len() <= usize::MAX,
            final(self).pos == old(self).pos,
    {
        let mut pbf = Protobuf::new();
        t.write(&mut pbf);
        let mut bytes = pbf.take();
        proof {
            assert(bytes@ =~= t.wire_bytes());
        }
        self.write_length_varint(tag, bytes.len());
        self.buf.append(&mut bytes);
    }

    /// Surrender the accumulated byte sequence, leaving the session empty.
    pub fn take(&mut self) -> (r: Vec<u8>)
        ensures
            r@ == old(self).buf@,
            final(self).buf@ == Seq::<u8>::empty(),
            final(self).pos == old(self).pos,
    {
        let mut other: Vec<u8> = Vec::new();
        core::mem::swap(&mut self.buf, &mut other);
        other
    }
}

/// The extent a field-reading loop runs to: the explicit end offset when
/// one is given, the end of the buffer otherwise.
pub open spec fn read_extent(end: Option<usize>, b: Seq<u8>) -> nat {
    match end {
        Some(e) => e as nat,
        None => b.len(),
    }
}

/// True when the bytes of `b` from `p` up to `end` parse as a well-formed
/// field sequence: one decodable key after another, each with a valid
/// wire-type code, each value skippable by that code within `end`, the last
/// landing exactly on `end`.
pub open spec fn fields_wf(b: Seq<u8>, p: nat, end: nat) -> bool
    decreases span(p, end),
{
    if p > end {
        false
    } else if p == end {
        true
    } else if !varint_ok_at(b, p) {
        false
    } else {
        let key = varint_value_at(b, p);
        let sz = varint_size_at(b, p);
        if sz == 0 || !Type::code_valid(key % 8) {
            false
        } else {
            match skip_result(b, (p + sz) as nat, Type::spec_from_code(key % 8)) {
                Ok(p2) => p + sz <= p2 && p2 <= end && fields_wf(b, p2, end),
                Err(_) => false,
            }
        }
    }
}

/// Unpacking a field key recovers the tag and the wire type that were
/// packed into it, for every tag in range and every wire type: the field
/// key round-trip law.
pub proof fn lemma_field_key_roundtrip(tag: u64, t: Type)
    requires
        tag <= MAX_TAG,
    ensures
        Type::code_valid(key_val(tag, t.spec_code()) % 8),
        key_val(tag, t.spec_code()) / 8 == tag,
        Type::spec_from_code(key_val(tag, t.spec_code()) % 8) == t,
{
    crate::wire::lemma_key_roundtrip(tag, t.spec_code());
}

/// Wherever a field key written by `write_field` stands in a buffer,
/// `read_field` at its first byte recovers the tag and the wire type.
pub proof fn lemma_field_roundtrip(prefix: Seq<u8>, tag: u64, t: Type, rest: Seq<u8>)
    requires
        tag <= MAX_TAG,
    ensures
        varint_ok_at(prefix + varint_enc(key_val(tag, t.spec_code())) + rest, prefix.len()),
        varint_value_at(prefix + varint_enc(key_val(tag, t.spec_code())) + rest, prefix.len())
            / 8 == tag,
        Type::code_valid(varint_value_at(
            prefix + varint_enc(key_val(tag, t.spec_code())) + rest,
            prefix.len(),
        ) % 8),
        Type::spec_from_code(varint_value_at(
            prefix + varint_enc(key_val(tag, t.spec_code())) + rest,
            prefix.len(),
        ) % 8) == t,
{
    crate::wire::lemma_varint_at(prefix, key_val(tag, t.spec_code()), rest);
    lemma_field_key_roundtrip(tag, t);
}

/// Reading back the fixed-width bytes of a 32-bit unsigned value
/// reproduces it bit-exactly: the fixed-width round-trip law at width four.
pub proof fn lemma_fixed_roundtrip_u32(x: u32)
    ensures
        u32::of_word(le_word(le_bytes(x.to_word(), u32::spec_width()))) == x,
{
    lemma2_to64();
    crate::wire::lemma_le_roundtrip(x.to_word(), u32::spec_width());
}

/// Reading back the fixed-width bytes of a 32-bit signed value reproduces
/// it bit-exactly, negative values included.
pub proof fn lemma_fixed_roundtrip_i32(x: i32)
    ensures
        i32::of_word(le_word(le_bytes(x.to_word(), i32::spec_width()))) == x,
{
    lemma2_to64();
    crate::wire::lemma_le_roundtrip(x.to_word(), i32::spec_width());
}

/// Reading back the fixed-width bytes of a 64-bit unsigned value
/// reproduces it bit-exactly: the fixed-width round-trip law at width
/// eight. A 64-bit float rides this path as its bit pattern.
pub proof fn lemma_fixed_roundtrip_u64(x: u64)
    ensures
        u64::of_word(le_word(le_bytes(x.to_word(), u64::spec_width()))) == x,
{
    lemma2_to64();
    crate::wire::lemma_le_roundtrip(x.to_word(), u64::spec_width());
}

/// Reading back the fixed-width bytes of a 64-bit signed value reproduces
/// it bit-exactly, negative values included.
pub proof fn lemma_fixed_roundtrip_i64(x: i64)
    ensures
        i64::of_word(le_word(le_bytes(x.to_word(), i64::spec_width()))) == x,
{
    lemma2_to64();
    crate::wire::lemma_le_roundtrip(x.to_word(), i64::spec_width());
}

/// Wherever a string written by `write_string` stands in a buffer, reading
/// the length-delimited payload at its first byte yields valid UTF-8 that
/// decodes to the very same characters: the string round-trip law.
pub proof fn lemma_string_roundtrip(prefix: Seq<u8>, s: Seq<char>, rest: Seq<u8>)
    requires
        encode_utf8(s).len() <= u64::MAX,
    ensures
        bytes_read_at(
            prefix + varint_enc(encode_utf8(s).len() as u64) + encode_utf8(s) + rest,
            prefix.len(),
        ) == Ok::<Seq<u8>, ProtoError>(encode_utf8(s)),
        valid_utf8(encode_utf8(s)),
        decode_utf8(encode_utf8(s)) == s,
{
    crate::wire::lemma_bytes_roundtrip(prefix, encode_utf8(s), rest);
    vstd::utf8::encode_utf8_valid_utf8(s);
    vstd::utf8::encode_utf8_decode_utf8(s);
}

/// Where a skip of one value of wire type `t` at position `p` lands: the
/// new cursor position, or the bounds error that stops it.
pub open spec fn skip_result(b: Seq<u8>, p: nat, t: Type) -> Result<nat, ProtoError> {
    match t {
        Type::Varint => if varint_ok_at(b, p) {
            Ok((p + varint_size_at(b, p)) as nat)
        } else {
            Err(ProtoError::Bounds)
        },
        Type::Fixed64 => if p + 8 <= b.len() {
            Ok((p + 8) as nat)
        } else {
            Err(ProtoError::Bounds)
        },
        Type::Fixed32 => if p + 4 <= b.len() {
            Ok((p + 4) as nat)
        } else {
            Err(ProtoError::Bounds)
        },
        Type::Bytes => if varint_ok_at(b, p) {
            if p + varint_size_at(b, p) + varint_value_at(b, p) <= b.len() {
                Ok((p + varint_size_at(b, p) + varint_value_at(b, p)) as nat)
            } else {
                Err(ProtoError::Bounds)
            }
        } else {
            Err(ProtoError::Bounds)
        },
        Type::Null => Ok(p),
    }
}

/// Map a signed 64-bit value onto an unsigned one so that values of small
/// magnitude, positive or negative, stay small under varint encoding.
pub fn zigzag(val: i64) -> (r: u64)
    ensures
        r == zigzag_spec(val),
{
    if val >= 0 {
        (val as u64) * 2
    } else {
        let m = (-(val as i128)) as u128;
        (2 * m - 1) as u64
    }
}

/// The inverse of `zigzag`: recover the signed value.
pub fn zagzig(val: u64) -> (r: i64)
    ensures
        r == zagzig_spec(val),
{
    if val % 2 == 0 {
        (val / 2) as i64
    } else {
        (-(((val as u128 + 1) / 2) as i128)) as i64
    }
}

} // verus!
