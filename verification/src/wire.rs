//! The binary object format of the wire protocol and of the persisted
//! registry snapshot.
//!
//! Every value is written as a self-delimiting byte string: integers as
//! eight big-endian bytes, characters as four big-endian bytes of their
//! code point, strings and lists length-prefixed. Encoding is a function
//! of the value alone, decoding inverts it exactly, and a decoder
//! consumes at least one byte, so frames of any composition parse
//! unambiguously. The payload may contain any byte value; framing never
//! scans for delimiters.

use vstd::prelude::*;
use vstd::utf8::is_scalar;
use vstd::utf8::char_is_scalar;
use vstd::utf8::char_u32_cast;
use crate::color::Color;
use crate::glob::Glob;
use crate::registry::EntryData;
use crate::registry::EntryRecord;
use crate::registry::TagRecord;
use crate::tag::Tag;

verus! {

/// The eight big-endian bytes of an unsigned 64-bit value.
pub open spec fn enc_u64(v: u64) -> Seq<u8> {
    seq![
        ((v >> 56) & 0xff) as u8,
        ((v >> 48) & 0xff) as u8,
        ((v >> 40) & 0xff) as u8,
        ((v >> 32) & 0xff) as u8,
        ((v >> 24) & 0xff) as u8,
        ((v >> 16) & 0xff) as u8,
        ((v >> 8) & 0xff) as u8,
        (v & 0xff) as u8,
    ]
}

/// The value read back from eight big-endian bytes.
pub open spec fn combine_u64(s: Seq<u8>) -> u64
    recommends
        s.len() == 8,
{
    ((s[0] as u64) << 56) | ((s[1] as u64) << 48) | ((s[2] as u64) << 40) | ((s[3] as u64) << 32)
        | ((s[4] as u64) << 24) | ((s[5] as u64) << 16) | ((s[6] as u64) << 8) | (s[7] as u64)
}

/// Reading an unsigned 64-bit value at `pos`.
pub open spec fn dec_u64(b: Seq<u8>, pos: int) -> Option<(u64, int)> {
    if 0 <= pos && pos + 8 <= b.len() {
        Some((combine_u64(b.subrange(pos, pos + 8)), pos + 8))
    } else {
        None
    }
}

/// Decoding inverts encoding for 64-bit values.
pub proof fn lemma_dec_enc_u64(b: Seq<u8>, pos: int, v: u64)
    requires
        0 <= pos,
        pos + 8 <= b.len(),
        b.subrange(pos, pos + 8) == enc_u64(v),
    ensures
        dec_u64(b, pos) == Some((v, pos + 8)),
{
    let s = b.subrange(pos, pos + 8);
    assert(s[0] == ((v >> 56) & 0xff) as u8);
    assert(s[1] == ((v >> 48) & 0xff) as u8);
    assert(s[2] == ((v >> 40) & 0xff) as u8);
    assert(s[3] == ((v >> 32) & 0xff) as u8);
    assert(s[4] == ((v >> 24) & 0xff) as u8);
    assert(s[5] == ((v >> 16) & 0xff) as u8);
    assert(s[6] == ((v >> 8) & 0xff) as u8);
    assert(s[7] == (v & 0xff) as u8);
    assert((((((v >> 56) & 0xff) as u8) as u64) << 56) | (((((v >> 48) & 0xff) as u8) as u64)
        << 48) | (((((v >> 40) & 0xff) as u8) as u64) << 40) | (((((v >> 32) & 0xff) as u8) as u64)
        << 32) | (((((v >> 24) & 0xff) as u8) as u64) << 24) | (((((v >> 16) & 0xff) as u8) as u64)
        << 16) | (((((v >> 8) & 0xff) as u8) as u64) << 8) | (((v & 0xff) as u8) as u64) == v)
        by (bit_vector);
}

/// Appends the eight big-endian bytes of `v`.
pub fn encode_u64(buf: &mut Vec<u8>, v: u64)
    ensures
        final(buf)@ == old(buf)@ + enc_u64(v),
{
    proof {
        assert((v >> 56) & 0xff < 256 && (v >> 48) & 0xff < 256 && (v >> 40) & 0xff < 256 && (v
            >> 32) & 0xff < 256 && (v >> 24) & 0xff < 256 && (v >> 16) & 0xff < 256 && (v >> 8)
            & 0xff < 256 && v & 0xff < 256) by (bit_vector);
    }
    buf.push(((v >> 56) & 0xff) as u8);
    buf.push(((v >> 48) & 0xff) as u8);
    buf.push(((v >> 40) & 0xff) as u8);
    buf.push(((v >> 32) & 0xff) as u8);
    buf.push(((v >> 24) & 0xff) as u8);
    buf.push(((v >> 16) & 0xff) as u8);
    buf.push(((v >> 8) & 0xff) as u8);
    buf.push((v & 0xff) as u8);
    proof {
        assert(buf@ =~= old(buf)@ + enc_u64(v));
    }
}

/// Reads the eight big-endian bytes at `pos`.
pub fn decode_u64(b: &Vec<u8>, pos: usize) -> (r: Option<(u64, usize)>)
    ensures
        match r {
            Some((v, end)) => dec_u64(b@, pos as int) == Some((v, end as int)) && pos < end
                <= b@.len(),
            None => dec_u64(b@, pos as int) is None,
        },
{
    if pos >= b.len() || b.len() - pos < 8 {
        return None;
    }
    let v = ((b[pos] as u64) << 56) | ((b[pos + 1] as u64) << 48) | ((b[pos + 2] as u64) << 40) | (
    (b[pos + 3] as u64) << 32) | ((b[pos + 4] as u64) << 24) | ((b[pos + 5] as u64) << 16) | ((b[pos
        + 6] as u64) << 8) | (b[pos + 7] as u64);
    proof {
        let s = b@.subrange(pos as int, pos as int + 8);
        assert(s[0] == b@[pos as int] && s[1] == b@[pos as int + 1] && s[2] == b@[pos as int + 2]
            && s[3] == b@[pos as int + 3] && s[4] == b@[pos as int + 4] && s[5] == b@[pos as int + 5]
            && s[6] == b@[pos as int + 6] && s[7] == b@[pos as int + 7]);
    }
    Some((v, pos + 8))
}

/// The four big-endian bytes of an unsigned 32-bit value.
pub open spec fn enc_u32(v: u32) -> Seq<u8> {
    seq![
        ((v >> 24) & 0xff) as u8,
        ((v >> 16) & 0xff) as u8,
        ((v >> 8) & 0xff) as u8,
        (v & 0xff) as u8,
    ]
}

/// The value read back from four big-endian bytes.
pub open spec fn combine_u32(s: Seq<u8>) -> u32
    recommends
        s.len() == 4,
{
    ((s[0] as u32) << 24) | ((s[1] as u32) << 16) | ((s[2] as u32) << 8) | (s[3] as u32)
}

/// Reading an unsigned 32-bit value at `pos`.
pub open spec fn dec_u32(b: Seq<u8>, pos: int) -> Option<(u32, int)> {
    if 0 <= pos && pos + 4 <= b.len() {
        Some((combine_u32(b.subrange(pos, pos + 4)), pos + 4))
    } else {
        None
    }
}

/// Decoding inverts encoding for 32-bit values.
pub proof fn lemma_dec_enc_u32(b: Seq<u8>, pos: int, v: u32)
    requires
        0 <= pos,
        pos + 4 <= b.len(),
        b.subrange(pos, pos + 4) == enc_u32(v),
    ensures
        dec_u32(b, pos) == Some((v, pos + 4)),
{
    let s = b.subrange(pos, pos + 4);
    assert(s[0] == ((v >> 24) & 0xff) as u8);
    assert(s[1] == ((v >> 16) & 0xff) as u8);
    assert(s[2] == ((v >> 8) & 0xff) as u8);
    assert(s[3] == (v & 0xff) as u8);
    assert((((((v >> 24) & 0xff) as u8) as u32) << 24) | (((((v >> 16) & 0xff) as u8) as u32)
        << 16) | (((((v >> 8) & 0xff) as u8) as u32) << 8) | (((v & 0xff) as u8) as u32) == v)
        by (bit_vector);
}

/// Appends the four big-endian bytes of `v`.
pub fn encode_u32(buf: &mut Vec<u8>, v: u32)
    ensures
        final(buf)@ == old(buf)@ + enc_u32(v),
{
    proof {
        assert((v >> 24) & 0xff < 256 && (v >> 16) & 0xff < 256 && (v >> 8) & 0xff < 256 && v & 0xff
            < 256) by (bit_vector);
    }
    buf.push(((v >> 24) & 0xff) as u8);
    buf.push(((v >> 16) & 0xff) as u8);
    buf.push(((v >> 8) & 0xff) as u8);
    buf.push((v & 0xff) as u8);
    proof {
        assert(buf@ =~= old(buf)@ + enc_u32(v));
    }
}

/// Reads the four big-endian bytes at `pos`.
pub fn decode_u32(b: &Vec<u8>, pos: usize) -> (r: Option<(u32, usize)>)
    ensures
        match r {
            Some((v, end)) => dec_u32(b@, pos as int) == Some((v, end as int)) && pos < end
                <= b@.len(),
            None => dec_u32(b@, pos as int) is None,
        },
{
    if pos >= b.len() || b.len() - pos < 4 {
        return None;
    }
    let v = ((b[pos] as u32) << 24) | ((b[pos + 1] as u32) << 16) | ((b[pos + 2] as u32) << 8) | (
    b[pos + 3] as u32);
    proof {
        let s = b@.subrange(pos as int, pos as int + 4);
        assert(s[0] == b@[pos as int] && s[1] == b@[pos as int + 1] && s[2] == b@[pos as int + 2]
            && s[3] == b@[pos as int + 3]);
    }
    Some((v, pos + 4))
}

/// A value that travels over the wire: its abstract form, the bytes of
/// that form, and an exact inverse reader.
pub trait Wire: Sized {
    /// The abstract value the bytes stand for.
    type V;

    /// The abstract value of this datum.
    spec fn wire_view(&self) -> Self::V;

    /// The abstract values that real data can take; only these encode
    /// faithfully (a sequence longer than a length prefix can say, for
    /// one, cannot).
    spec fn wf_v(v: Self::V) -> bool;

    /// The bytes of an abstract value.
    spec fn enc(v: Self::V) -> Seq<u8>;

    /// Reading one abstract value at `pos`.
    spec fn dec(b: Seq<u8>, pos: int) -> Option<(Self::V, int)>;

    /// Reading inverts writing wherever the bytes of `v` sit.
    proof fn lemma_dec_enc(b: Seq<u8>, pos: int, v: Self::V)
        requires
            Self::wf_v(v),
            0 <= pos,
            pos + Self::enc(v).len() <= b.len(),
            b.subrange(pos, pos + Self::enc(v).len() as int) == Self::enc(v),
        ensures
            Self::dec(b, pos) == Some((v, pos + Self::enc(v).len() as int)),
    ;

    /// A successful read sits within the buffer, consumes at least one
    /// byte, and yields a well-formed value.
    proof fn lemma_dec_ok(b: Seq<u8>, pos: int)
        ensures
            Self::dec(b, pos) matches Some((v, end)) ==> pos < end <= b.len() && Self::wf_v(v),
    ;

    /// Appends this datum's bytes.
    fn encode(&self, buf: &mut Vec<u8>)
        ensures
            final(buf)@ == old(buf)@ + Self::enc(self.wire_view()),
            Self::wf_v(self.wire_view()),
    ;

    /// Reads one datum at `pos`; `None` exactly when the spec-level read
    /// fails.
    fn decode(b: &Vec<u8>, pos: usize) -> (r: Option<(Self, usize)>)
        ensures
            match r {
                Some((v, end)) => Self::dec(b@, pos as int) == Some((v.wire_view(), end as int))
                    && pos < end <= b@.len(),
                None => Self::dec(b@, pos as int) is None,
            },
    ;
}

impl Wire for u64 {
    type V = u64;

    open spec fn wire_view(&self) -> u64 {
        *self
    }

    open spec fn wf_v(v: u64) -> bool {
        true
    }

    open spec fn enc(v: u64) -> Seq<u8> {
        enc_u64(v)
    }

    open spec fn dec(b: Seq<u8>, pos: int) -> Option<(u64, int)> {
        dec_u64(b, pos)
    }

    proof fn lemma_dec_enc(b: Seq<u8>, pos: int, v: u64) {
        lemma_dec_enc_u64(b, pos, v);
    }

    proof fn lemma_dec_ok(b: Seq<u8>, pos: int) {
    }

    fn encode(&self, buf: &mut Vec<u8>) {
        encode_u64(buf, *self);
    }

    fn decode(b: &Vec<u8>, pos: usize) -> (r: Option<(u64, usize)>) {
        decode_u64(b, pos)
    }
}

impl Wire for bool {
    type V = bool;

    open spec fn wire_view(&self) -> bool {
        *self
    }

    open spec fn wf_v(v: bool) -> bool {
        true
    }

    open spec fn enc(v: bool) -> Seq<u8> {
        if v {
            seq![1u8]
        } else {
            seq![0u8]
        }
    }

    open spec fn dec(b: Seq<u8>, pos: int) -> Option<(bool, int)> {
        if 0 <= pos < b.len() {
            if b[pos] == 1u8 {
                Some((true, pos + 1))
            } else if b[pos] == 0u8 {
                Some((false, pos + 1))
            } else {
                None
            }
        } else {
            None
        }
    }

    proof fn lemma_dec_enc(b: Seq<u8>, pos: int, v: bool) {
        assert(b.subrange(pos, pos + 1)[0] == b[pos]);
    }

    proof fn lemma_dec_ok(b: Seq<u8>, pos: int) {
    }

    fn encode(&self, buf: &mut Vec<u8>) {
        buf.push(if *self {
            1u8
        } else {
            0u8
        });
        proof {
            assert(buf@ =~= old(buf)@ + Self::enc(*self));
        }
    }

    fn decode(b: &Vec<u8>, pos: usize) -> (r: Option<(bool, usize)>) {
        if pos < b.len() {
            let byte = b[pos];
            if byte == 1 {
                Some((true, pos + 1))
            } else if byte == 0 {
                Some((false, pos + 1))
            } else {
                None
            }
        } else {
            None
        }
    }
}

impl Wire for char {
    type V = char;

    open spec fn wire_view(&self) -> char {
        *self
    }

    open spec fn wf_v(v: char) -> bool {
        true
    }

    open spec fn enc(v: char) -> Seq<u8> {
        enc_u32(v as u32)
    }

    open spec fn dec(b: Seq<u8>, pos: int) -> Option<(char, int)> {
        match dec_u32(b, pos) {
            Some((u, end)) => if is_scalar(u) {
                Some((u as char, end))
            } else {
                None
            },
            None => None,
        }
    }

    proof fn lemma_dec_enc(b: Seq<u8>, pos: int, v: char) {
        char_is_scalar(v);
        lemma_dec_enc_u32(b, pos, v as u32);
        char_u32_cast(v, v as u32);
    }

    proof fn lemma_dec_ok(b: Seq<u8>, pos: int) {
    }

    fn encode(&self, buf: &mut Vec<u8>) {
        encode_u32(buf, *self as u32);
    }

    fn decode(b: &Vec<u8>, pos: usize) -> (r: Option<(char, usize)>) {
        match decode_u32(b, pos) {
            Some((u, end)) => match char::from_u32(u) {
                Some(c) => {
                    proof {
                        char_u32_cast(c, u);
                    }
                    Some((c, end))
                },
                None => None,
            },
            None => None,
        }
    }
}

/// The bytes of a character sequence, four per character.
pub open spec fn enc_chars(v: Seq<char>) -> Seq<u8>
    decreases v.len(),
{
    if v.len() == 0 {
        Seq::empty()
    } else {
        enc_u32(v[0] as u32) + enc_chars(v.drop_first())
    }
}

/// Reading `n` characters at `pos`.
pub open spec fn dec_chars(b: Seq<u8>, pos: int, n: int) -> Option<(Seq<char>, int)>
    decreases n,
{
    if n <= 0 {
        Some((Seq::empty(), pos))
    } else {
        match <char as Wire>::dec(b, pos) {
            Some((c, p)) => match dec_chars(b, p, n - 1) {
                Some((rest, e)) => Some((seq![c] + rest, e)),
                None => None,
            },
            None => None,
        }
    }
}

/// Four bytes per character.
pub proof fn lemma_enc_chars_len(v: Seq<char>)
    ensures
        enc_chars(v).len() == 4 * v.len(),
    decreases v.len(),
{
    if v.len() > 0 {
        lemma_enc_chars_len(v.drop_first());
    }
}

/// Reading inverts writing for character sequences.
pub proof fn lemma_dec_enc_chars(b: Seq<u8>, pos: int, v: Seq<char>)
    requires
        0 <= pos,
        pos + enc_chars(v).len() <= b.len(),
        b.subrange(pos, pos + enc_chars(v).len() as int) == enc_chars(v),
    ensures
        dec_chars(b, pos, v.len() as int) == Some((v, pos + enc_chars(v).len() as int)),
    decreases v.len(),
{
    if v.len() == 0 {
    } else {
        let e0 = enc_u32(v[0] as u32);
        let rest = enc_chars(v.drop_first());
        lemma_enc_chars_len(v);
        lemma_enc_chars_len(v.drop_first());
        assert(b.subrange(pos, pos + 4) =~= e0) by {
            assert forall|k: int| 0 <= k < 4 implies b.subrange(pos, pos + 4)[k] == e0[k] by {
                assert(b.subrange(pos, pos + enc_chars(v).len() as int)[k] == enc_chars(v)[k]);
                assert(enc_chars(v)[k] == e0[k]);
            }
        }
        char_is_scalar(v[0]);
        lemma_dec_enc_u32(b, pos, v[0] as u32);
        char_u32_cast(v[0], v[0] as u32);
        assert(b.subrange(pos + 4, pos + 4 + rest.len() as int) =~= rest) by {
            assert forall|k: int|
                0 <= k < rest.len() implies b.subrange(pos + 4, pos + 4 + rest.len() as int)[k]
                == rest[k] by {
                assert(b.subrange(pos, pos + enc_chars(v).len() as int)[k + 4] == enc_chars(
                    v,
                )[k + 4]);
                assert(enc_chars(v)[k + 4] == rest[k]);
            }
        }
        lemma_dec_enc_chars(b, pos + 4, v.drop_first());
        assert(seq![v[0]] + v.drop_first() =~= v);
    }
}

/// Reading `n` characters needs at least `n` bytes.
proof fn lemma_dec_chars_needs(b: Seq<u8>, pos: int, n: int)
    requires
        n > 0,
        n > b.len() - pos,
    ensures
        dec_chars(b, pos, n) is None,
    decreases n,
{
    if n > 0 {
        match <char as Wire>::dec(b, pos) {
            Some((c, p)) => {
                assert(p == pos + 4);
                assert(0 <= pos && pos + 4 <= b.len());
                lemma_dec_chars_needs(b, p, n - 1);
            },
            None => {},
        }
    }
}

/// A successful character read ends within the buffer, not before `pos`,
/// with as many characters as asked.
proof fn lemma_dec_chars_ok(b: Seq<u8>, pos: int, n: int)
    requires
        0 <= pos <= b.len(),
    ensures
        dec_chars(b, pos, n) matches Some((v, e)) ==> pos <= e <= b.len() && v.len() <= (if n >= 0 {
            n
        } else {
            0
        }),
    decreases n,
{
    if n > 0 {
        match <char as Wire>::dec(b, pos) {
            Some((c, p)) => {
                lemma_dec_chars_ok(b, p, n - 1);
            },
            None => {},
        }
    }
}

impl Wire for String {
    type V = Seq<char>;

    open spec fn wire_view(&self) -> Seq<char> {
        self@
    }

    open spec fn wf_v(v: Seq<char>) -> bool {
        v.len() <= u64::MAX
    }

    open spec fn enc(v: Seq<char>) -> Seq<u8> {
        enc_u64(v.len() as u64) + enc_chars(v)
    }

    open spec fn dec(b: Seq<u8>, pos: int) -> Option<(Seq<char>, int)> {
        match dec_u64(b, pos) {
            Some((n, p)) => dec_chars(b, p, n as int),
            None => None,
        }
    }

    proof fn lemma_dec_enc(b: Seq<u8>, pos: int, v: Seq<char>) {
        let e0 = enc_u64(v.len() as u64);
        let rest = enc_chars(v);
        lemma_enc_chars_len(v);
        assert(b.subrange(pos, pos + 8) =~= e0) by {
            assert forall|k: int| 0 <= k < 8 implies b.subrange(pos, pos + 8)[k] == e0[k] by {
                assert(b.subrange(pos, pos + Self::enc(v).len() as int)[k] == Self::enc(v)[k]);
                assert(Self::enc(v)[k] == e0[k]);
            }
        }
        lemma_dec_enc_u64(b, pos, v.len() as u64);
        assert(b.subrange(pos + 8, pos + 8 + rest.len() as int) =~= rest) by {
            assert forall|k: int|
                0 <= k < rest.len() implies b.subrange(pos + 8, pos + 8 + rest.len() as int)[k]
                == rest[k] by {
                assert(b.subrange(pos, pos + Self::enc(v).len() as int)[k + 8] == Self::enc(
                    v,
                )[k + 8]);
                assert(Self::enc(v)[k + 8] == rest[k]);
            }
        }
        lemma_dec_enc_chars(b, pos + 8, v);
        assert((v.len() as u64) as int == v.len() as int);
    }

    proof fn lemma_dec_ok(b: Seq<u8>, pos: int) {
        match dec_u64(b, pos) {
            Some((n, p)) => {
                lemma_dec_chars_ok(b, p, n as int);
            },
            None => {},
        }
    }

    fn encode(&self, buf: &mut Vec<u8>) {
        let n = self.as_str().unicode_len();
        encode_u64(buf, n as u64);
        let ghost mid = buf@;
        let mut i: usize = 0;
        proof {
            assert(enc_chars(self@.take(0)) =~= Seq::<u8>::empty());
            assert(buf@ =~= mid + enc_chars(self@.take(0)));
        }
        while i < n
            invariant
                n == self@.len(),
                i <= n,
                buf@ == mid + enc_chars(self@.take(i as int)),
            decreases n - i,
        {
            let c = self.as_str().get_char(i);
            encode_u32(buf, c as u32);
            proof {
                lemma_enc_chars_snoc(self@, i as int);
                assert(buf@ =~= mid + enc_chars(self@.take(i as int + 1)));
            }
            i = i + 1;
        }
        proof {
            assert(self@.take(n as int) =~= self@);
            assert((n as u64) as int == n as int);
            assert(buf@ =~= old(buf)@ + Self::enc(self@));
        }
    }

    fn decode(b: &Vec<u8>, pos: usize) -> (r: Option<(String, usize)>) {
        let (n, p0) = match decode_u64(b, pos) {
            Some(x) => x,
            None => {
                return None;
            },
        };
        if n > (b.len() - p0) as u64 {
            proof {
                lemma_dec_chars_needs(b@, p0 as int, n as int);
            }
            return None;
        }
        let count = n as usize;
        let mut out = String::new();
        let mut cur: usize = p0;
        let mut k: usize = 0;
        proof {
            assert(count as int == n as int);
            assert forall|rest: Seq<char>, e: int|
                dec_chars(b@, p0 as int, count as int) == Some::<(Seq<char>, int)>(
                    (rest, e),
                ) implies dec_chars(b@, p0 as int, count as int) == Some::<(Seq<char>, int)>(
                (Seq::<char>::empty() + rest, e),
            ) by {
                assert(Seq::<char>::empty() + rest =~= rest);
            }
        }
        while k < count
            invariant
                k <= count,
                pos <= p0 <= cur <= b@.len(),
                dec_u64(b@, pos as int) == Some::<(u64, int)>((n, p0 as int)),
                count as int == n as int,
                forall|rest: Seq<char>, e: int|
                    dec_chars(b@, cur as int, count - k) == Some::<(Seq<char>, int)>((rest, e))
                        ==> dec_chars(b@, p0 as int, count as int) == Some::<(Seq<char>, int)>(
                        (out@ + rest, e),
                    ),
                dec_chars(b@, p0 as int, count as int) is Some ==> dec_chars(
                    b@,
                    cur as int,
                    count - k,
                ) is Some,
            decreases count - k,
        {
            match <char as Wire>::decode(b, cur) {
                Some((c, next)) => {
                    let ghost pre_out = out@;
                    proof {
                        assert forall|rest: Seq<char>, e: int|
                            dec_chars(b@, next as int, count - k - 1) == Some::<(Seq<char>, int)>(
                                (rest, e),
                            ) implies dec_chars(b@, p0 as int, count as int) == Some::<
                            (Seq<char>, int),
                        >((pre_out.push(c) + rest, e)) by {
                            assert(dec_chars(b@, cur as int, count - k) == Some::<(Seq<char>, int)>(
                                (seq![c] + rest, e),
                            ));
                            assert(pre_out + (seq![c] + rest) =~= pre_out.push(c) + rest);
                        }
                    }
                    out.push(c);
                    cur = next;
                    k = k + 1;
                },
                None => {
                    return None;
                },
            }
        }
        proof {
            assert(dec_chars(b@, cur as int, 0) == Some::<(Seq<char>, int)>((
                Seq::<char>::empty(),
                cur as int,
            )));
            assert(out@ + Seq::<char>::empty() =~= out@);
        }
        Some((out, cur))
    }
}

/// Taking one more character appends its bytes.
pub proof fn lemma_enc_chars_snoc(s: Seq<char>, i: int)
    requires
        0 <= i < s.len(),
    ensures
        enc_chars(s.take(i + 1)) == enc_chars(s.take(i)) + enc_u32(s[i] as u32),
    decreases i,
{
    if i == 0 {
        assert(s.take(1) =~= seq![s[0]]);
        assert(enc_chars(seq![s[0]]) == enc_u32(s[0] as u32) + enc_chars(
            seq![s[0]].drop_first(),
        ));
        assert(seq![s[0]].drop_first() =~= Seq::<char>::empty());
        assert(enc_chars(s.take(0)) =~= Seq::<u8>::empty());
        assert(enc_chars(s.take(0)) + enc_u32(s[0] as u32) =~= enc_u32(s[0] as u32) + Seq::<
            u8,
        >::empty());
    } else {
        let t = s.drop_first();
        assert(s.take(i + 1).drop_first() =~= t.take(i));
        assert(s.take(i).drop_first() =~= t.take(i - 1));
        assert(s.take(i + 1)[0] == s[0]);
        assert(s.take(i)[0] == s[0]);
        lemma_enc_chars_snoc(t, i - 1);
        assert(t[i - 1] == s[i]);
        assert(enc_chars(s.take(i + 1)) == enc_u32(s[0] as u32) + enc_chars(t.take(i)));
        assert(enc_chars(s.take(i)) == enc_u32(s[0] as u32) + enc_chars(t.take(i - 1)));
        assert(enc_u32(s[0] as u32) + (enc_chars(t.take(i - 1)) + enc_u32(s[i] as u32))
            =~= (enc_u32(s[0] as u32) + enc_chars(t.take(i - 1))) + enc_u32(s[i] as u32));
    }
}

/// Splits a buffer window holding two concatenated encodings.
pub proof fn lemma_subrange_split(b: Seq<u8>, pos: int, e0: Seq<u8>, e1: Seq<u8>)
    requires
        0 <= pos,
        pos + e0.len() + e1.len() <= b.len(),
        b.subrange(pos, pos + e0.len() + e1.len()) == e0 + e1,
    ensures
        b.subrange(pos, pos + e0.len() as int) == e0,
        b.subrange(pos + e0.len() as int, pos + e0.len() + e1.len()) == e1,
{
    assert(b.subrange(pos, pos + e0.len() as int) =~= e0) by {
        assert forall|k: int|
            0 <= k < e0.len() implies b.subrange(pos, pos + e0.len() as int)[k] == e0[k] by {
            assert(b.subrange(pos, pos + e0.len() + e1.len())[k] == (e0 + e1)[k]);
        }
    }
    assert(b.subrange(pos + e0.len() as int, pos + e0.len() + e1.len()) =~= e1) by {
        assert forall|k: int|
            0 <= k < e1.len() implies b.subrange(pos + e0.len() as int, pos + e0.len() + e1.len())[k]
            == e1[k] by {
            assert(b.subrange(pos + e0.len() as int, pos + e0.len() + e1.len())[k] == b[pos
                + e0.len() + k]);
            assert(b.subrange(pos, pos + e0.len() + e1.len())[k + e0.len()] == b[pos + e0.len()
                + k]);
            assert((e0 + e1)[k + e0.len()] == e1[k]);
        }
    }
}

/// The bytes of a sequence of abstract values, one after the other.
pub open spec fn enc_items<T: Wire>(v: Seq<T::V>) -> Seq<u8>
    decreases v.len(),
{
    if v.len() == 0 {
        Seq::empty()
    } else {
        T::enc(v[0]) + enc_items::<T>(v.drop_first())
    }
}

/// Reading `n` abstract values at `pos`.
pub open spec fn dec_items<T: Wire>(b: Seq<u8>, pos: int, n: int) -> Option<(Seq<T::V>, int)>
    decreases n,
{
    if n <= 0 {
        Some((Seq::empty(), pos))
    } else {
        match T::dec(b, pos) {
            Some((x, p)) => match dec_items::<T>(b, p, n - 1) {
                Some((rest, e)) => Some((seq![x] + rest, e)),
                None => None,
            },
            None => None,
        }
    }
}

/// Reading inverts writing for item sequences.
pub proof fn lemma_dec_enc_items<T: Wire>(b: Seq<u8>, pos: int, v: Seq<T::V>)
    requires
        0 <= pos,
        forall|i: int| 0 <= i < v.len() ==> T::wf_v(#[trigger] v[i]),
        pos + enc_items::<T>(v).len() <= b.len(),
        b.subrange(pos, pos + enc_items::<T>(v).len() as int) == enc_items::<T>(v),
    ensures
        dec_items::<T>(b, pos, v.len() as int) == Some(
            (v, pos + enc_items::<T>(v).len() as int),
        ),
    decreases v.len(),
{
    if v.len() == 0 {
    } else {
        let e0 = T::enc(v[0]);
        let rest = enc_items::<T>(v.drop_first());
        lemma_subrange_split(b, pos, e0, rest);
        T::lemma_dec_enc(b, pos, v[0]);
        assert forall|i: int|
            0 <= i < v.drop_first().len() implies T::wf_v(#[trigger] v.drop_first()[i]) by {
            assert(v.drop_first()[i] == v[i + 1]);
        }
        lemma_dec_enc_items::<T>(b, pos + e0.len() as int, v.drop_first());
        assert(seq![v[0]] + v.drop_first() =~= v);
    }
}

/// Reading `n` items needs at least `n` bytes.
proof fn lemma_dec_items_needs<T: Wire>(b: Seq<u8>, pos: int, n: int)
    requires
        n > 0,
        n > b.len() - pos,
    ensures
        dec_items::<T>(b, pos, n) is None,
    decreases n,
{
    match T::dec(b, pos) {
        Some((x, p)) => {
            T::lemma_dec_ok(b, pos);
            assert(pos < p <= b.len());
            if n == 1 {
                assert(false);
            } else {
                lemma_dec_items_needs::<T>(b, p, n - 1);
            }
        },
        None => {},
    }
}

/// A successful item read ends within the buffer, not before `pos`, with
/// well-formed items, as many as asked.
proof fn lemma_dec_items_ok<T: Wire>(b: Seq<u8>, pos: int, n: int)
    requires
        0 <= pos <= b.len(),
    ensures
        dec_items::<T>(b, pos, n) matches Some((v, e)) ==> pos <= e <= b.len() && v.len() <= (if n
            >= 0 {
            n
        } else {
            0
        }) && forall|i: int| 0 <= i < v.len() ==> T::wf_v(#[trigger] v[i]),
    decreases n,
{
    if n > 0 {
        match T::dec(b, pos) {
            Some((x, p)) => {
                T::lemma_dec_ok(b, pos);
                lemma_dec_items_ok::<T>(b, p, n - 1);
                match dec_items::<T>(b, p, n - 1) {
                    Some((rest, e)) => {
                        let v = seq![x] + rest;
                        assert forall|i: int| 0 <= i < v.len() implies T::wf_v(
                            #[trigger] v[i],
                        ) by {
                            if i == 0 {
                                assert(v[0] == x);
                            } else {
                                assert(v[i] == rest[i - 1]);
                            }
                        }
                    },
                    None => {},
                }
            },
            None => {},
        }
    }
}

/// Taking one more item appends its bytes.
pub proof fn lemma_enc_items_snoc<T: Wire>(s: Seq<T::V>, i: int)
    requires
        0 <= i < s.len(),
    ensures
        enc_items::<T>(s.take(i + 1)) == enc_items::<T>(s.take(i)) + T::enc(s[i]),
    decreases i,
{
    if i == 0 {
        assert(s.take(1) =~= seq![s[0]]);
        assert(enc_items::<T>(seq![s[0]]) == T::enc(s[0]) + enc_items::<T>(
            seq![s[0]].drop_first(),
        ));
        assert(seq![s[0]].drop_first() =~= Seq::<T::V>::empty());
        assert(enc_items::<T>(s.take(0)) =~= Seq::<u8>::empty());
        assert(enc_items::<T>(s.take(0)) + T::enc(s[0]) =~= T::enc(s[0]) + Seq::<u8>::empty());
    } else {
        let t = s.drop_first();
        assert(s.take(i + 1).drop_first() =~= t.take(i));
        assert(s.take(i).drop_first() =~= t.take(i - 1));
        assert(s.take(i + 1)[0] == s[0]);
        assert(s.take(i)[0] == s[0]);
        lemma_enc_items_snoc::<T>(t, i - 1);
        assert(t[i - 1] == s[i]);
        assert(enc_items::<T>(s.take(i + 1)) == T::enc(s[0]) + enc_items::<T>(t.take(i)));
        assert(enc_items::<T>(s.take(i)) == T::enc(s[0]) + enc_items::<T>(t.take(i - 1)));
        assert(T::enc(s[0]) + (enc_items::<T>(t.take(i - 1)) + T::enc(s[i])) =~= (T::enc(s[0])
            + enc_items::<T>(t.take(i - 1))) + T::enc(s[i]));
    }
}

impl<T: Wire> Wire for Vec<T> {
    type V = Seq<T::V>;

    open spec fn wire_view(&self) -> Seq<T::V> {
        Seq::new(self@.len(), |i: int| self@[i].wire_view())
    }

    open spec fn wf_v(v: Seq<T::V>) -> bool {
        v.len() <= u64::MAX && forall|i: int| 0 <= i < v.len() ==> T::wf_v(#[trigger] v[i])
    }

    open spec fn enc(v: Seq<T::V>) -> Seq<u8> {
        enc_u64(v.len() as u64) + enc_items::<T>(v)
    }

    open spec fn dec(b: Seq<u8>, pos: int) -> Option<(Seq<T::V>, int)> {
        match dec_u64(b, pos) {
            Some((n, p)) => dec_items::<T>(b, p, n as int),
            None => None,
        }
    }

    proof fn lemma_dec_enc(b: Seq<u8>, pos: int, v: Seq<T::V>) {
        let e0 = enc_u64(v.len() as u64);
        let rest = enc_items::<T>(v);
        lemma_subrange_split(b, pos, e0, rest);
        lemma_dec_enc_u64(b, pos, v.len() as u64);
        lemma_dec_enc_items::<T>(b, pos + 8, v);
        assert((v.len() as u64) as int == v.len() as int);
    }

    proof fn lemma_dec_ok(b: Seq<u8>, pos: int) {
        match dec_u64(b, pos) {
            Some((n, p)) => {
                lemma_dec_items_ok::<T>(b, p, n as int);
            },
            None => {},
        }
    }

    fn encode(&self, buf: &mut Vec<u8>) {
        let n = self.len();
        encode_u64(buf, n as u64);
        let ghost mid = buf@;
        let ghost view = self.wire_view();
        let mut i: usize = 0;
        proof {
            assert(enc_items::<T>(view.take(0)) =~= Seq::<u8>::empty());
            assert(buf@ =~= mid + enc_items::<T>(view.take(0)));
        }
        while i < n
            invariant
                n == self@.len(),
                view == self.wire_view(),
                i <= n,
                buf@ == mid + enc_items::<T>(view.take(i as int)),
                forall|j: int| 0 <= j < i ==> T::wf_v(#[trigger] view[j]),
            decreases n - i,
        {
            self[i].encode(buf);
            proof {
                assert(view[i as int] == self@[i as int].wire_view());
                lemma_enc_items_snoc::<T>(view, i as int);
                assert(buf@ =~= mid + enc_items::<T>(view.take(i as int + 1)));
            }
            i = i + 1;
        }
        proof {
            assert(view.take(n as int) =~= view);
            assert((n as u64) as int == n as int);
            assert(buf@ =~= old(buf)@ + Self::enc(view));
            assert(Self::wf_v(view));
        }
    }

    fn decode(b: &Vec<u8>, pos: usize) -> (r: Option<(Vec<T>, usize)>) {
        let (n, p0) = match decode_u64(b, pos) {
            Some(x) => x,
            None => {
                return None;
            },
        };
        if n > (b.len() - p0) as u64 {
            proof {
                lemma_dec_items_needs::<T>(b@, p0 as int, n as int);
            }
            return None;
        }
        let count = n as usize;
        let mut out: Vec<T> = Vec::new();
        let mut cur: usize = p0;
        let mut k: usize = 0;
        proof {
            assert(count as int == n as int);
            assert(out.wire_view() =~= Seq::<T::V>::empty());
            assert forall|rest: Seq<T::V>, e: int|
                dec_items::<T>(b@, p0 as int, count as int) == Some::<(Seq<T::V>, int)>(
                    (rest, e),
                ) implies dec_items::<T>(b@, p0 as int, count as int) == Some::<(Seq<T::V>, int)>(
                (Seq::<T::V>::empty() + rest, e),
            ) by {
                assert(Seq::<T::V>::empty() + rest =~= rest);
            }
        }
        while k < count
            invariant
                k <= count,
                pos <= p0 <= cur <= b@.len(),
                dec_u64(b@, pos as int) == Some::<(u64, int)>((n, p0 as int)),
                count as int == n as int,
                forall|rest: Seq<T::V>, e: int|
                    dec_items::<T>(b@, cur as int, count - k) == Some::<(Seq<T::V>, int)>(
                        (rest, e),
                    ) ==> dec_items::<T>(b@, p0 as int, count as int) == Some::<(Seq<T::V>, int)>(
                        (out.wire_view() + rest, e),
                    ),
                dec_items::<T>(b@, p0 as int, count as int) is Some ==> dec_items::<T>(
                    b@,
                    cur as int,
                    count - k,
                ) is Some,
            decreases count - k,
        {
            match T::decode(b, cur) {
                Some((x, next)) => {
                    let ghost pre_view = out.wire_view();
                    let ghost xv = x.wire_view();
                    proof {
                        assert forall|rest: Seq<T::V>, e: int|
                            dec_items::<T>(b@, next as int, count - k - 1) == Some::<
                            (Seq<T::V>, int),
                        >((rest, e)) implies dec_items::<T>(b@, p0 as int, count as int) == Some::<
                            (Seq<T::V>, int),
                        >((pre_view.push(xv) + rest, e)) by {
                            assert(dec_items::<T>(b@, cur as int, count - k) == Some::<
                                (Seq<T::V>, int),
                            >((seq![xv] + rest, e)));
                            assert(pre_view + (seq![xv] + rest) =~= pre_view.push(xv) + rest);
                        }
                    }
                    out.push(x);
                    cur = next;
                    k = k + 1;
                    proof {
                        assert(out.wire_view() =~= pre_view.push(xv));
                    }
                },
                None => {
                    return None;
                },
            }
        }
        proof {
            assert(dec_items::<T>(b@, cur as int, 0) == Some::<(Seq<T::V>, int)>((
                Seq::<T::V>::empty(),
                cur as int,
            )));
            assert(out.wire_view() + Seq::<T::V>::empty() =~= out.wire_view());
        }
        Some((out, cur))
    }
}

impl<A: Wire, B: Wire> Wire for (A, B) {
    type V = (A::V, B::V);

    open spec fn wire_view(&self) -> (A::V, B::V) {
        (self.0.wire_view(), self.1.wire_view())
    }

    open spec fn wf_v(v: (A::V, B::V)) -> bool {
        A::wf_v(v.0) && B::wf_v(v.1)
    }

    open spec fn enc(v: (A::V, B::V)) -> Seq<u8> {
        A::enc(v.0) + B::enc(v.1)
    }

    open spec fn dec(b: Seq<u8>, pos: int) -> Option<((A::V, B::V), int)> {
        match A::dec(b, pos) {
            Some((x, p)) => match B::dec(b, p) {
                Some((y, e)) => Some(((x, y), e)),
                None => None,
            },
            None => None,
        }
    }

    proof fn lemma_dec_enc(b: Seq<u8>, pos: int, v: (A::V, B::V)) {
        let e0 = A::enc(v.0);
        let e1 = B::enc(v.1);
        lemma_subrange_split(b, pos, e0, e1);
        A::lemma_dec_enc(b, pos, v.0);
        B::lemma_dec_enc(b, pos + e0.len() as int, v.1);
    }

    proof fn lemma_dec_ok(b: Seq<u8>, pos: int) {
        match A::dec(b, pos) {
            Some((x, p)) => {
                A::lemma_dec_ok(b, pos);
                B::lemma_dec_ok(b, p);
            },
            None => {},
        }
    }

    fn encode(&self, buf: &mut Vec<u8>) {
        self.0.encode(buf);
        self.1.encode(buf);
        proof {
            assert(buf@ =~= old(buf)@ + (A::enc(self.0.wire_view()) + B::enc(
                self.1.wire_view(),
            )));
        }
    }

    fn decode(b: &Vec<u8>, pos: usize) -> (r: Option<((A, B), usize)>) {
        match A::decode(b, pos) {
            Some((x, p)) => match B::decode(b, p) {
                Some((y, e)) => Some(((x, y), e)),
                None => None,
            },
            None => None,
        }
    }
}

impl Wire for Color {
    type V = Color;

    open spec fn wire_view(&self) -> Color {
        *self
    }

    open spec fn wf_v(v: Color) -> bool {
        true
    }

    open spec fn enc(v: Color) -> Seq<u8> {
        match v {
            Color::Black => seq![0u8],
            Color::Red => seq![1u8],
            Color::Green => seq![2u8],
            Color::Yellow => seq![3u8],
            Color::Blue => seq![4u8],
            Color::Magenta => seq![5u8],
            Color::Cyan => seq![6u8],
            Color::White => seq![7u8],
            Color::BrightBlack => seq![8u8],
            Color::BrightRed => seq![9u8],
            Color::BrightGreen => seq![10u8],
            Color::BrightYellow => seq![11u8],
            Color::BrightBlue => seq![12u8],
            Color::BrightMagenta => seq![13u8],
            Color::BrightCyan => seq![14u8],
            Color::BrightWhite => seq![15u8],
            Color::TrueColor { r, g, b } => seq![16u8, r, g, b],
        }
    }

    open spec fn dec(bytes: Seq<u8>, pos: int) -> Option<(Color, int)> {
        if 0 <= pos < bytes.len() {
            let t = bytes[pos];
            if t == 16 {
                if pos + 4 <= bytes.len() {
                    Some(
                        (
                            Color::TrueColor {
                                r: bytes[pos + 1],
                                g: bytes[pos + 2],
                                b: bytes[pos + 3],
                            },
                            pos + 4,
                        ),
                    )
                } else {
                    None
                }
            } else if t == 0 {
                Some((Color::Black, pos + 1))
            } else if t == 1 {
                Some((Color::Red, pos + 1))
            } else if t == 2 {
                Some((Color::Green, pos + 1))
            } else if t == 3 {
                Some((Color::Yellow, pos + 1))
            } else if t == 4 {
                Some((Color::Blue, pos + 1))
            } else if t == 5 {
                Some((Color::Magenta, pos + 1))
            } else if t == 6 {
                Some((Color::Cyan, pos + 1))
            } else if t == 7 {
                Some((Color::White, pos + 1))
            } else if t == 8 {
                Some((Color::BrightBlack, pos + 1))
            } else if t == 9 {
                Some((Color::BrightRed, pos + 1))
            } else if t == 10 {
                Some((Color::BrightGreen, pos + 1))
            } else if t == 11 {
                Some((Color::BrightYellow, pos + 1))
            } else if t == 12 {
                Some((Color::BrightBlue, pos + 1))
            } else if t == 13 {
                Some((Color::BrightMagenta, pos + 1))
            } else if t == 14 {
                Some((Color::BrightCyan, pos + 1))
            } else if t == 15 {
                Some((Color::BrightWhite, pos + 1))
            } else {
                None
            }
        } else {
            None
        }
    }

    proof fn lemma_dec_enc(bytes: Seq<u8>, pos: int, v: Color) {
        let e = Self::enc(v);
        assert(bytes.subrange(pos, pos + e.len() as int)[0] == bytes[pos]);
        match v {
            Color::TrueColor { r, g, b } => {
                assert(bytes.subrange(pos, pos + 4)[1] == bytes[pos + 1]);
                assert(bytes.subrange(pos, pos + 4)[2] == bytes[pos + 2]);
                assert(bytes.subrange(pos, pos + 4)[3] == bytes[pos + 3]);
            },
            _ => {},
        }
    }

    proof fn lemma_dec_ok(bytes: Seq<u8>, pos: int) {
    }

    fn encode(&self, buf: &mut Vec<u8>) {
        match self {
            Color::Black => buf.push(0u8),
            Color::Red => buf.push(1u8),
            Color::Green => buf.push(2u8),
            Color::Yellow => buf.push(3u8),
            Color::Blue => buf.push(4u8),
            Color::Magenta => buf.push(5u8),
            Color::Cyan => buf.push(6u8),
            Color::White => buf.push(7u8),
            Color::BrightBlack => buf.push(8u8),
            Color::BrightRed => buf.push(9u8),
            Color::BrightGreen => buf.push(10u8),
            Color::BrightYellow => buf.push(11u8),
            Color::BrightBlue => buf.push(12u8),
            Color::BrightMagenta => buf.push(13u8),
            Color::BrightCyan => buf.push(14u8),
            Color::BrightWhite => buf.push(15u8),
            Color::TrueColor { r, g, b } => {
                buf.push(16u8);
                buf.push(*r);
                buf.push(*g);
                buf.push(*b);
            },
        }
        proof {
            assert(buf@ =~= old(buf)@ + Self::enc(*self));
        }
    }

    fn decode(bytes: &Vec<u8>, pos: usize) -> (r: Option<(Color, usize)>) {
        if pos >= bytes.len() {
            return None;
        }
        let t = bytes[pos];
        if t == 16 {
            if bytes.len() - pos >= 4 {
                Some(
                    (
                        Color::TrueColor {
                            r: bytes[pos + 1],
                            g: bytes[pos + 2],
                            b: bytes[pos + 3],
                        },
                        pos + 4,
                    ),
                )
            } else {
                None
            }
        } else if t == 0 {
            Some((Color::Black, pos + 1))
        } else if t == 1 {
            Some((Color::Red, pos + 1))
        } else if t == 2 {
            Some((Color::Green, pos + 1))
        } else if t == 3 {
            Some((Color::Yellow, pos + 1))
        } else if t == 4 {
            Some((Color::Blue, pos + 1))
        } else if t == 5 {
            Some((Color::Magenta, pos + 1))
        } else if t == 6 {
            Some((Color::Cyan, pos + 1))
        } else if t == 7 {
            Some((Color::White, pos + 1))
        } else if t == 8 {
            Some((Color::BrightBlack, pos + 1))
        } else if t == 9 {
            Some((Color::BrightRed, pos + 1))
        } else if t == 10 {
            Some((Color::BrightGreen, pos + 1))
        } else if t == 11 {
            Some((Color::BrightYellow, pos + 1))
        } else if t == 12 {
            Some((Color::BrightBlue, pos + 1))
        } else if t == 13 {
            Some((Color::BrightMagenta, pos + 1))
        } else if t == 14 {
            Some((Color::BrightCyan, pos + 1))
        } else if t == 15 {
            Some((Color::BrightWhite, pos + 1))
        } else {
            None
        }
    }
}

impl Wire for Tag {
    type V = (Seq<char>, Color);

    open spec fn wire_view(&self) -> (Seq<char>, Color) {
        (self.name@, self.color)
    }

    open spec fn wf_v(v: (Seq<char>, Color)) -> bool {
        v.0.len() <= u64::MAX
    }

    open spec fn enc(v: (Seq<char>, Color)) -> Seq<u8> {
        <String as Wire>::enc(v.0) + <Color as Wire>::enc(v.1)
    }

    open spec fn dec(b: Seq<u8>, pos: int) -> Option<((Seq<char>, Color), int)> {
        match <String as Wire>::dec(b, pos) {
            Some((name, p)) => match <Color as Wire>::dec(b, p) {
                Some((color, e)) => Some(((name, color), e)),
                None => None,
            },
            None => None,
        }
    }

    proof fn lemma_dec_enc(b: Seq<u8>, pos: int, v: (Seq<char>, Color)) {
        let e0 = <String as Wire>::enc(v.0);
        let e1 = <Color as Wire>::enc(v.1);
        lemma_subrange_split(b, pos, e0, e1);
        <String as Wire>::lemma_dec_enc(b, pos, v.0);
        <Color as Wire>::lemma_dec_enc(b, pos + e0.len() as int, v.1);
    }

    proof fn lemma_dec_ok(b: Seq<u8>, pos: int) {
        match <String as Wire>::dec(b, pos) {
            Some((name, p)) => {
                <String as Wire>::lemma_dec_ok(b, pos);
                <Color as Wire>::lemma_dec_ok(b, p);
            },
            None => {},
        }
    }

    fn encode(&self, buf: &mut Vec<u8>) {
        self.name.encode(buf);
        self.color.encode(buf);
        proof {
            assert(buf@ =~= old(buf)@ + Self::enc(self.wire_view()));
        }
    }

    fn decode(b: &Vec<u8>, pos: usize) -> (r: Option<(Tag, usize)>) {
        match <String as Wire>::decode(b, pos) {
            Some((name, p)) => match <Color as Wire>::decode(b, p) {
                Some((color, e)) => Some((Tag { name, color }, e)),
                None => None,
            },
            None => None,
        }
    }
}

impl Wire for EntryData {
    type V = Seq<char>;

    open spec fn wire_view(&self) -> Seq<char> {
        self.path@
    }

    open spec fn wf_v(v: Seq<char>) -> bool {
        v.len() <= u64::MAX
    }

    open spec fn enc(v: Seq<char>) -> Seq<u8> {
        <String as Wire>::enc(v)
    }

    open spec fn dec(b: Seq<u8>, pos: int) -> Option<(Seq<char>, int)> {
        <String as Wire>::dec(b, pos)
    }

    proof fn lemma_dec_enc(b: Seq<u8>, pos: int, v: Seq<char>) {
        <String as Wire>::lemma_dec_enc(b, pos, v);
    }

    proof fn lemma_dec_ok(b: Seq<u8>, pos: int) {
        <String as Wire>::lemma_dec_ok(b, pos);
    }

    fn encode(&self, buf: &mut Vec<u8>) {
        self.path.encode(buf);
    }

    fn decode(b: &Vec<u8>, pos: usize) -> (r: Option<(EntryData, usize)>) {
        match <String as Wire>::decode(b, pos) {
            Some((path, e)) => Some((EntryData { path }, e)),
            None => None,
        }
    }
}

impl Wire for Glob {
    type V = (Seq<char>, Seq<char>, u64);

    open spec fn wire_view(&self) -> (Seq<char>, Seq<char>, u64) {
        (self.pattern@, self.base_dir@, self.max_depth)
    }

    open spec fn wf_v(v: (Seq<char>, Seq<char>, u64)) -> bool {
        v.0.len() <= u64::MAX && v.1.len() <= u64::MAX
    }

    open spec fn enc(v: (Seq<char>, Seq<char>, u64)) -> Seq<u8> {
        <String as Wire>::enc(v.0) + (<String as Wire>::enc(v.1) + enc_u64(v.2))
    }

    open spec fn dec(b: Seq<u8>, pos: int) -> Option<((Seq<char>, Seq<char>, u64), int)> {
        match <String as Wire>::dec(b, pos) {
            Some((pat, p1)) => match <String as Wire>::dec(b, p1) {
                Some((dir, p2)) => match dec_u64(b, p2) {
                    Some((d, e)) => Some(((pat, dir, d), e)),
                    None => None,
                },
                None => None,
            },
            None => None,
        }
    }

    proof fn lemma_dec_enc(b: Seq<u8>, pos: int, v: (Seq<char>, Seq<char>, u64)) {
        let e0 = <String as Wire>::enc(v.0);
        let e1 = <String as Wire>::enc(v.1);
        let e2 = enc_u64(v.2);
        lemma_subrange_split(b, pos, e0, e1 + e2);
        <String as Wire>::lemma_dec_enc(b, pos, v.0);
        lemma_subrange_split(b, pos + e0.len() as int, e1, e2);
        <String as Wire>::lemma_dec_enc(b, pos + e0.len() as int, v.1);
        lemma_dec_enc_u64(b, pos + e0.len() + e1.len(), v.2);
    }

    proof fn lemma_dec_ok(b: Seq<u8>, pos: int) {
        match <String as Wire>::dec(b, pos) {
            Some((pat, p1)) => {
                <String as Wire>::lemma_dec_ok(b, pos);
                match <String as Wire>::dec(b, p1) {
                    Some((dir, p2)) => {
                        <String as Wire>::lemma_dec_ok(b, p1);
                    },
                    None => {},
                }
            },
            None => {},
        }
    }

    fn encode(&self, buf: &mut Vec<u8>) {
        self.pattern.encode(buf);
        self.base_dir.encode(buf);
        encode_u64(buf, self.max_depth);
        proof {
            assert(buf@ =~= old(buf)@ + Self::enc(self.wire_view()));
        }
    }

    fn decode(b: &Vec<u8>, pos: usize) -> (r: Option<(Glob, usize)>) {
        match <String as Wire>::decode(b, pos) {
            Some((pattern, p1)) => match <String as Wire>::decode(b, p1) {
                Some((base_dir, p2)) => match decode_u64(b, p2) {
                    Some((max_depth, e)) => Some((Glob { pattern, base_dir, max_depth }, e)),
                    None => None,
                },
                None => None,
            },
            None => None,
        }
    }
}

impl Wire for TagRecord {
    type V = ((Seq<char>, Color), Seq<u64>);

    open spec fn wire_view(&self) -> ((Seq<char>, Color), Seq<u64>) {
        (self.tag.wire_view(), self.ids.wire_view())
    }

    open spec fn wf_v(v: ((Seq<char>, Color), Seq<u64>)) -> bool {
        <Tag as Wire>::wf_v(v.0) && <Vec<u64> as Wire>::wf_v(v.1)
    }

    open spec fn enc(v: ((Seq<char>, Color), Seq<u64>)) -> Seq<u8> {
        <Tag as Wire>::enc(v.0) + <Vec<u64> as Wire>::enc(v.1)
    }

    open spec fn dec(b: Seq<u8>, pos: int) -> Option<(((Seq<char>, Color), Seq<u64>), int)> {
        match <Tag as Wire>::dec(b, pos) {
            Some((t, p)) => match <Vec<u64> as Wire>::dec(b, p) {
                Some((ids, e)) => Some(((t, ids), e)),
                None => None,
            },
            None => None,
        }
    }

    proof fn lemma_dec_enc(b: Seq<u8>, pos: int, v: ((Seq<char>, Color), Seq<u64>)) {
        let e0 = <Tag as Wire>::enc(v.0);
        let e1 = <Vec<u64> as Wire>::enc(v.1);
        lemma_subrange_split(b, pos, e0, e1);
        <Tag as Wire>::lemma_dec_enc(b, pos, v.0);
        <Vec<u64> as Wire>::lemma_dec_enc(b, pos + e0.len() as int, v.1);
    }

    proof fn lemma_dec_ok(b: Seq<u8>, pos: int) {
        match <Tag as Wire>::dec(b, pos) {
            Some((t, p)) => {
                <Tag as Wire>::lemma_dec_ok(b, pos);
                <Vec<u64> as Wire>::lemma_dec_ok(b, p);
            },
            None => {},
        }
    }

    fn encode(&self, buf: &mut Vec<u8>) {
        self.tag.encode(buf);
        self.ids.encode(buf);
        proof {
            assert(buf@ =~= old(buf)@ + Self::enc(self.wire_view()));
        }
    }

    fn decode(b: &Vec<u8>, pos: usize) -> (r: Option<(TagRecord, usize)>) {
        match <Tag as Wire>::decode(b, pos) {
            Some((tag, p)) => match <Vec<u64> as Wire>::decode(b, p) {
                Some((ids, e)) => Some((TagRecord { tag, ids }, e)),
                None => None,
            },
            None => None,
        }
    }
}

impl Wire for EntryRecord {
    type V = (u64, Seq<char>);

    open spec fn wire_view(&self) -> (u64, Seq<char>) {
        (self.id, self.data.path@)
    }

    open spec fn wf_v(v: (u64, Seq<char>)) -> bool {
        v.1.len() <= u64::MAX
    }

    open spec fn enc(v: (u64, Seq<char>)) -> Seq<u8> {
        enc_u64(v.0) + <String as Wire>::enc(v.1)
    }

    open spec fn dec(b: Seq<u8>, pos: int) -> Option<((u64, Seq<char>), int)> {
        match dec_u64(b, pos) {
            Some((id, p)) => match <String as Wire>::dec(b, p) {
                Some((path, e)) => Some(((id, path), e)),
                None => None,
            },
            None => None,
        }
    }

    proof fn lemma_dec_enc(b: Seq<u8>, pos: int, v: (u64, Seq<char>)) {
        let e0 = enc_u64(v.0);
        let e1 = <String as Wire>::enc(v.1);
        lemma_subrange_split(b, pos, e0, e1);
        lemma_dec_enc_u64(b, pos, v.0);
        <String as Wire>::lemma_dec_enc(b, pos + e0.len() as int, v.1);
    }

    proof fn lemma_dec_ok(b: Seq<u8>, pos: int) {
        match dec_u64(b, pos) {
            Some((id, p)) => {
                <String as Wire>::lemma_dec_ok(b, p);
            },
            None => {},
        }
    }

    fn encode(&self, buf: &mut Vec<u8>) {
        encode_u64(buf, self.id);
        self.data.path.encode(buf);
        proof {
            assert(buf@ =~= old(buf)@ + Self::enc(self.wire_view()));
        }
    }

    fn decode(b: &Vec<u8>, pos: usize) -> (r: Option<(EntryRecord, usize)>) {
        match decode_u64(b, pos) {
            Some((id, p)) => match <String as Wire>::decode(b, p) {
                Some((path, e)) => Some((EntryRecord { id, data: EntryData { path } }, e)),
                None => None,
            },
            None => None,
        }
    }
}

} // verus!
