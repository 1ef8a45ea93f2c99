//! Big-endian byte reading and writing, the wire format of compiled scripts.
//!
//! Strings are ISO-8859-1: one byte per character, terminated by a zero byte.
use crate::error::{Error, ErrorKind};
use vstd::prelude::*;

verus! {

/// Unsigned big-endian value of the 2 bytes of `b` at `p`.
pub open spec fn be16(b: Seq<u8>, p: int) -> int {
    b[p] as int * 256 + b[p + 1] as int
}

/// Unsigned big-endian value of the 4 bytes of `b` at `p`.
pub open spec fn be32(b: Seq<u8>, p: int) -> int {
    b[p] as int * 16777216 + b[p + 1] as int * 65536 + b[p + 2] as int * 256 + b[p + 3] as int
}

/// Unsigned big-endian value of the 8 bytes of `b` at `p`.
pub open spec fn be64(b: Seq<u8>, p: int) -> int {
    be32(b, p) * 4294967296 + be32(b, p + 4)
}

/// Two's complement reading of a 32-bit unsigned value.
pub open spec fn signed32(u: int) -> int {
    if u >= 2147483648 {
        u - 4294967296
    } else {
        u
    }
}

/// Two's complement reading of a 64-bit unsigned value.
pub open spec fn signed64(u: int) -> int {
    if u >= 9223372036854775808 {
        u - 18446744073709551616
    } else {
        u
    }
}

/// The unsigned 32-bit pattern of a signed value.
pub open spec fn unsigned32(v: int) -> int {
    if v < 0 {
        v + 4294967296
    } else {
        v
    }
}

/// The unsigned 64-bit pattern of a signed value.
pub open spec fn unsigned64(v: int) -> int {
    if v < 0 {
        v + 18446744073709551616
    } else {
        v
    }
}

/// Big-endian bytes of a 16-bit value.
pub open spec fn bytes16(u: int) -> Seq<u8> {
    seq![(u / 256) as u8, (u % 256) as u8]
}

/// Big-endian bytes of a 32-bit unsigned value.
pub open spec fn bytes32(u: int) -> Seq<u8> {
    seq![
        (u / 16777216) as u8,
        ((u / 65536) % 256) as u8,
        ((u / 256) % 256) as u8,
        (u % 256) as u8,
    ]
}

/// Big-endian bytes of a 64-bit unsigned value.
pub open spec fn bytes64(u: int) -> Seq<u8> {
    bytes32(u / 4294967296) + bytes32(u % 4294967296)
}

/// The character a byte stands for.
pub open spec fn byte_char(b: u8) -> char {
    (b as u32) as char
}

/// The characters of a byte string.
pub open spec fn latin1(bs: Seq<u8>) -> Seq<char> {
    bs.map_values(|b: u8| byte_char(b))
}

/// The byte a character is written as: itself when it is in 1..=255,
/// otherwise `?`.
pub open spec fn char_byte(c: char) -> u8 {
    if 1 <= (c as u32) && (c as u32) <= 255 {
        (c as u32) as u8
    } else {
        63
    }
}

/// The bytes of a zero-terminated string.
pub open spec fn jstr_bytes(s: Seq<char>) -> Seq<u8> {
    s.map_values(|c: char| char_byte(c)).push(0)
}

/// Position of the first zero byte of `b` at or after `p`, or `b.len()`.
pub open spec fn zero_from(b: Seq<u8>, p: int) -> int
    decreases b.len() - p,
{
    if p >= b.len() {
        b.len() as int
    } else if b[p] == 0 {
        p
    } else {
        zero_from(b, p + 1)
    }
}

pub proof fn lemma_zero_from(b: Seq<u8>, p: int)
    requires
        0 <= p <= b.len(),
    ensures
        p <= zero_from(b, p) <= b.len(),
        zero_from(b, p) < b.len() ==> b[zero_from(b, p)] == 0,
        forall|k: int| p <= k < zero_from(b, p) ==> b[k] != 0,
    decreases b.len() - p,
{
    if p < b.len() && b[p] != 0 {
        lemma_zero_from(b, p + 1);
    }
}

pub proof fn lemma_zero_from_unique(b: Seq<u8>, p: int, z: int)
    requires
        0 <= p <= z <= b.len(),
        z < b.len() ==> b[z] == 0,
        forall|k: int| p <= k < z ==> b[k] != 0,
    ensures
        zero_from(b, p) == z,
    decreases z - p,
{
    if p < z {
        lemma_zero_from_unique(b, p + 1, z);
    }
}

pub proof fn lemma_be32_bytes(u: int)
    requires
        0 <= u < 4294967296,
    ensures
        be32(bytes32(u), 0) == u,
{
    assert(0 <= u / 16777216 < 256) by (nonlinear_arith)
        requires 0 <= u < 4294967296;
    assert(u == (u / 16777216) * 16777216 + ((u / 65536) % 256) * 65536 + ((u / 256) % 256) * 256
        + u % 256) by (nonlinear_arith)
        requires 0 <= u < 4294967296;
}

pub proof fn lemma_be16_bytes(u: int)
    requires
        0 <= u < 65536,
    ensures
        be16(bytes16(u), 0) == u,
{
    assert(u == (u / 256) * 256 + u % 256) by (nonlinear_arith);
}

pub proof fn lemma_be64_bytes(u: int)
    requires
        0 <= u < 18446744073709551616,
    ensures
        be64(bytes64(u), 0) == u,
{
    let hi = u / 4294967296;
    let lo = u % 4294967296;
    vstd::arithmetic::div_mod::lemma_fundamental_div_mod(u, 4294967296);
    assert(0 <= hi < 4294967296) by (nonlinear_arith)
        requires 0 <= u < 18446744073709551616, hi == u / 4294967296;
    assert(0 <= lo < 4294967296);
    lemma_be32_bytes(hi);
    lemma_be32_bytes(lo);
    let b = bytes64(u);
    assert(b.subrange(0, 4) =~= bytes32(hi));
    assert(b.subrange(4, 8) =~= bytes32(lo));
    assert(be32(b, 0) == be32(bytes32(hi), 0));
    assert(be32(b, 4) == be32(bytes32(lo), 0));
}

/// A cursor over bytes.
pub struct Packet<'a> {
    pub data: &'a [u8],
    pub pos: usize,
}

impl<'a> Packet<'a> {
    /// The cursor position is within the data.
    pub open spec fn wf(&self) -> bool {
        self.pos <= self.data@.len()
    }

    /// A cursor at the start of `data`.
    pub fn new(data: &'a [u8]) -> (r: Packet<'a>)
        ensures
            r.data@ == data@,
            r.pos == 0,
            r.wf(),
    {
        Packet { data, pos: 0 }
    }

    /// The cursor position.
    pub fn pos(&self) -> (r: usize)
        ensures
            r == self.pos,
    {
        self.pos
    }

    /// Moves the cursor; an error when `pos` is past the end.
    pub fn set_pos(&mut self, pos: usize) -> (r: Result<(), Error>)
        ensures
            final(self).data == old(self).data,
            r is Ok <==> pos <= old(self).data@.len(),
            r is Ok ==> final(self).pos == pos,
            r is Err ==> final(self).pos == old(self).pos,
    {
        if pos > self.data.len() {
            return Err(Error::new(ErrorKind::Truncated, "packet position out of bounds"));
        }
        self.pos = pos;
        Ok(())
    }

    /// Reads one unsigned byte.
    pub fn g1(&mut self) -> (r: Result<u8, Error>)
        requires
            old(self).wf(),
        ensures
            final(self).wf(),
            final(self).data == old(self).data,
            r is Ok <==> old(self).pos + 1 <= old(self).data@.len(),
            r matches Ok(v) ==> v == old(self).data@[old(self).pos as int] && final(self).pos
                == old(self).pos + 1,
            r is Err ==> final(self).pos == old(self).pos,
    {
        if self.pos >= self.data.len() {
            return Err(Error::new(ErrorKind::Truncated, "unexpected end of packet"));
        }
        let v = self.data[self.pos];
        self.pos = self.pos + 1;
        Ok(v)
    }

    /// Reads an unsigned big-endian 16-bit value.
    pub fn g2(&mut self) -> (r: Result<u16, Error>)
        requires
            old(self).wf(),
        ensures
            final(self).wf(),
            final(self).data == old(self).data,
            r is Ok <==> old(self).pos + 2 <= old(self).data@.len(),
            r matches Ok(v) ==> v as int == be16(old(self).data@, old(self).pos as int)
                && final(self).pos == old(self).pos + 2,
            r is Err ==> final(self).pos == old(self).pos,
    {
        if self.data.len() - self.pos < 2 {
            return Err(Error::new(ErrorKind::Truncated, "unexpected end of packet"));
        }
        let p = self.pos;
        let v: u16 = (self.data[p] as u16) * 256 + (self.data[p + 1] as u16);
        self.pos = p + 2;
        Ok(v)
    }

    /// Reads a signed big-endian 32-bit value.
    pub fn g4s(&mut self) -> (r: Result<i32, Error>)
        requires
            old(self).wf(),
        ensures
            final(self).wf(),
            final(self).data == old(self).data,
            r is Ok <==> old(self).pos + 4 <= old(self).data@.len(),
            r matches Ok(v) ==> v as int == signed32(be32(old(self).data@, old(self).pos as int))
                && final(self).pos == old(self).pos + 4,
            r is Err ==> final(self).pos == old(self).pos,
    {
        if self.data.len() - self.pos < 4 {
            return Err(Error::new(ErrorKind::Truncated, "unexpected end of packet"));
        }
        let p = self.pos;
        let u: u32 = (self.data[p] as u32) * 16777216 + (self.data[p + 1] as u32) * 65536
            + (self.data[p + 2] as u32) * 256 + (self.data[p + 3] as u32);
        let v = u as i32;
        proof {
            assert(u >= 0x80000000u32 ==> (u as i32) as int == u as int - 0x100000000) by (bit_vector);
            assert(u < 0x80000000u32 ==> (u as i32) as int == u as int) by (bit_vector);
        }
        self.pos = p + 4;
        Ok(v)
    }

    /// Reads a signed big-endian 64-bit value.
    pub fn g8s(&mut self) -> (r: Result<i64, Error>)
        requires
            old(self).wf(),
        ensures
            final(self).wf(),
            final(self).data == old(self).data,
            r is Ok <==> old(self).pos + 8 <= old(self).data@.len(),
            r matches Ok(v) ==> v as int == signed64(be64(old(self).data@, old(self).pos as int))
                && final(self).pos == old(self).pos + 8,
            r is Err ==> final(self).pos == old(self).pos,
    {
        if self.data.len() - self.pos < 8 {
            return Err(Error::new(ErrorKind::Truncated, "unexpected end of packet"));
        }
        let p = self.pos;
        let hi: u64 = (self.data[p] as u64) * 16777216 + (self.data[p + 1] as u64) * 65536
            + (self.data[p + 2] as u64) * 256 + (self.data[p + 3] as u64);
        let lo: u64 = (self.data[p + 4] as u64) * 16777216 + (self.data[p + 5] as u64) * 65536
            + (self.data[p + 6] as u64) * 256 + (self.data[p + 7] as u64);
        assert(hi < 4294967296);
        let u: u64 = hi * 4294967296 + lo;
        let v = u as i64;
        proof {
            assert(u >= 0x8000000000000000u64 ==> (u as i64) as int == u as int
                - 0x10000000000000000) by (bit_vector);
            assert(u < 0x8000000000000000u64 ==> (u as i64) as int == u as int) by (bit_vector);
        }
        self.pos = p + 8;
        Ok(v)
    }

    /// Reads a zero-terminated string; an error when no terminator follows.
    pub fn gjstr(&mut self) -> (r: Result<String, Error>)
        requires
            old(self).wf(),
        ensures
            final(self).wf(),
            final(self).data == old(self).data,
            r is Ok <==> zero_from(old(self).data@, old(self).pos as int) < old(self).data@.len(),
            r matches Ok(s) ==> s@ == latin1(
                old(self).data@.subrange(
                    old(self).pos as int,
                    zero_from(old(self).data@, old(self).pos as int),
                ),
            ) && final(self).pos == zero_from(old(self).data@, old(self).pos as int) + 1,
            r is Err ==> final(self).pos == old(self).pos,
    {
        let start = self.pos;
        let mut i = start;
        let mut out = String::new();
        while i < self.data.len() && self.data[i] != 0
            invariant
                start <= i <= self.data@.len(),
                start == self.pos,
                self.wf(),
                forall|k: int| start <= k < i ==> self.data@[k] != 0,
                out@ == latin1(self.data@.subrange(start as int, i as int)),
            decreases self.data@.len() - i,
        {
            let b = self.data[i];
            crate::text::string_push(&mut out, b as char);
            i = i + 1;
            proof {
                assert(latin1(self.data@.subrange(start as int, i as int)) =~= latin1(
                    self.data@.subrange(start as int, i - 1),
                ).push(byte_char(b)));
            }
        }
        proof {
            lemma_zero_from_unique(self.data@, start as int, i as int);
        }
        if i >= self.data.len() {
            return Err(Error::new(ErrorKind::Truncated, "unterminated string in packet"));
        }
        self.pos = i + 1;
        Ok(out)
    }

    /// Reads an optional string: a lone zero byte means none.
    pub fn gjstrnull(&mut self) -> (r: Result<Option<String>, Error>)
        requires
            old(self).wf(),
        ensures
            final(self).wf(),
            final(self).data == old(self).data,
            ({
                let d = old(self).data@;
                let p = old(self).pos as int;
                if p < d.len() && d[p] == 0 {
                    r matches Ok(None) && final(self).pos == p + 1
                } else {
                    &&& r is Ok <==> zero_from(d, p) < d.len()
                    &&& r matches Ok(v) ==> v matches Some(s) && s@ == latin1(
                        d.subrange(p, zero_from(d, p)),
                    ) && final(self).pos == zero_from(d, p) + 1
                }
            }),
    {
        if self.pos < self.data.len() && self.data[self.pos] == 0 {
            self.pos = self.pos + 1;
            return Ok(None);
        }
        match self.gjstr() {
            Ok(s) => Ok(Some(s)),
            Err(e) => Err(e),
        }
    }
}

/// A growable big-endian byte buffer.
pub struct ByteWriter {
    pub data: Vec<u8>,
}

impl ByteWriter {
    /// An empty buffer.
    pub fn new() -> (r: ByteWriter)
        ensures
            r.data@ == Seq::<u8>::empty(),
    {
        ByteWriter { data: Vec::new() }
    }

    /// The number of bytes written.
    pub fn len(&self) -> (r: usize)
        ensures
            r == self.data@.len(),
    {
        self.data.len()
    }

    /// Writes one byte.
    pub fn p1(&mut self, v: u8)
        ensures
            final(self).data@ == old(self).data@.push(v),
    {
        self.data.push(v);
    }

    /// Writes an unsigned big-endian 16-bit value.
    pub fn p2(&mut self, v: u16)
        ensures
            final(self).data@ == old(self).data@ + bytes16(v as int),
    {
        self.data.push((v / 256) as u8);
        self.data.push((v % 256) as u8);
        assert(self.data@ =~= old(self).data@ + bytes16(v as int));
    }

    fn push_u32(&mut self, u: u32)
        ensures
            final(self).data@ == old(self).data@ + bytes32(u as int),
    {
        self.data.push((u / 16777216) as u8);
        self.data.push(((u / 65536) % 256) as u8);
        self.data.push(((u / 256) % 256) as u8);
        self.data.push((u % 256) as u8);
        assert(self.data@ =~= old(self).data@ + bytes32(u as int));
    }

    /// Writes a signed big-endian 32-bit value.
    pub fn p4s(&mut self, v: i32)
        ensures
            final(self).data@ == old(self).data@ + bytes32(unsigned32(v as int)),
    {
        let u = v as u32;
        proof {
            assert(v < 0 ==> (v as u32) as int == v as int + 0x100000000) by (bit_vector);
            assert(v >= 0 ==> (v as u32) as int == v as int) by (bit_vector);
        }
        self.push_u32(u);
    }

    /// Writes a signed big-endian 64-bit value.
    pub fn p8s(&mut self, v: i64)
        ensures
            final(self).data@ == old(self).data@ + bytes64(unsigned64(v as int)),
    {
        let u = v as u64;
        proof {
            assert(v < 0 ==> (v as u64) as int == v as int + 0x10000000000000000) by (bit_vector);
            assert(v >= 0 ==> (v as u64) as int == v as int) by (bit_vector);
        }
        let hi = (u / 4294967296) as u32;
        let lo = (u % 4294967296) as u32;
        self.push_u32(hi);
        self.push_u32(lo);
        assert(self.data@ =~= old(self).data@ + bytes64(unsigned64(v as int)));
    }

    /// Writes a zero-terminated string.
    pub fn pjstr(&mut self, s: &str)
        ensures
            final(self).data@ == old(self).data@ + jstr_bytes(s@),
    {
        let cs = crate::text::chars_of(s);
        let mut i: usize = 0;
        while i < cs.len()
            invariant
                i <= cs@.len(),
                cs@ == s@,
                self.data@ == old(self).data@ + cs@.take(i as int).map_values(
                    |c: char| char_byte(c),
                ),
            decreases cs@.len() - i,
        {
            let c = cs[i];
            let cu = c as u32;
            let b: u8 = if 1 <= cu && cu <= 255 {
                cu as u8
            } else {
                63
            };
            self.data.push(b);
            i = i + 1;
            proof {
                assert(cs@.take(i as int).map_values(|c: char| char_byte(c)) =~= cs@.take(
                    (i - 1) as int,
                ).map_values(|c: char| char_byte(c)).push(char_byte(c)));
            }
        }
        self.data.push(0);
        proof {
            assert(cs@.take(i as int) =~= s@);
        }
        assert(self.data@ =~= old(self).data@ + jstr_bytes(s@));
    }

    /// Writes an optional string: none is a lone zero byte.
    pub fn pjstrnull(&mut self, s: Option<&str>)
        ensures
            s is None ==> final(self).data@ == old(self).data@.push(0),
            s matches Some(t) ==> final(self).data@ == old(self).data@ + jstr_bytes(t@),
    {
        match s {
            None => self.p1(0),
            Some(t) => self.pjstr(t),
        }
    }
}

} // verus!
