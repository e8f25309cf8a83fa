use vstd::prelude::*;
use crate::error::ParseError;

verus! {

/// The unsigned integer that a sequence of bytes denotes in network
/// (big-endian) byte order.
pub open spec fn be_uint(s: Seq<u8>) -> nat
    decreases s.len(),
{
    if s.len() == 0 {
        0
    } else {
        (be_uint(s.drop_last()) * 256 + s.last()) as nat
    }
}

/// `256` to the power `n`.
pub open spec fn pow256(n: nat) -> nat
    decreases n,
{
    if n == 0 {
        1
    } else {
        256 * pow256((n - 1) as nat)
    }
}

/// A big-endian value of `n` bytes is below `256^n`.
pub proof fn lemma_be_uint_bound(s: Seq<u8>)
    ensures
        be_uint(s) < pow256(s.len()),
    decreases s.len(),
{
    if s.len() > 0 {
        lemma_be_uint_bound(s.drop_last());
    }
}

/// `256^i <= 256^j` whenever `i <= j`.
pub proof fn lemma_pow256_mono(i: nat, j: nat)
    requires
        i <= j,
    ensures
        pow256(i) <= pow256(j),
    decreases j,
{
    if i < j {
        lemma_pow256_mono(i, (j - 1) as nat);
    }
}

/// Appending a byte shifts the value by one byte.
pub proof fn lemma_be_uint_push(s: Seq<u8>, b: u8)
    ensures
        be_uint(s.push(b)) == be_uint(s) * 256 + b,
{
    assert(s.push(b).drop_last() =~= s);
}

/// A cursor over a byte slice.
pub struct Parser<'a> {
    buf: &'a [u8],
    pos: usize,
}

impl<'a> Parser<'a> {
    /// The bytes the parser reads from.
    pub closed spec fn data(&self) -> Seq<u8> {
        self.buf@
    }

    /// The index of the next byte to read.
    pub closed spec fn position(&self) -> int {
        self.pos as int
    }

    /// The position lies within the data.
    pub open spec fn wf(&self) -> bool {
        0 <= self.position() <= self.data().len() <= usize::MAX
    }

    /// A parser at the start of `buf`.
    pub fn from_ref(buf: &'a [u8]) -> (p: Self)
        ensures
            p.wf(),
            p.data() == buf@,
            p.position() == 0,
    {
        // Reading the length records that it fits in `usize`.
        let _len = buf.len();
        Parser { buf, pos: 0 }
    }

    /// The current position.
    pub fn pos(&self) -> (r: usize)
        requires
            self.wf(),
        ensures
            r == self.position(),
            r <= self.data().len(),
    {
        self.pos
    }

    /// The number of bytes left to read.
    pub fn remaining(&self) -> (r: usize)
        requires
            self.wf(),
        ensures
            r == self.data().len() - self.position(),
    {
        self.buf.len() - self.pos
    }

    /// Reads one byte.
    pub fn parse_u8(&mut self) -> (r: Result<u8, ParseError>)
        requires
            old(self).wf(),
        ensures
            final(self).wf(),
            final(self).data() == old(self).data(),
            match r {
                Ok(b) => {
                    &&& old(self).position() < old(self).data().len()
                    &&& b == old(self).data()[old(self).position()]
                    &&& final(self).position() == old(self).position() + 1
                },
                Err(e) => {
                    &&& e == ParseError::ShortInput
                    &&& old(self).position() == old(self).data().len()
                    &&& final(self).position() == old(self).position()
                },
            },
    {
        if self.pos < self.buf.len() {
            let b = self.buf[self.pos];
            self.pos = self.pos + 1;
            Ok(b)
        } else {
            Err(ParseError::ShortInput)
        }
    }

    /// Reads an unsigned integer of `n` bytes in network byte order.
    pub fn parse_uint_be(&mut self, n: usize) -> (r: Result<u64, ParseError>)
        requires
            old(self).wf(),
            n <= 8,
        ensures
            final(self).wf(),
            final(self).data() == old(self).data(),
            match r {
                Ok(v) => {
                    &&& old(self).position() + n <= old(self).data().len()
                    &&& v == be_uint(
                        old(self).data().subrange(old(self).position(), old(self).position() + n),
                    )
                    &&& final(self).position() == old(self).position() + n
                },
                Err(e) => {
                    &&& e == ParseError::ShortInput
                    &&& old(self).position() + n > old(self).data().len()
                    &&& final(self).position() == old(self).position()
                },
            },
    {
        if n > self.buf.len() - self.pos {
            return Err(ParseError::ShortInput);
        }
        let start = self.pos;
        let len = self.buf.len();
        let mut v: u64 = 0;
        let mut i: usize = 0;
        while i < n
            invariant
                i <= n <= 8,
                start + n <= len,
                len == self.buf@.len(),
                start == self.pos,
                v == be_uint(self.buf@.subrange(start as int, start + i)),
                v < pow256(i as nat),
            decreases n - i,
        {
            let b = self.buf[start + i];
            proof {
                assert(self.buf@.subrange(start as int, start + i + 1) =~= self.buf@.subrange(
                    start as int,
                    start + i,
                ).push(b));
                lemma_be_uint_push(self.buf@.subrange(start as int, start + i), b);
                lemma_pow256_mono(i as nat, 7);
                reveal_with_fuel(pow256, 8);
                lemma_be_uint_bound(self.buf@.subrange(start as int, start + i + 1));
                lemma_pow256_mono((i + 1) as nat, 8);
            }
            v = v * 256 + b as u64;
            i = i + 1;
        }
        self.pos = start + n;
        Ok(v)
    }

    /// The next `n` bytes, without moving.
    pub fn peek(&self, n: usize) -> (r: Result<&'a [u8], ParseError>)
        requires
            self.wf(),
        ensures
            match r {
                Ok(s) => {
                    &&& self.position() + n <= self.data().len()
                    &&& s@ == self.data().subrange(self.position(), self.position() + n)
                },
                Err(e) => {
                    &&& e == ParseError::ShortInput
                    &&& self.position() + n > self.data().len()
                },
            },
    {
        if n > self.buf.len() - self.pos {
            return Err(ParseError::ShortInput);
        }
        Ok(vstd::slice::slice_subrange(self.buf, self.pos, self.pos + n))
    }

    /// Moves forward by `n` bytes.
    pub fn advance(&mut self, n: usize) -> (r: Result<(), ParseError>)
        requires
            old(self).wf(),
        ensures
            final(self).wf(),
            final(self).data() == old(self).data(),
            match r {
                Ok(()) => {
                    &&& old(self).position() + n <= old(self).data().len()
                    &&& final(self).position() == old(self).position() + n
                },
                Err(e) => {
                    &&& e == ParseError::ShortInput
                    &&& old(self).position() + n > old(self).data().len()
                    &&& final(self).position() == old(self).position()
                },
            },
    {
        if n > self.buf.len() - self.pos {
            return Err(ParseError::ShortInput);
        }
        self.pos = self.pos + n;
        Ok(())
    }

    /// Moves to the absolute position `pos`.
    pub fn seek(&mut self, pos: usize) -> (r: Result<(), ParseError>)
        requires
            old(self).wf(),
        ensures
            final(self).wf(),
            final(self).data() == old(self).data(),
            match r {
                Ok(()) => {
                    &&& pos <= old(self).data().len()
                    &&& final(self).position() == pos
                },
                Err(e) => {
                    &&& e == ParseError::ShortInput
                    &&& pos > old(self).data().len()
                    &&& final(self).position() == old(self).position()
                },
            },
    {
        if pos > self.buf.len() {
            return Err(ParseError::ShortInput);
        }
        self.pos = pos;
        Ok(())
    }

    /// Takes the next `n` bytes as an owned vector.
    pub fn parse_octets(&mut self, n: usize) -> (r: Result<Vec<u8>, ParseError>)
        requires
            old(self).wf(),
        ensures
            final(self).wf(),
            final(self).data() == old(self).data(),
            match r {
                Ok(v) => {
                    &&& old(self).position() + n <= old(self).data().len()
                    &&& v@ == old(self).data().subrange(
                        old(self).position(),
                        old(self).position() + n,
                    )
                    &&& final(self).position() == old(self).position() + n
                },
                Err(e) => {
                    &&& e == ParseError::ShortInput
                    &&& old(self).position() + n > old(self).data().len()
                    &&& final(self).position() == old(self).position()
                },
            },
    {
        if n > self.buf.len() - self.pos {
            return Err(ParseError::ShortInput);
        }
        let v = vstd::slice::slice_to_vec(vstd::slice::slice_subrange(self.buf, self.pos, self.pos + n));
        self.pos = self.pos + n;
        Ok(v)
    }
}

} // verus!
