//! The byte source that decoders read from, and the text codec.
//!
//! Serialization writes into a plain `Vec<u8>`; deserialization reads
//! from a [`Reader`], a cursor over a byte slice.  Fixed-width integers
//! are little-endian throughout; text is a 16-bit little-endian byte
//! count followed by the raw UTF-8 bytes.

use vstd::bytes::{
    lemma_auto_spec_u128_to_from_le_bytes, lemma_auto_spec_u16_to_from_le_bytes,
    lemma_auto_spec_u32_to_from_le_bytes, lemma_auto_spec_u64_to_from_le_bytes,
    spec_u128_to_le_bytes, spec_u16_from_le_bytes, spec_u16_to_le_bytes, spec_u32_to_le_bytes,
    spec_u64_to_le_bytes, u128_from_le_bytes, u16_from_le_bytes, u16_to_le_bytes,
    u32_from_le_bytes, u64_from_le_bytes,
};
use vstd::prelude::*;
use vstd::slice::{slice_subrange, slice_to_vec};
use vstd::utf8::{encode_utf8, encode_utf8_decode_utf8, encode_utf8_valid_utf8, valid_utf8};

use crate::model::{enc_text, text_decode_ok, text_wf};

verus! {

/// Why a decode failed.
#[derive(Debug, Clone, Copy, PartialEq, Eq, Structural)]
pub enum DecodeError {
    /// The byte source ended before the encoding being read was complete.
    UnexpectedEnd,
    /// A metadata stream began with a tag byte outside the known tag
    /// space; the byte is carried for diagnostics.
    UnrecognizedDiscriminant(u8),
    /// A text field's bytes are not valid UTF-8.
    InvalidText,
    /// A vector value was asked for through an entry point that carries
    /// no element count.  Vector value encodings are not self-delimiting:
    /// the count must be supplied out of band, through
    /// [`crate::vec_type::XbfVec::deserialize_vec_type`].
    MissingVecLength,
}

/// A cursor over a byte slice.  `pos` never exceeds the slice's length
/// while the well-formedness predicate [`Reader::wf`] holds.
pub struct Reader<'a> {
    pub data: &'a [u8],
    pub pos: usize,
}

impl<'a> Reader<'a> {
    /// The cursor sits inside the buffer.
    pub open spec fn wf(self) -> bool {
        self.pos <= self.data@.len()
    }

    /// The whole underlying buffer.
    pub open spec fn bytes(self) -> Seq<u8> {
        self.data@
    }

    /// The current read position.
    pub open spec fn position(self) -> int {
        self.pos as int
    }

    /// The bytes not yet consumed.
    pub open spec fn remaining(self) -> Seq<u8> {
        self.data@.skip(self.pos as int)
    }

    /// A reader over the whole of `data`.
    pub fn new(data: &'a [u8]) -> (r: Reader<'a>)
        ensures
            r.wf(),
            r.bytes() == data@,
            r.position() == 0,
            r.remaining() == data@,
    {
        let r = Reader { data, pos: 0 };
        proof {
            assert(r.remaining() =~= data@);
        }
        r
    }

    /// The current read position.
    pub fn current_position(&self) -> (p: usize)
        ensures
            p == self.position(),
    {
        self.pos
    }

    /// Reads one byte.
    pub fn read_u8(&mut self) -> (r: Result<u8, DecodeError>)
        requires
            old(self).wf(),
        ensures
            final (self).wf(),
            final (self).bytes() == old(self).bytes(),
            r matches Ok(x) ==> {
                &&& old(self).remaining().len() >= 1
                &&& final (self).position() == old(self).position() + 1
                &&& x == old(self).remaining()[0]
            },
            r is Err <==> old(self).remaining().len() < 1,
            r matches Err(e) ==> e == DecodeError::UnexpectedEnd && *final (self) == *old(self),
    {
        if self.pos < self.data.len() {
            let b = *vstd::slice::slice_index_get(self.data, self.pos);
            self.pos = self.pos + 1;
            Ok(b)
        } else {
            Err(DecodeError::UnexpectedEnd)
        }
    }

    /// Reads `n` raw bytes.
    pub fn read_bytes(&mut self, n: usize) -> (r: Result<Vec<u8>, DecodeError>)
        requires
            old(self).wf(),
        ensures
            final (self).wf(),
            final (self).bytes() == old(self).bytes(),
            r matches Ok(v) ==> {
                &&& old(self).remaining().len() >= n
                &&& final (self).position() == old(self).position() + n
                &&& v@ == old(self).remaining().take(n as int)
            },
            r is Err <==> old(self).remaining().len() < n,
            r matches Err(e) ==> e == DecodeError::UnexpectedEnd && *final (self) == *old(self),
    {
        if n <= self.data.len() - self.pos {
            let s = slice_subrange(self.data, self.pos, self.pos + n);
            let v = slice_to_vec(s);
            proof {
                assert(v@ =~= old(self).remaining().take(n as int));
            }
            self.pos = self.pos + n;
            Ok(v)
        } else {
            Err(DecodeError::UnexpectedEnd)
        }
    }

    /// Reads a little-endian 16-bit integer.
    pub fn read_u16(&mut self) -> (r: Result<u16, DecodeError>)
        requires
            old(self).wf(),
        ensures
            final (self).wf(),
            final (self).bytes() == old(self).bytes(),
            r matches Ok(x) ==> {
                &&& old(self).remaining().len() >= 2
                &&& final (self).position() == old(self).position() + 2
                &&& old(self).remaining().take(2) == spec_u16_to_le_bytes(x)
            },
            r is Err <==> old(self).remaining().len() < 2,
            r matches Err(e) ==> e == DecodeError::UnexpectedEnd && *final (self) == *old(self),
    {
        proof {
            lemma_auto_spec_u16_to_from_le_bytes();
        }
        if 2 <= self.data.len() - self.pos {
            let s = slice_subrange(self.data, self.pos, self.pos + 2);
            let x = u16_from_le_bytes(s);
            proof {
                assert(s@ =~= old(self).remaining().take(2));
            }
            self.pos = self.pos + 2;
            Ok(x)
        } else {
            Err(DecodeError::UnexpectedEnd)
        }
    }

    /// Reads a little-endian 32-bit integer.
    pub fn read_u32(&mut self) -> (r: Result<u32, DecodeError>)
        requires
            old(self).wf(),
        ensures
            final (self).wf(),
            final (self).bytes() == old(self).bytes(),
            r matches Ok(x) ==> {
                &&& old(self).remaining().len() >= 4
                &&& final (self).position() == old(self).position() + 4
                &&& old(self).remaining().take(4) == spec_u32_to_le_bytes(x)
            },
            r is Err <==> old(self).remaining().len() < 4,
            r matches Err(e) ==> e == DecodeError::UnexpectedEnd && *final (self) == *old(self),
    {
        proof {
            lemma_auto_spec_u32_to_from_le_bytes();
        }
        if 4 <= self.data.len() - self.pos {
            let s = slice_subrange(self.data, self.pos, self.pos + 4);
            let x = u32_from_le_bytes(s);
            proof {
                assert(s@ =~= old(self).remaining().take(4));
            }
            self.pos = self.pos + 4;
            Ok(x)
        } else {
            Err(DecodeError::UnexpectedEnd)
        }
    }

    /// Reads a little-endian 64-bit integer.
    pub fn read_u64(&mut self) -> (r: Result<u64, DecodeError>)
        requires
            old(self).wf(),
        ensures
            final (self).wf(),
            final (self).bytes() == old(self).bytes(),
            r matches Ok(x) ==> {
                &&& old(self).remaining().len() >= 8
                &&& final (self).position() == old(self).position() + 8
                &&& old(self).remaining().take(8) == spec_u64_to_le_bytes(x)
            },
            r is Err <==> old(self).remaining().len() < 8,
            r matches Err(e) ==> e == DecodeError::UnexpectedEnd && *final (self) == *old(self),
    {
        proof {
            lemma_auto_spec_u64_to_from_le_bytes();
        }
        if 8 <= self.data.len() - self.pos {
            let s = slice_subrange(self.data, self.pos, self.pos + 8);
            let x = u64_from_le_bytes(s);
            proof {
                assert(s@ =~= old(self).remaining().take(8));
            }
            self.pos = self.pos + 8;
            Ok(x)
        } else {
            Err(DecodeError::UnexpectedEnd)
        }
    }

    /// Reads a little-endian 128-bit integer.
    pub fn read_u128(&mut self) -> (r: Result<u128, DecodeError>)
        requires
            old(self).wf(),
        ensures
            final (self).wf(),
            final (self).bytes() == old(self).bytes(),
            r matches Ok(x) ==> {
                &&& old(self).remaining().len() >= 16
                &&& final (self).position() == old(self).position() + 16
                &&& old(self).remaining().take(16) == spec_u128_to_le_bytes(x)
            },
            r is Err <==> old(self).remaining().len() < 16,
            r matches Err(e) ==> e == DecodeError::UnexpectedEnd && *final (self) == *old(self),
    {
        proof {
            lemma_auto_spec_u128_to_from_le_bytes();
        }
        if 16 <= self.data.len() - self.pos {
            let s = slice_subrange(self.data, self.pos, self.pos + 16);
            let x = u128_from_le_bytes(s);
            proof {
                assert(s@ =~= old(self).remaining().take(16));
            }
            self.pos = self.pos + 16;
            Ok(x)
        } else {
            Err(DecodeError::UnexpectedEnd)
        }
    }

    /// Reads length-prefixed text: a 16-bit byte count, then that many
    /// UTF-8 bytes.
    ///
    /// On success the consumed bytes are exactly the text encoding of the
    /// result, and any stream that starts with the text encoding of some
    /// `t` yields exactly `t`.
    pub fn read_text(&mut self) -> (r: Result<String, DecodeError>)
        requires
            old(self).wf(),
        ensures
            final (self).wf(),
            final (self).bytes() == old(self).bytes(),
            final (self).position() >= old(self).position(),
            r matches Ok(s) ==> {
                &&& text_wf(s@)
                &&& old(self).remaining().len() >= enc_text(s@).len()
                &&& final (self).position() == old(self).position() + enc_text(s@).len()
                &&& old(self).remaining().take(enc_text(s@).len() as int) == enc_text(s@)
            },
            forall|t: Seq<char>, rest: Seq<u8>|
                text_wf(t) && old(self).remaining() == #[trigger] (enc_text(t) + rest) ==> (r
                    matches Ok(s) && s@ == t),
            r is Ok <==> text_decode_ok(old(self).remaining()),
            r matches Err(e) ==> e == DecodeError::UnexpectedEnd || e == DecodeError::InvalidText,
    {
        proof {
            lemma_auto_spec_u16_to_from_le_bytes();
        }
        let n = match self.read_u16() {
            Ok(x) => x,
            Err(e) => {
                return Err(e);
            },
        };
        let ghost mid = *self;
        proof {
            assert(mid.remaining() =~= old(self).remaining().skip(2));
        }
        proof {
            assert(spec_u16_to_le_bytes(n).len() == 2);
            assert(spec_u16_from_le_bytes(spec_u16_to_le_bytes(n)) == n);
            assert(spec_u16_from_le_bytes(old(self).remaining().take(2)) == n);
        }
        let bytes = match self.read_bytes(n as usize) {
            Ok(b) => b,
            Err(e) => {
                proof {
                    assert(!text_decode_ok(old(self).remaining()));
                    assert forall|t: Seq<char>, rest: Seq<u8>|
                        text_wf(t) && old(self).remaining() == #[trigger] (enc_text(t)
                            + rest) implies false by {
                        assert(old(self).remaining().take(2) =~= spec_u16_to_le_bytes(
                            encode_utf8(t).len() as u16,
                        ));
                        assert(n == encode_utf8(t).len());
                        assert(mid.remaining().len() >= encode_utf8(t).len());
                    }
                }
                return Err(e);
            },
        };
        proof {
            assert(bytes@ =~= old(self).remaining().subrange(2, 2 + n as int));
        }
        match string_from_utf8(bytes) {
            Some(s) => {
                proof {
                    encode_utf8_valid_utf8(s@);
                    assert(text_decode_ok(old(self).remaining()));
                    assert forall|t: Seq<char>, rest: Seq<u8>|
                        text_wf(t) && old(self).remaining() == #[trigger] (enc_text(t)
                            + rest) implies s@ == t by {
                        assert(old(self).remaining().take(2) =~= spec_u16_to_le_bytes(
                            encode_utf8(t).len() as u16,
                        ));
                        assert(n == encode_utf8(t).len());
                        assert(mid.remaining().take(n as int) =~= encode_utf8(t));
                        encode_utf8_decode_utf8(s@);
                        encode_utf8_decode_utf8(t);
                    }
                    assert(old(self).remaining().take(enc_text(s@).len() as int) =~= enc_text(
                        s@,
                    ));
                }
                Ok(s)
            },
            None => {
                proof {
                    assert forall|t: Seq<char>, rest: Seq<u8>|
                        text_wf(t) && old(self).remaining() == #[trigger] (enc_text(t)
                            + rest) implies false by {
                        assert(old(self).remaining().take(2) =~= spec_u16_to_le_bytes(
                            encode_utf8(t).len() as u16,
                        ));
                        assert(n == encode_utf8(t).len());
                        assert(mid.remaining().take(n as int) =~= encode_utf8(t));
                        encode_utf8_valid_utf8(t);
                    }
                    assert(!text_decode_ok(old(self).remaining()));
                }
                Err(DecodeError::InvalidText)
            },
        }
    }
}

/// Writes length-prefixed text: a 16-bit byte count, then the raw UTF-8
/// bytes.
pub fn write_text(out: &mut Vec<u8>, s: &str)
    requires
        text_wf(s@),
    ensures
        final (out)@ == old(out)@ + enc_text(s@),
{
    let bytes: &[u8] = s.as_bytes();
    let n: u16 = bytes.len() as u16;
    let mut lenb = u16_to_le_bytes(n);
    out.append(&mut lenb);
    let mut bv = slice_to_vec(bytes);
    out.append(&mut bv);
    proof {
        assert(final (out)@ =~= old(out)@ + enc_text(s@));
    }
}

/// Chaining two consumptions: when `b` was reached from `a` by consuming
/// `x`, and `c` from `b` by consuming `y`, then `c` was reached from `a`
/// by consuming `x + y`.
pub proof fn lemma_consumed_chain(a: Reader, b: Reader, c: Reader, x: Seq<u8>, y: Seq<u8>)
    requires
        a.wf(),
        b.wf(),
        c.wf(),
        a.bytes() == b.bytes(),
        b.bytes() == c.bytes(),
        a.position() <= b.position() <= c.position(),
        b.position() == a.position() + x.len(),
        c.position() == b.position() + y.len(),
        a.remaining().take(x.len() as int) == x,
        b.remaining().take(y.len() as int) == y,
    ensures
        c.position() == a.position() + (x + y).len(),
        a.remaining().take((x + y).len() as int) == x + y,
{
    assert(a.remaining().take((x + y).len() as int) =~= x + y);
}

/// What remains at `b` is what remained at `a` minus the bytes between
/// the two positions.
pub proof fn lemma_reader_skip(a: Reader, b: Reader)
    requires
        a.wf(),
        b.wf(),
        a.bytes() == b.bytes(),
        a.position() <= b.position(),
    ensures
        b.remaining() == a.remaining().skip(b.position() - a.position()),
{
    assert(b.remaining() =~= a.remaining().skip(b.position() - a.position()));
}

/// Relies on `String::from_utf8`: it returns the string whose UTF-8
/// encoding is exactly the given bytes, and fails precisely when the
/// bytes are not valid UTF-8.
#[verifier::external_body]
fn string_from_utf8(bytes: Vec<u8>) -> (r: Option<String>)
    ensures
        r matches Some(s) ==> encode_utf8(s@) == bytes@,
        r is None <==> !valid_utf8(bytes@),
{
    match String::from_utf8(bytes) {
        Ok(s) => Some(s),
        Err(_) => None,
    }
}

} // verus!
