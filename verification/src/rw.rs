//! Sequential byte primitives over an in-memory stream: big-endian unsigned
//! reads and writes of 1, 2, 4 or 8 bytes, sharing one width-parameterized
//! implementation.

use vstd::prelude::*;

use crate::error::{ReadError, WriteError};
use crate::wire::{
    be_enc, enc_u16, enc_u32, enc_u64, enc_u8, lemma_pow256_values, lemma_subrange_push, pow256,
};

verus! {

pub type ReadResult<T> = Result<T, ReadError>;

pub type WriteResult<T> = Result<T, WriteError>;

/// Reads the raw bytes of a class file front to back, one fixed-width
/// big-endian integer at a time.
pub struct Reader {
    data: Vec<u8>,
    pos: usize,
}

impl Reader {
    /// The whole underlying stream.
    pub closed spec fn bytes(&self) -> Seq<u8> {
        self.data@
    }

    /// The position of the next unread byte.
    pub closed spec fn posn(&self) -> nat {
        self.pos as nat
    }

    pub fn new(data: Vec<u8>) -> (r: Reader)
        ensures
            r.bytes() == data@,
            r.posn() == 0,
    {
        Reader { data, pos: 0 }
    }

    /// The current stream position, for error reports.
    pub fn position(&self) -> (r: usize)
        ensures
            r as int == self.posn(),
    {
        self.pos
    }

    /// One implementation shared by all four widths: an `n`-byte big-endian
    /// unsigned read, most significant byte first.
    fn read_n(&mut self, n: usize) -> (r: u64)
        requires
            n <= 8,
            old(self).posn() + n <= old(self).bytes().len(),
        ensures
            final(self).bytes() == old(self).bytes(),
            final(self).posn() == old(self).posn() + n,
            (r as nat) < pow256(n as nat),
            old(self).bytes().subrange(old(self).posn() as int, old(self).posn() as int + n) == be_enc(
                r as nat,
                n as nat,
            ),
        decreases n,
    {
        if n == 0 {
            proof {
                assert(old(self).bytes().subrange(old(self).posn() as int, old(self).posn() as int)
                    =~= Seq::<u8>::empty());
            }
            0
        } else {
            let hi = self.read_n(n - 1);
            let b = self.data[self.pos];
            let whole_len = self.data.len();
            proof {
                assert(self.pos + 1 <= whole_len);
                lemma_pow256_values();
                assert(pow256(n as nat) == 256 * pow256((n - 1) as nat));
                assert((hi as nat) * 256 + (b as nat) < pow256(n as nat)) by (nonlinear_arith)
                    requires
                        (hi as nat) < pow256(((n as nat) - 1) as nat),
                        (b as nat) < 256,
                        pow256(n as nat) == 256 * pow256(((n as nat) - 1) as nat),
                ;
                crate::wire::lemma_pow256_le(n as nat, 8);
            }
            let r = hi * 256 + (b as u64);
            self.pos = self.pos + 1;
            proof {
                vstd::arithmetic::div_mod::lemma_fundamental_div_mod_converse(
                    r as int,
                    256,
                    hi as int,
                    b as int,
                );
                assert(be_enc(r as nat, n as nat) == be_enc((r as nat) / 256, ((n as nat)
                    - 1) as nat).push(((r as nat) % 256) as u8));
                lemma_subrange_push(old(self).bytes(), old(self).posn() as int, old(self).posn() as int + n - 1);
            }
            r
        }
    }

    /// Read an unsigned byte (8 bits) from the byte stream.
    pub fn read_unsigned_byte(&mut self) -> (r: ReadResult<u8>)
        ensures
            final(self).bytes() == old(self).bytes(),
            match r {
                Ok(v) => final(self).posn() == old(self).posn() + 1 && old(self).posn() + 1 <= old(
                    self,
                ).bytes().len() && old(self).bytes().subrange(
                    old(self).posn() as int,
                    old(self).posn() as int + 1,
                ) == enc_u8(v),
                Err(_) => *final(self) == *old(self) && old(self).posn() + 1 > old(
                    self,
                ).bytes().len(),
            },
    {
        let len = self.data.len();
        if self.pos < len && len - self.pos >= 1 {
            proof {
                lemma_pow256_values();
            }
            let v = self.read_n(1);
            Ok(v as u8)
        } else {
            Err(ReadError::new(String::from_str("unexpected end of input")))
        }
    }

    /// Read an unsigned short (16 bits) from the byte stream.
    pub fn read_unsigned_short(&mut self) -> (r: ReadResult<u16>)
        ensures
            final(self).bytes() == old(self).bytes(),
            match r {
                Ok(v) => final(self).posn() == old(self).posn() + 2 && old(self).posn() + 2 <= old(
                    self,
                ).bytes().len() && old(self).bytes().subrange(
                    old(self).posn() as int,
                    old(self).posn() as int + 2,
                ) == enc_u16(v),
                Err(_) => *final(self) == *old(self) && old(self).posn() + 2 > old(
                    self,
                ).bytes().len(),
            },
    {
        let len = self.data.len();
        if self.pos < len && len - self.pos >= 2 {
            proof {
                lemma_pow256_values();
            }
            let v = self.read_n(2);
            Ok(v as u16)
        } else {
            Err(ReadError::new(String::from_str("unexpected end of input")))
        }
    }

    /// Read an unsigned int (32 bits) from the byte stream.
    pub fn read_unsigned_int(&mut self) -> (r: ReadResult<u32>)
        ensures
            final(self).bytes() == old(self).bytes(),
            match r {
                Ok(v) => final(self).posn() == old(self).posn() + 4 && old(self).posn() + 4 <= old(
                    self,
                ).bytes().len() && old(self).bytes().subrange(
                    old(self).posn() as int,
                    old(self).posn() as int + 4,
                ) == enc_u32(v),
                Err(_) => *final(self) == *old(self) && old(self).posn() + 4 > old(
                    self,
                ).bytes().len(),
            },
    {
        let len = self.data.len();
        if self.pos < len && len - self.pos >= 4 {
            proof {
                lemma_pow256_values();
            }
            let v = self.read_n(4);
            Ok(v as u32)
        } else {
            Err(ReadError::new(String::from_str("unexpected end of input")))
        }
    }

    /// Read an unsigned long (64 bits) from the byte stream.
    pub fn read_unsigned_long(&mut self) -> (r: ReadResult<u64>)
        ensures
            final(self).bytes() == old(self).bytes(),
            match r {
                Ok(v) => final(self).posn() == old(self).posn() + 8 && old(self).posn() + 8 <= old(
                    self,
                ).bytes().len() && old(self).bytes().subrange(
                    old(self).posn() as int,
                    old(self).posn() as int + 8,
                ) == enc_u64(v),
                Err(_) => *final(self) == *old(self) && old(self).posn() + 8 > old(
                    self,
                ).bytes().len(),
            },
    {
        let len = self.data.len();
        if self.pos < len && len - self.pos >= 8 {
            proof {
                lemma_pow256_values();
            }
            let v = self.read_n(8);
            Ok(v)
        } else {
            Err(ReadError::new(String::from_str("unexpected end of input")))
        }
    }
}

/// Appends the raw bytes of a class file to an in-memory sink, one
/// fixed-width big-endian integer at a time.
pub struct Writer {
    out: Vec<u8>,
}

impl View for Writer {
    type V = Seq<u8>;

    closed spec fn view(&self) -> Seq<u8> {
        self.out@
    }
}

impl Writer {
    /// Start writing at the end of `out`.
    pub fn new(out: Vec<u8>) -> (r: Writer)
        ensures
            r@ == out@,
    {
        Writer { out }
    }

    /// Hand back everything written so far.
    pub fn into_inner(self) -> (r: Vec<u8>)
        ensures
            r@ == self@,
    {
        self.out
    }

    /// One implementation shared by all four widths: an `n`-byte big-endian
    /// unsigned write, most significant byte first.
    fn write_n(&mut self, v: u64, n: usize)
        requires
            n <= 8,
            (v as nat) < pow256(n as nat),
        ensures
            final(self)@ == old(self)@ + be_enc(v as nat, n as nat),
        decreases n,
    {
        if n == 0 {
            proof {
                assert(old(self)@ + be_enc(v as nat, 0) =~= old(self)@);
            }
        } else {
            proof {
                assert(pow256(n as nat) == 256 * pow256((n - 1) as nat));
                vstd::arithmetic::div_mod::lemma_fundamental_div_mod(v as int, 256);
                if (v as int) / 256 >= pow256(((n as nat) - 1) as nat) {
                    assert(256 * ((v as int) / 256) >= 256 * pow256(((n as nat) - 1) as nat))
                        by (nonlinear_arith)
                        requires
                            (v as int) / 256 >= pow256(((n as nat) - 1) as nat),
                    ;
                    assert(false);
                }
            }
            self.write_n(v / 256, n - 1);
            self.out.push((v % 256) as u8);
            proof {
                assert((old(self)@ + be_enc((v as nat) / 256, ((n as nat) - 1) as nat)).push(
                    ((v as nat) % 256) as u8,
                ) =~= old(self)@ + be_enc(v as nat, n as nat));
            }
        }
    }

    /// Write an unsigned byte (8 bits) to the byte stream.
    pub fn write_unsigned_byte(&mut self, b: u8) -> (r: WriteResult<()>)
        ensures
            r is Ok,
            final(self)@ == old(self)@ + enc_u8(b),
    {
        proof {
            lemma_pow256_values();
        }
        self.write_n(b as u64, 1);
        Ok(())
    }

    /// Write an unsigned short (16 bits) to the byte stream.
    pub fn write_unsigned_short(&mut self, s: u16) -> (r: WriteResult<()>)
        ensures
            r is Ok,
            final(self)@ == old(self)@ + enc_u16(s),
    {
        proof {
            lemma_pow256_values();
        }
        self.write_n(s as u64, 2);
        Ok(())
    }

    /// Write an unsigned int (32 bits) to the byte stream.
    pub fn write_unsigned_int(&mut self, i: u32) -> (r: WriteResult<()>)
        ensures
            r is Ok,
            final(self)@ == old(self)@ + enc_u32(i),
    {
        proof {
            lemma_pow256_values();
        }
        self.write_n(i as u64, 4);
        Ok(())
    }

    /// Write an unsigned long (64 bits) to the byte stream.
    pub fn write_unsigned_long(&mut self, l: u64) -> (r: WriteResult<()>)
        ensures
            r is Ok,
            final(self)@ == old(self)@ + enc_u64(l),
    {
        proof {
            lemma_pow256_values();
        }
        self.write_n(l, 8);
        Ok(())
    }
}

} // verus!
