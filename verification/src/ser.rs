//! A serializer that writes plain values as text into a byte buffer: numbers in
//! decimal, `true` or `false`, a character as itself, a string quoted and escaped as
//! Rust's debug form writes it, bytes as they are, nothing for an absent value, and the
//! elements of a tuple separated by spaces. Other shapes are refused.
use crate::text::{digits_of, push_digits, push_char};
use vstd::prelude::*;
use vstd::string::StringSliceAdditionalSpecFns;

verus! {

/// Why a value could not be written.
#[derive(Debug)]
pub struct Error {
    pub message: String,
}

/// The bytes of ASCII text.
pub open spec fn ascii_bytes(s: Seq<char>) -> Seq<u8> {
    s.map_values(|c: char| c as u8)
}

/// The decimal text of a signed number.
pub open spec fn signed_decimal(v: int) -> Seq<char> {
    if v < 0 {
        seq!['-'] + digits_of((-v) as nat, 10)
    } else {
        digits_of(v as nat, 10)
    }
}

/// How Rust's debug form writes a string: quoted, with quotes, backslashes and
/// unprintable characters escaped.
pub uninterp spec fn str_debug_text(s: Seq<char>) -> Seq<char>;

/// `format!("{:?}", s)`: the string in Rust's debug form.
#[verifier::external_body]
fn debug_text(s: &str) -> (r: String)
    ensures
        r@ == str_debug_text(s@),
{
    format!("{:?}", s)
}

/// Writes values as text into a buffer of bytes.
#[derive(Debug)]
pub struct Serializer {
    buf: Vec<u8>,
}

/// Writes the elements of a tuple, with a space between each two.
#[derive(Debug)]
pub struct TupleSerializer {
    remaining: usize,
    started: bool,
}

impl Serializer {
    /// The bytes written so far, after what the buffer held.
    pub closed spec fn bytes(&self) -> Seq<u8> {
        self.buf@
    }

    /// A serializer writing after the contents of `buf`.
    pub fn new(buf: Vec<u8>) -> (r: Serializer)
        ensures
            r.bytes() == buf@,
    {
        Serializer { buf }
    }

    /// Finishes writing and gives the buffer back.
    pub fn end(self) -> (r: Result<Vec<u8>, Error>)
        ensures
            r is Ok && r.unwrap()@ == self.bytes(),
    {
        Ok(self.buf)
    }

    /// Appends ASCII characters.
    fn push_ascii(&mut self, cs: &Vec<char>)
        requires
            forall|i: int| 0 <= i < cs@.len() ==> (cs@[i] as u32) < 128,
        ensures
            final(self).bytes() == old(self).bytes() + ascii_bytes(cs@),
    {
        let mut i: usize = 0;
        while i < cs.len()
            invariant
                i <= cs@.len(),
                forall|k: int| 0 <= k < cs@.len() ==> (cs@[k] as u32) < 128,
                self.buf@ == old(self).buf@ + ascii_bytes(cs@.take(i as int)),
            decreases cs@.len() - i,
        {
            let c = cs[i];
            self.buf.push(c as u8);
            i = i + 1;
            assert(self.buf@ =~= old(self).buf@ + ascii_bytes(cs@.take(i as int)));
        }
        assert(cs@.take(cs@.len() as int) =~= cs@);
    }

    /// Appends bytes.
    fn push_bytes(&mut self, bs: &[u8])
        ensures
            final(self).bytes() == old(self).bytes() + bs@,
    {
        let mut i: usize = 0;
        while i < bs.len()
            invariant
                i <= bs@.len(),
                self.buf@ == old(self).buf@ + bs@.take(i as int),
            decreases bs@.len() - i,
        {
            self.buf.push(bs[i]);
            i = i + 1;
            assert(self.buf@ =~= old(self).buf@ + bs@.take(i as int));
        }
        assert(bs@.take(bs@.len() as int) =~= bs@);
    }

    /// Writes `true` or `false`.
    pub fn serialize_bool(&mut self, v: bool) -> (r: Result<(), Error>)
        ensures
            r is Ok,
            final(self).bytes() == old(self).bytes() + ascii_bytes(
                if v {
                    seq!['t', 'r', 'u', 'e']
                } else {
                    seq!['f', 'a', 'l', 's', 'e']
                },
            ),
    {
        let cs = if v {
            vec!['t', 'r', 'u', 'e']
        } else {
            vec!['f', 'a', 'l', 's', 'e']
        };
        assert(cs@ =~= if v {
            seq!['t', 'r', 'u', 'e']
        } else {
            seq!['f', 'a', 'l', 's', 'e']
        });
        self.push_ascii(&cs);
        Ok(())
    }

    /// Writes an unsigned number in decimal.
    pub fn serialize_u128(&mut self, v: u128) -> (r: Result<(), Error>)
        ensures
            r is Ok,
            final(self).bytes() == old(self).bytes() + ascii_bytes(digits_of(v as nat, 10)),
    {
        let mut cs: Vec<char> = Vec::new();
        push_digits(&mut cs, v, 10);
        assert(cs@ =~= digits_of(v as nat, 10));
        proof {
            lemma_decimal_ascii(v as nat);
        }
        self.push_ascii(&cs);
        Ok(())
    }

    /// Writes a signed number in decimal, with `-` before a negative one.
    pub fn serialize_i128(&mut self, v: i128) -> (r: Result<(), Error>)
        ensures
            r is Ok,
            final(self).bytes() == old(self).bytes() + ascii_bytes(signed_decimal(v as int)),
    {
        let mut cs: Vec<char> = Vec::new();
        if v < 0 {
            cs.push('-');
            let m: u128 = ((-(v + 1)) as u128) + 1;
            push_digits(&mut cs, m, 10);
            proof {
                lemma_decimal_ascii(m as nat);
            }
        } else {
            push_digits(&mut cs, v as u128, 10);
            proof {
                lemma_decimal_ascii(v as nat);
            }
        }
        assert(cs@ =~= signed_decimal(v as int));
        self.push_ascii(&cs);
        Ok(())
    }

    /// Writes an `i8` in decimal.
    pub fn serialize_i8(&mut self, v: i8) -> (r: Result<(), Error>)
        ensures
            r is Ok,
            final(self).bytes() == old(self).bytes() + ascii_bytes(signed_decimal(v as int)),
    {
        self.serialize_i128(v as i128)
    }

    /// Writes an `i16` in decimal.
    pub fn serialize_i16(&mut self, v: i16) -> (r: Result<(), Error>)
        ensures
            r is Ok,
            final(self).bytes() == old(self).bytes() + ascii_bytes(signed_decimal(v as int)),
    {
        self.serialize_i128(v as i128)
    }

    /// Writes an `i32` in decimal.
    pub fn serialize_i32(&mut self, v: i32) -> (r: Result<(), Error>)
        ensures
            r is Ok,
            final(self).bytes() == old(self).bytes() + ascii_bytes(signed_decimal(v as int)),
    {
        self.serialize_i128(v as i128)
    }

    /// Writes an `i64` in decimal.
    pub fn serialize_i64(&mut self, v: i64) -> (r: Result<(), Error>)
        ensures
            r is Ok,
            final(self).bytes() == old(self).bytes() + ascii_bytes(signed_decimal(v as int)),
    {
        self.serialize_i128(v as i128)
    }

    /// Writes a `u8` in decimal.
    pub fn serialize_u8(&mut self, v: u8) -> (r: Result<(), Error>)
        ensures
            r is Ok,
            final(self).bytes() == old(self).bytes() + ascii_bytes(digits_of(v as nat, 10)),
    {
        self.serialize_u128(v as u128)
    }

    /// Writes a `u16` in decimal.
    pub fn serialize_u16(&mut self, v: u16) -> (r: Result<(), Error>)
        ensures
            r is Ok,
            final(self).bytes() == old(self).bytes() + ascii_bytes(digits_of(v as nat, 10)),
    {
        self.serialize_u128(v as u128)
    }

    /// Writes a `u32` in decimal.
    pub fn serialize_u32(&mut self, v: u32) -> (r: Result<(), Error>)
        ensures
            r is Ok,
            final(self).bytes() == old(self).bytes() + ascii_bytes(digits_of(v as nat, 10)),
    {
        self.serialize_u128(v as u128)
    }

    /// Writes a `u64` in decimal.
    pub fn serialize_u64(&mut self, v: u64) -> (r: Result<(), Error>)
        ensures
            r is Ok,
            final(self).bytes() == old(self).bytes() + ascii_bytes(digits_of(v as nat, 10)),
    {
        self.serialize_u128(v as u128)
    }

    /// Writes a character as itself, in UTF-8.
    pub fn serialize_char(&mut self, v: char) -> (r: Result<(), Error>)
        ensures
            r is Ok,
            final(self).bytes() == old(self).bytes() + vstd::utf8::encode_utf8(seq![v]),
    {
        let mut s = String::new();
        push_char(&mut s, v);
        assert(s@ =~= seq![v]);
        self.push_bytes(s.as_str().as_bytes());
        Ok(())
    }

    /// Writes a string quoted and escaped, as Rust's debug form writes it.
    pub fn serialize_str(&mut self, v: &str) -> (r: Result<(), Error>)
        ensures
            r is Ok,
            final(self).bytes() == old(self).bytes() + vstd::utf8::encode_utf8(str_debug_text(v@)),
    {
        let t = debug_text(v);
        self.serialize_bytes(t.as_str().as_bytes())
    }

    /// Writes bytes as they are.
    pub fn serialize_bytes(&mut self, v: &[u8]) -> (r: Result<(), Error>)
        ensures
            r is Ok,
            final(self).bytes() == old(self).bytes() + v@,
    {
        self.push_bytes(v);
        Ok(())
    }

    /// An absent value writes nothing.
    pub fn serialize_none(&mut self) -> (r: Result<(), Error>)
        ensures
            r is Ok,
            final(self).bytes() == old(self).bytes(),
    {
        Ok(())
    }

    /// The unit value is refused.
    pub fn serialize_unit(&mut self) -> (r: Result<(), Error>)
        ensures
            r is Err && r->Err_0.message@ == unsupported(),
            final(self).bytes() == old(self).bytes(),
    {
        Err(Error { message: unsupported_text() })
    }

    /// A shape with a name (unit or newtype struct or variant, tuple struct or variant,
    /// struct or struct variant) is refused, naming it.
    pub fn refuse_named(&mut self, name: &str) -> (r: Result<(), Error>)
        ensures
            r is Err && r->Err_0.message@ == unsupported() + seq![':', ' '] + name@,
            final(self).bytes() == old(self).bytes(),
    {
        let mut m = unsupported_text();
        push_char(&mut m, ':');
        push_char(&mut m, ' ');
        let cs = crate::text::chars_of(name);
        let mut i: usize = 0;
        while i < cs.len()
            invariant
                i <= cs@.len(),
                cs@ == name@,
                m@ == unsupported() + seq![':', ' '] + cs@.take(i as int),
            decreases cs@.len() - i,
        {
            push_char(&mut m, cs[i]);
            i = i + 1;
            assert(m@ =~= unsupported() + seq![':', ' '] + cs@.take(i as int));
        }
        assert(cs@.take(cs@.len() as int) =~= cs@);
        Err(Error { message: m })
    }

    /// Starts a tuple of `len` elements.
    pub fn serialize_tuple(&mut self, len: usize) -> (r: TupleSerializer)
        ensures
            r.remaining_count() == len,
            !r.has_started(),
            final(self).bytes() == old(self).bytes(),
    {
        TupleSerializer { remaining: len, started: false }
    }
}

/// The text `unsupported type`.
pub open spec fn unsupported() -> Seq<char> {
    seq!['u', 'n', 's', 'u', 'p', 'p', 'o', 'r', 't', 'e', 'd', ' ', 't', 'y', 'p', 'e']
}

fn unsupported_text() -> (r: String)
    ensures
        r@ == unsupported(),
{
    let cs = vec!['u', 'n', 's', 'u', 'p', 'p', 'o', 'r', 't', 'e', 'd', ' ', 't', 'y', 'p', 'e'];
    assert(cs@ =~= unsupported());
    crate::text::string_from_chars(&cs)
}

/// Decimal digits are ASCII.
proof fn lemma_decimal_ascii(v: nat)
    ensures
        forall|i: int| 0 <= i < digits_of(v, 10).len() ==> (digits_of(v, 10)[i] as u32) < 128,
    decreases v,
{
    if v >= 10 {
        lemma_decimal_ascii(v / 10);
        let p = digits_of(v / 10, 10);
        assert forall|i: int| 0 <= i < digits_of(v, 10).len() implies (digits_of(v, 10)[i] as u32) < 128 by {
            if i < p.len() {
                assert(digits_of(v, 10)[i] == p[i]);
            }
        }
    }
}

impl TupleSerializer {
    /// How many elements are still to come.
    pub closed spec fn remaining_count(&self) -> nat {
        self.remaining as nat
    }

    /// Some element has been written.
    pub closed spec fn has_started(&self) -> bool {
        self.started
    }

    /// Readies `ser` for the next element: a space before every element but the first.
    /// The element itself is then written into `ser`. No more elements may come than
    /// the tuple was started with.
    pub fn serialize_element(&mut self, ser: &mut Serializer)
        requires
            old(self).remaining_count() > 0,
        ensures
            final(self).remaining_count() == old(self).remaining_count() - 1,
            final(self).has_started(),
            final(ser).bytes() == if old(self).has_started() {
                old(ser).bytes().push(32u8)
            } else {
                old(ser).bytes()
            },
    {
        self.remaining = self.remaining - 1;
        if self.started {
            ser.buf.push(32u8);
        }
        self.started = true;
    }

    /// Finishes the tuple.
    pub fn end(self, ser: &mut Serializer) -> (r: Result<(), Error>)
        ensures
            r is Ok,
            final(ser).bytes() == old(ser).bytes(),
    {
        Ok(())
    }
}

} // verus!
