//! The wire-protocol encoder: formats each reply as exact bytes appended to
//! the connection's output buffer.
use crate::bytebuf::bm_extend;
use crate::bytebuf::bm_view;
use bytes::BytesMut;
use vstd::prelude::*;
use vstd::string::StringSliceAdditionalSpecFns;

verus! {

/// Decimal digits of `n`, most significant first, as ASCII bytes.
pub open spec fn spec_decimal(n: nat) -> Seq<u8>
    decreases n,
{
    if n < 10 {
        seq![(48 + n) as u8]
    } else {
        spec_decimal(n / 10) + seq![(48 + n % 10) as u8]
    }
}

/// A bulk string frame: `$<byte-length>\r\n<bytes>\r\n`.
pub open spec fn spec_bulk_string(b: Seq<u8>) -> Seq<u8> {
    seq![36u8] + spec_decimal(b.len()) + seq![13u8, 10u8] + b + seq![13u8, 10u8]
}

/// An array frame: `*<n>\r\n` followed by each element as a bulk string.
pub open spec fn spec_array(items: Seq<Seq<u8>>) -> Seq<u8> {
    seq![42u8] + spec_decimal(items.len()) + seq![13u8, 10u8] + spec_bulk_concat(items)
}

/// The bulk string frames of `items`, in order.
pub open spec fn spec_bulk_concat(items: Seq<Seq<u8>>) -> Seq<u8>
    decreases items.len(),
{
    if items.len() == 0 {
        Seq::empty()
    } else {
        spec_bulk_concat(items.drop_last()) + spec_bulk_string(items.last())
    }
}

/// The simple-string reply `+PONG\r\n`.
pub open spec fn spec_resp_pong() -> Seq<u8> {
    seq![43u8, 80u8, 79u8, 78u8, 71u8, 13u8, 10u8]
}

/// The simple-string reply `+OK\r\n`.
pub open spec fn spec_resp_ok() -> Seq<u8> {
    seq![43u8, 79u8, 75u8, 13u8, 10u8]
}

/// The generic error reply `-ERR unknown command\r\n`.
pub open spec fn spec_resp_error() -> Seq<u8> {
    seq![
        45u8,
        69u8,
        82u8,
        82u8,
        32u8,
        117u8,
        110u8,
        107u8,
        110u8,
        111u8,
        119u8,
        110u8,
        32u8,
        99u8,
        111u8,
        109u8,
        109u8,
        97u8,
        110u8,
        100u8,
        13u8,
        10u8,
    ]
}

/// The null bulk string `$-1\r\n`.
pub open spec fn spec_resp_null() -> Seq<u8> {
    seq![36u8, 45u8, 49u8, 13u8, 10u8]
}

/// The empty array `*0\r\n`.
pub open spec fn spec_resp_empty_array() -> Seq<u8> {
    seq![42u8, 48u8, 13u8, 10u8]
}

/// The null array `*-1\r\n`.
pub open spec fn spec_resp_null_array() -> Seq<u8> {
    seq![42u8, 45u8, 49u8, 13u8, 10u8]
}

/// Appends the bytes of `s` to `out`.
pub(crate) fn push_all(out: &mut Vec<u8>, s: &[u8])
    ensures
        final(out)@ == old(out)@ + s@,
{
    let mut i: usize = 0;
    while i < s.len()
        invariant
            i <= s@.len(),
            out@ == old(out)@ + s@.take(i as int),
        decreases s@.len() - i,
    {
        let b = s[i];
        out.push(b);
        proof {
            assert(old(out)@ + s@.take(i + 1) =~= (old(out)@ + s@.take(i as int)).push(s@[i as int]));
        }
        i = i + 1;
    }
    proof {
        assert(s@.take(s@.len() as int) =~= s@);
    }
}

/// Appends the decimal digits of `n` to `out`.
pub(crate) fn push_decimal(n: usize, out: &mut Vec<u8>)
    ensures
        final(out)@ == old(out)@ + spec_decimal(n as nat),
    decreases n,
{
    if n >= 10 {
        push_decimal(n / 10, out);
    }
    out.push(48 + (n % 10) as u8);
    proof {
        if n >= 10 {
            assert(final(out)@ =~= old(out)@ + spec_decimal(n as nat));
        } else {
            assert(final(out)@ =~= old(out)@ + spec_decimal(n as nat));
        }
    }
}

/// Appends a bulk string frame for byte content `b` to `out`.
pub(crate) fn push_bulk_string(out: &mut Vec<u8>, b: &[u8])
    ensures
        final(out)@ == old(out)@ + spec_bulk_string(b@),
{
    out.push(36);
    push_decimal(b.len(), out);
    out.push(13);
    out.push(10);
    push_all(out, b);
    out.push(13);
    out.push(10);
    proof {
        assert(final(out)@ =~= old(out)@ + spec_bulk_string(b@));
    }
}

/// The wire-protocol encoder. It is stateless: each method appends one
/// reply's exact bytes to the given buffer.
pub struct RedisEncoder;

impl RedisEncoder {
    pub fn new() -> RedisEncoder {
        RedisEncoder
    }

    /// Appends `+PONG\r\n`.
    pub fn encode_pong(&self, dst: &mut BytesMut)
        ensures
            bm_view(*final(dst)) == bm_view(*old(dst)) + spec_resp_pong(),
    {
        let mut v: Vec<u8> = Vec::new();
        v.push(43);
        v.push(80);
        v.push(79);
        v.push(78);
        v.push(71);
        v.push(13);
        v.push(10);
        proof {
            assert(v@ =~= spec_resp_pong());
        }
        bm_extend(dst, v.as_slice());
    }

    /// Appends `+OK\r\n`.
    pub fn encode_ok(&self, dst: &mut BytesMut)
        ensures
            bm_view(*final(dst)) == bm_view(*old(dst)) + spec_resp_ok(),
    {
        let mut v: Vec<u8> = Vec::new();
        v.push(43);
        v.push(79);
        v.push(75);
        v.push(13);
        v.push(10);
        proof {
            assert(v@ =~= spec_resp_ok());
        }
        bm_extend(dst, v.as_slice());
    }

    /// Appends the generic error reply `-ERR unknown command\r\n`.
    pub fn encode_error(&self, dst: &mut BytesMut)
        ensures
            bm_view(*final(dst)) == bm_view(*old(dst)) + spec_resp_error(),
    {
        let mut v: Vec<u8> = Vec::new();
        v.push(45);
        v.push(69);
        v.push(82);
        v.push(82);
        v.push(32);
        v.push(117);
        v.push(110);
        v.push(107);
        v.push(110);
        v.push(111);
        v.push(119);
        v.push(110);
        v.push(32);
        v.push(99);
        v.push(111);
        v.push(109);
        v.push(109);
        v.push(97);
        v.push(110);
        v.push(100);
        v.push(13);
        v.push(10);
        proof {
            assert(v@ =~= spec_resp_error());
        }
        bm_extend(dst, v.as_slice());
    }

    /// Appends the null bulk string `$-1\r\n`.
    pub fn encode_null(&self, dst: &mut BytesMut)
        ensures
            bm_view(*final(dst)) == bm_view(*old(dst)) + spec_resp_null(),
    {
        let mut v: Vec<u8> = Vec::new();
        v.push(36);
        v.push(45);
        v.push(49);
        v.push(13);
        v.push(10);
        proof {
            assert(v@ =~= spec_resp_null());
        }
        bm_extend(dst, v.as_slice());
    }

    /// Appends the bulk string frame of `s`: `$<byte-length>\r\n<s>\r\n`,
    /// the length counting bytes, not characters.
    pub fn encode_bulk_string(&self, dst: &mut BytesMut, s: &str)
        ensures
            bm_view(*final(dst)) == bm_view(*old(dst)) + spec_bulk_string(s.spec_bytes()),
    {
        let mut v: Vec<u8> = Vec::new();
        push_bulk_string(&mut v, s.as_bytes());
        proof {
            assert(v@ =~= spec_bulk_string(s.spec_bytes()));
        }
        bm_extend(dst, v.as_slice());
    }

    /// Appends an array frame: `*<n>\r\n` followed by each element as a
    /// bulk string.
    pub fn encode_array(&self, dst: &mut BytesMut, items: &[&str])
        ensures
            bm_view(*final(dst)) == bm_view(*old(dst)) + spec_array(
                items@.map(|i: int, s: &str| s.spec_bytes()),
            ),
    {
        let ghost bss = items@.map(|i: int, s: &str| s.spec_bytes());
        let mut v: Vec<u8> = Vec::new();
        v.push(42);
        push_decimal(items.len(), &mut v);
        v.push(13);
        v.push(10);
        let ghost header = v@;
        let mut i: usize = 0;
        proof {
            assert(spec_bulk_concat(bss.take(0)) =~= Seq::<u8>::empty());
            assert(v@ =~= header + spec_bulk_concat(bss.take(0)));
        }
        while i < items.len()
            invariant
                i <= items@.len(),
                bss.len() == items@.len(),
                bss == items@.map(|k: int, s: &str| s.spec_bytes()),
                v@ == header + spec_bulk_concat(bss.take(i as int)),
            decreases items@.len() - i,
        {
            let item: &str = items[i];
            push_bulk_string(&mut v, item.as_bytes());
            proof {
                assert(bss.take(i + 1).drop_last() =~= bss.take(i as int));
                assert(bss.take(i + 1).last() == bss[i as int]);
                assert(bss[i as int] == item.spec_bytes());
                assert(v@ =~= header + spec_bulk_concat(bss.take(i + 1)));
            }
            i = i + 1;
        }
        proof {
            assert(bss.take(bss.len() as int) =~= bss);
            assert(header + spec_bulk_concat(bss) =~= spec_array(bss));
        }
        bm_extend(dst, v.as_slice());
    }

    /// Appends the empty array `*0\r\n`.
    pub fn encode_empty_array(&self, dst: &mut BytesMut)
        ensures
            bm_view(*final(dst)) == bm_view(*old(dst)) + spec_resp_empty_array(),
    {
        let mut v: Vec<u8> = Vec::new();
        v.push(42);
        v.push(48);
        v.push(13);
        v.push(10);
        proof {
            assert(v@ =~= spec_resp_empty_array());
        }
        bm_extend(dst, v.as_slice());
    }

    /// Appends the null array `*-1\r\n`.
    pub fn encode_null_array(&self, dst: &mut BytesMut)
        ensures
            bm_view(*final(dst)) == bm_view(*old(dst)) + spec_resp_null_array(),
    {
        let mut v: Vec<u8> = Vec::new();
        v.push(42);
        v.push(45);
        v.push(49);
        v.push(13);
        v.push(10);
        proof {
            assert(v@ =~= spec_resp_null_array());
        }
        bm_extend(dst, v.as_slice());
    }
}

} // verus!
