//! An auxiliary frame decoder: splits a raw byte buffer into segments on
//! `\r\n` and extracts the payload that follows each `$<len>` length
//! segment.
use crate::text::bytes_to_string_lossy;
use crate::text::copy_range;
use crate::text::parse_usize_digits;
use crate::text::spec_parse_uint;
use crate::text::spec_text;
use std::collections::VecDeque;
use vstd::prelude::*;

verus! {

/// A decoded protocol value.
#[derive(Debug)]
pub enum Value {
    Array(Vec<Value>),
    String(String),
}

/// Index of the first `\r\n` pair at or after `i`, or the length if none
/// fits.
pub open spec fn spec_find_crlf(s: Seq<u8>, i: int) -> int
    decreases s.len() - i,
{
    if i < 0 || i + 1 >= s.len() {
        s.len() as int
    } else if s[i] == 13 && s[i + 1] == 10 {
        i
    } else {
        spec_find_crlf(s, i + 1)
    }
}

/// The segments of `s` from position `i`, split on `\r\n`: the delimiter is
/// dropped, and the bytes after the last delimiter form a final segment,
/// empty when nothing follows.
pub open spec fn spec_split_crlf(s: Seq<u8>, i: int) -> Seq<Seq<u8>>
    decreases s.len() - i,
{
    if i < 0 || i > s.len() {
        Seq::empty()
    } else {
        let k = spec_find_crlf(s, i);
        if i <= k && k + 2 <= s.len() && k < s.len() {
            seq![s.subrange(i, k)] + spec_split_crlf(s, k + 2)
        } else {
            seq![s.subrange(i, s.len() as int)]
        }
    }
}

/// Whether a segment is a `$<len>` length marker.
pub open spec fn spec_seg_is_dollar(seg: Seq<u8>) -> bool {
    seg.len() > 0 && seg[0] == 36
}

/// Well-formed segments: every `$<len>` marker parses as a number and is
/// followed by a segment of exactly that many bytes.
pub open spec fn spec_segments_wf(segs: Seq<Seq<u8>>) -> bool
    decreases segs.len(),
{
    if segs.len() == 0 {
        true
    } else if spec_seg_is_dollar(segs[0]) {
        &&& spec_parse_uint(segs[0].skip(1), usize::MAX as int) is Some
        &&& segs.len() >= 2
        &&& segs[1].len() == spec_parse_uint(segs[0].skip(1), usize::MAX as int).unwrap()
        &&& spec_segments_wf(segs.skip(2))
    } else {
        spec_segments_wf(segs.skip(1))
    }
}

/// The payloads of well-formed segments: the segment after each `$<len>`
/// marker, in order; anything else is passed over.
pub open spec fn spec_parse_segments(segs: Seq<Seq<u8>>) -> Seq<Seq<u8>>
    decreases segs.len(),
{
    if segs.len() == 0 {
        Seq::empty()
    } else if spec_seg_is_dollar(segs[0]) {
        if segs.len() >= 2 {
            seq![segs[1]] + spec_parse_segments(segs.skip(2))
        } else {
            Seq::empty()
        }
    } else {
        spec_parse_segments(segs.skip(1))
    }
}

/// The auxiliary decoder: holds the segments still to be consumed.
pub struct Decoder {
    data: Vec<Vec<u8>>,
}

impl Decoder {
    /// The segments held, as byte sequences.
    pub closed spec fn segs(&self) -> Seq<Seq<u8>> {
        self.data@.map(|i: int, v: Vec<u8>| v@)
    }

    /// Well-formedness of the held segments, which `parse` demands.
    pub open spec fn wf(&self) -> bool {
        spec_segments_wf(self.segs())
    }

    /// Splits a buffer into segments on `\r\n`.
    pub fn new(data: Vec<u8>) -> (r: Decoder)
        ensures
            r.segs() == spec_split_crlf(data@, 0),
    {
        let ghost s = data@;
        let mut out: Vec<Vec<u8>> = Vec::new();
        let mut i: usize = 0;
        proof {
            assert(data.len() == data@.len());
        }
        loop
            invariant_except_break
                spec_split_crlf(s, 0) == out@.map(|k: int, v: Vec<u8>| v@) + spec_split_crlf(
                    s,
                    i as int,
                ),
            invariant
                i <= s.len(),
                s == data@,
                s.len() <= usize::MAX,
            ensures
                spec_split_crlf(s, 0) == out@.map(|k: int, v: Vec<u8>| v@),
            decreases s.len() + 1 - i,
        {
            let ghost before = out@.map(|k: int, v: Vec<u8>| v@);
            let k = find_crlf_from(&data, i);
            if k < data.len() {
                out.push(copy_range(&data, i, k - i));
                proof {
                    assert(out@.map(|k2: int, v: Vec<u8>| v@) =~= before + seq![
                        s.subrange(i as int, k as int),
                    ]);
                    assert(before + (seq![s.subrange(i as int, k as int)] + spec_split_crlf(
                        s,
                        k + 2,
                    )) =~= (before + seq![s.subrange(i as int, k as int)]) + spec_split_crlf(
                        s,
                        k + 2,
                    ));
                }
                i = k + 2;
            } else {
                out.push(copy_range(&data, i, data.len() - i));
                proof {
                    assert(out@.map(|k2: int, v: Vec<u8>| v@) =~= before + seq![
                        s.subrange(i as int, s.len() as int),
                    ]);
                    assert(spec_split_crlf(s, i as int) =~= seq![
                        s.subrange(i as int, s.len() as int),
                    ]);
                    assert(before + seq![s.subrange(i as int, s.len() as int)] =~= before
                        + spec_split_crlf(s, i as int));
                }
                break ;
            }
        }
        Decoder { data: out }
    }

    /// Consumes every held segment and returns the payload that followed
    /// each `$<len>` marker, decoded permissively.
    pub fn parse(&mut self) -> (r: VecDeque<String>)
        requires
            old(self).wf(),
        ensures
            final(self).segs() == Seq::<Seq<u8>>::empty(),
            r@.len() == spec_parse_segments(old(self).segs()).len(),
            forall|i: int|
                0 <= i < r@.len() ==> (#[trigger] r@[i])@ == spec_text(
                    spec_parse_segments(old(self).segs())[i],
                ),
    {
        let ghost segs = self.segs();
        let mut arr: VecDeque<String> = VecDeque::new();
        let ghost mut built: Seq<Seq<u8>> = Seq::empty();
        let mut i: usize = 0;
        proof {
            assert(self.data.len() == self.data@.len());
            assert(segs.skip(0) =~= segs);
        }
        while i < self.data.len()
            invariant
                i <= self.data@.len(),
                self.segs() == segs,
                self.data@.len() == segs.len(),
                spec_segments_wf(segs.skip(i as int)),
                spec_parse_segments(segs) == built + spec_parse_segments(segs.skip(i as int)),
                arr@.len() == built.len(),
                forall|k: int|
                    0 <= k < built.len() ==> (#[trigger] arr@[k])@ == spec_text(built[k]),
            decreases self.data@.len() - i,
        {
            let ghost rest = segs.skip(i as int);
            let seg = &self.data[i];
            proof {
                assert(rest[0] == seg@);
            }
            if seg.len() > 0 && seg[0] == 36 {
                let digits = copy_range(seg, 1, seg.len() - 1);
                proof {
                    assert(digits@ =~= rest[0].skip(1));
                }
                let string_length = match parse_usize_digits(&digits) {
                    Some(n) => n,
                    None => {
                        proof {
                            assert(false);
                        }
                        0
                    },
                };
                let payload = &self.data[i + 1];
                proof {
                    assert(rest[1] == payload@);
                    assert(rest.skip(2) =~= segs.skip(i + 2));
                }
                arr.push_back(bytes_to_string_lossy(payload));
                proof {
                    built = built + seq![rest[1]];
                    assert(spec_parse_segments(rest) =~= seq![rest[1]] + spec_parse_segments(
                        segs.skip(i + 2),
                    ));
                }
                i = i + 2;
            } else {
                proof {
                    assert(rest.skip(1) =~= segs.skip(i + 1));
                }
                i = i + 1;
            }
        }
        proof {
            assert(segs.skip(segs.len() as int) =~= Seq::<Seq<u8>>::empty());
            assert(spec_parse_segments(segs) =~= built);
        }
        self.data = Vec::new();
        proof {
            assert(self.segs() =~= Seq::<Seq<u8>>::empty());
        }
        arr
    }
}

/// Index of the first `\r\n` pair at or after `start`, or the length.
fn find_crlf_from(bytes: &Vec<u8>, start: usize) -> (r: usize)
    requires
        start <= bytes@.len(),
    ensures
        r as int == spec_find_crlf(bytes@, start as int),
        start <= r <= bytes@.len(),
        r < bytes@.len() ==> r + 1 < bytes@.len() && bytes@[r as int] == 13 && bytes@[r + 1] == 10,
{
    let mut i = start;
    proof {
        assert(bytes.len() == bytes@.len());
    }
    loop
        invariant
            start <= i <= bytes@.len(),
            bytes@.len() <= usize::MAX,
            spec_find_crlf(bytes@, start as int) == spec_find_crlf(bytes@, i as int),
        ensures
            start <= i <= bytes@.len(),
            spec_find_crlf(bytes@, start as int) == spec_find_crlf(bytes@, i as int),
            i == bytes@.len() || (i + 1 < bytes@.len() && bytes@[i as int] == 13 && bytes@[i + 1]
                == 10),
        decreases bytes@.len() - i,
    {
        if i >= bytes.len() || i + 1 >= bytes.len() {
            proof {
                assert(spec_find_crlf(bytes@, i as int) == bytes@.len());
            }
            i = bytes.len();
            break ;
        }
        if bytes[i] == 13 && bytes[i + 1] == 10 {
            break ;
        }
        i = i + 1;
    }
    i
}

} // verus!
