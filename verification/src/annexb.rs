//! Conversion of H.264 access units from the length-prefixed AVCC layout,
//! in which MP4 files store them, to the Annex-B byte stream that decoders read.
use vstd::prelude::*;

verus! {

/// The Annex-B start code placed in front of every NAL unit.
pub open spec fn start_code() -> Seq<u8> {
    seq![0u8, 0u8, 0u8, 1u8]
}

/// The unsigned big-endian value of four bytes.
pub open spec fn be_u32(b0: u8, b1: u8, b2: u8, b3: u8) -> int {
    b0 * 16777216 + b1 * 65536 + b2 * 256 + b3
}

/// The length announced by the four-byte prefix at the front of `data`.
pub open spec fn nal_len(data: Seq<u8>) -> int
    recommends
        data.len() >= 4,
{
    be_u32(data[0], data[1], data[2], data[3])
}

/// Annex-B form of an AVCC buffer: each NAL unit `len (4 bytes, big endian) ++ payload`
/// becomes `00 00 00 01 ++ payload`. Conversion stops, dropping the rest, at the first
/// place where fewer than four bytes remain or where the announced length runs past the end.
pub open spec fn spec_annex_b(data: Seq<u8>) -> Seq<u8>
    decreases data.len(),
{
    if data.len() < 4 {
        seq![]
    } else {
        let len = nal_len(data);
        let rest = data.skip(4);
        if len <= rest.len() {
            start_code() + rest.take(len) + spec_annex_b(rest.skip(len))
        } else {
            seq![]
        }
    }
}

/// An AVCC buffer that converts completely: it is a sequence of whole NAL units.
pub open spec fn well_formed_avcc(data: Seq<u8>) -> bool
    decreases data.len(),
{
    if data.len() == 0 {
        true
    } else if data.len() < 4 {
        false
    } else {
        let len = nal_len(data);
        let rest = data.skip(4);
        len <= rest.len() && well_formed_avcc(rest.skip(len))
    }
}

/// Appends `src[start..end]` to `out`.
fn push_range(out: &mut Vec<u8>, src: &[u8], start: usize, end: usize)
    requires
        start <= end <= src@.len(),
    ensures
        final(out)@ == old(out)@ + src@.subrange(start as int, end as int),
{
    let mut i = start;
    while i < end
        invariant
            start <= i <= end <= src@.len(),
            out@ == old(out)@ + src@.subrange(start as int, i as int),
        decreases end - i,
    {
        out.push(src[i]);
        i = i + 1;
        assert(src@.subrange(start as int, i as int) =~= src@.subrange(start as int, i - 1).push(
            src@[i - 1],
        ));
    }
}

/// Appends the Annex-B start code to `out`.
fn push_start_code(out: &mut Vec<u8>)
    ensures
        final(out)@ == old(out)@ + start_code(),
{
    out.push(0u8);
    out.push(0u8);
    out.push(0u8);
    out.push(1u8);
    assert(out@ =~= old(out)@ + start_code());
}

/// Converts AVCC sample data (NAL units with a four-byte big-endian length prefix)
/// to Annex-B (NAL units behind the start code `00 00 00 01`).
pub fn avcc_to_annex_b(data: &[u8]) -> (out: Vec<u8>)
    ensures
        out@ == spec_annex_b(data@),
        out@.len() <= data@.len(),
        well_formed_avcc(data@) ==> out@.len() == data@.len(),
{
    proof {
        lemma_annex_b_no_longer(data@);
    }
    let mut out: Vec<u8> = Vec::new();
    let mut pos: usize = 0;
    let n = data.len();
    assert(data@.skip(0) =~= data@);
    while n - pos >= 4
        invariant
            n == data@.len(),
            pos <= n,
            out@ + spec_annex_b(data@.skip(pos as int)) == spec_annex_b(data@),
            spec_annex_b(data@).len() <= data@.len(),
            well_formed_avcc(data@) ==> spec_annex_b(data@).len() == data@.len(),
        decreases n - pos,
    {
        let ghost rest0 = data@.skip(pos as int);
        let len: u64 = (data[pos] as u64) * 16777216 + (data[pos + 1] as u64) * 65536 + (
        data[pos + 2] as u64) * 256 + (data[pos + 3] as u64);
        assert(len == nal_len(rest0));
        pos = pos + 4;
        assert(rest0.skip(4) =~= data@.skip(pos as int));
        if len <= (n - pos) as u64 {
            let end = pos + len as usize;
            push_start_code(&mut out);
            push_range(&mut out, data, pos, end);
            assert(rest0.skip(4).take(len as int) =~= data@.subrange(pos as int, end as int));
            assert(rest0.skip(4).skip(len as int) =~= data@.skip(end as int));
            assert(out@ + spec_annex_b(data@.skip(end as int)) =~= spec_annex_b(data@));
            pos = end;
        } else {
            assert(spec_annex_b(rest0) =~= Seq::<u8>::empty());
            assert(out@ =~= spec_annex_b(data@));
            return out;
        }
    }
    assert(spec_annex_b(data@.skip(pos as int)) =~= Seq::<u8>::empty());
    assert(out@ =~= spec_annex_b(data@));
    out
}

/// The Annex-B form is never longer than the AVCC input: each four-byte length
/// prefix is replaced by a four-byte start code and nothing is added.
pub proof fn lemma_annex_b_no_longer(data: Seq<u8>)
    ensures
        spec_annex_b(data).len() <= data.len(),
        well_formed_avcc(data) ==> spec_annex_b(data).len() == data.len(),
    decreases data.len(),
{
    if data.len() >= 4 {
        let len = nal_len(data);
        let rest = data.skip(4);
        if len <= rest.len() {
            lemma_annex_b_no_longer(rest.skip(len));
        }
    }
}

/// Converting a buffer of whole NAL units followed by more data is the same as
/// converting both parts and joining the results.
pub proof fn lemma_annex_b_concat(a: Seq<u8>, b: Seq<u8>)
    requires
        well_formed_avcc(a),
    ensures
        spec_annex_b(a + b) == spec_annex_b(a) + spec_annex_b(b),
    decreases a.len(),
{
    if a.len() == 0 {
        assert(a + b =~= b);
        assert(spec_annex_b(a) =~= Seq::<u8>::empty());
        assert(spec_annex_b(a) + spec_annex_b(b) =~= spec_annex_b(b));
    } else {
        let len = nal_len(a);
        let rest = a.skip(4);
        let ab = a + b;
        assert(ab[0] == a[0] && ab[1] == a[1] && ab[2] == a[2] && ab[3] == a[3]);
        assert(ab.skip(4) =~= rest + b);
        assert((rest + b).take(len) =~= rest.take(len));
        assert((rest + b).skip(len) =~= rest.skip(len) + b);
        lemma_annex_b_concat(rest.skip(len), b);
        assert(spec_annex_b(ab) =~= start_code() + rest.take(len) + spec_annex_b(rest.skip(len) + b));
        assert(spec_annex_b(ab) =~= spec_annex_b(a) + spec_annex_b(b));
    }
}

/// A single NAL unit with its length prefix converts to the start code followed by
/// the same payload.
pub proof fn lemma_annex_b_single_unit(payload: Seq<u8>, b0: u8, b1: u8, b2: u8, b3: u8)
    requires
        be_u32(b0, b1, b2, b3) == payload.len(),
    ensures
        spec_annex_b(seq![b0, b1, b2, b3] + payload) == start_code() + payload,
{
    let data = seq![b0, b1, b2, b3] + payload;
    assert(data[0] == b0 && data[1] == b1 && data[2] == b2 && data[3] == b3);
    assert(data.skip(4) =~= payload);
    assert(payload.take(payload.len() as int) =~= payload);
    assert(payload.skip(payload.len() as int) =~= Seq::<u8>::empty());
    assert(spec_annex_b(Seq::<u8>::empty()) =~= Seq::<u8>::empty());
    assert(start_code() + payload + Seq::<u8>::empty() =~= start_code() + payload);
}

} // verus!
