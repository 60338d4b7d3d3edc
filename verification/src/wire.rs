//! The byte layout published to the device.
//!
//! A buffer is the records of one pass, packed contiguously with no gaps:
//! per record nine 32-bit words, each written least-significant byte first,
//! in declared field order.  This layout must stay bit-exact with the
//! vertex/instance input layout the consuming shader declares.

use vstd::prelude::*;
use crate::encode::RectData;

verus! {

/// The four bytes of a 32-bit word, least-significant first.
pub open spec fn le32(x: u32) -> Seq<u8> {
    seq![
        (x & 0xff) as u8,
        ((x >> 8) & 0xff) as u8,
        ((x >> 16) & 0xff) as u8,
        ((x >> 24) & 0xff) as u8,
    ]
}

/// The 36 bytes of one record, fields in declared order.
pub open spec fn rect_bytes(r: RectData) -> Seq<u8> {
    le32(r.position_x) + le32(r.position_y) + le32(r.size_x) + le32(r.size_y) + le32(r.color_r)
        + le32(r.color_g) + le32(r.color_b) + le32(r.color_a) + le32(r.z_index)
}

/// The packed bytes of a whole record sequence.
pub open spec fn buffer_bytes(rs: Seq<RectData>) -> Seq<u8>
    decreases rs.len(),
{
    if rs.len() == 0 {
        Seq::empty()
    } else {
        buffer_bytes(rs.drop_last()) + rect_bytes(rs.last())
    }
}

/// A packed buffer holds 36 bytes per record.
pub proof fn lemma_buffer_bytes_len(rs: Seq<RectData>)
    ensures
        buffer_bytes(rs).len() == 36 * rs.len(),
    decreases rs.len(),
{
    if rs.len() > 0 {
        lemma_buffer_bytes_len(rs.drop_last());
    }
}

/// Appends the four little-endian bytes of `x`.
fn push_le32(out: &mut Vec<u8>, x: u32)
    ensures
        final(out)@ == old(out)@ + le32(x),
{
    proof {
        assert(x & 0xff < 256 && (x >> 8) & 0xff < 256 && (x >> 16) & 0xff < 256 && (x >> 24)
            & 0xff < 256) by (bit_vector);
    }
    out.push((x & 0xff) as u8);
    out.push(((x >> 8) & 0xff) as u8);
    out.push(((x >> 16) & 0xff) as u8);
    out.push(((x >> 24) & 0xff) as u8);
    proof {
        assert(out@ =~= old(out)@ + le32(x));
    }
}

/// Serializes the records of one pass to the packed wire layout.
pub fn serialize_rects(rects: &Vec<RectData>) -> (bytes: Vec<u8>)
    ensures
        bytes@ == buffer_bytes(rects@),
        bytes@.len() == 36 * rects@.len(),
{
    let mut out: Vec<u8> = Vec::new();
    let mut t: usize = 0;
    proof {
        assert(rects@.take(0) =~= Seq::<RectData>::empty());
        assert(out@ =~= buffer_bytes(rects@.take(0)));
    }
    while t < rects.len()
        invariant
            t <= rects@.len(),
            out@ == buffer_bytes(rects@.take(t as int)),
        decreases rects@.len() - t,
    {
        let ghost entered = out@;
        let r = rects[t];
        push_le32(&mut out, r.position_x);
        push_le32(&mut out, r.position_y);
        push_le32(&mut out, r.size_x);
        push_le32(&mut out, r.size_y);
        push_le32(&mut out, r.color_r);
        push_le32(&mut out, r.color_g);
        push_le32(&mut out, r.color_b);
        push_le32(&mut out, r.color_a);
        push_le32(&mut out, r.z_index);
        proof {
            let step = rects@.take(t as int + 1);
            assert(step.drop_last() =~= rects@.take(t as int));
            assert(step.last() == rects@[t as int]);
            assert(out@ =~= entered + rect_bytes(rects@[t as int]));
            assert(out@ =~= buffer_bytes(step));
        }
        t = t + 1;
    }
    proof {
        assert(rects@.take(rects@.len() as int) =~= rects@);
        lemma_buffer_bytes_len(rects@);
    }
    out
}

} // verus!
