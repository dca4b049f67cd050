//! The swap argument merger.
//!
//! When swap is configured, the first decrypted page of the swap image
//! holds a secondary argument stream. The merger appends every
//! swap-resident process record of that stream to the primary stream,
//! patches the total-length field of the manifest record, and recomputes
//! its checksum, so that the merged stream passes the same validation as
//! the primary stream did.

use vstd::prelude::*;

use crate::args::{
    rec_next, records_well_framed, stream_crc_ok, stream_well_framed, xarg_crc_input, TAG_INIS,
    XARG_BYTES,
};
use crate::bytes::{le16, le32, read_le16, read_le32, read_range, splice, write_le16, write_le32};
use crate::crc16::{crc16_x25, crc16_x25_of};
use crate::errors::LoaderError;
use crate::PAGE_SIZE;

verus! {

/// The little-endian bytes of a 16-bit value.
pub open spec fn le16_bytes(x: u16) -> Seq<u8> {
    seq![(x % 0x100) as u8, (x / 0x100) as u8]
}

/// The little-endian bytes of a 32-bit value.
pub open spec fn le32_bytes(x: u32) -> Seq<u8> {
    seq![
        (x % 0x100) as u8,
        ((x / 0x100) % 0x100) as u8,
        ((x / 0x10000) % 0x100) as u8,
        (x / 0x1000000) as u8,
    ]
}

/// The swap-resident process records of the stream from `pos` on,
/// concatenated whole: header and payload of each.
pub open spec fn inis_concat(s: Seq<u8>, pos: int) -> Seq<u8>
    decreases s.len() - pos,
{
    if pos < 0 || pos + 8 > s.len() || rec_next(s, pos) > s.len() {
        Seq::empty()
    } else {
        let rest = inis_concat(s, rec_next(s, pos));
        if le32(s, pos) == TAG_INIS {
            s.subrange(pos, rec_next(s, pos)) + rest
        } else {
            rest
        }
    }
}

/// The stream with its length field set to its own length and its checksum
/// recomputed over the patched manifest payload.
pub open spec fn patch_len_crc(s: Seq<u8>) -> Seq<u8> {
    let with_len = splice(s, 8, le32_bytes(s.len() as u32));
    splice(with_len, 16, le16_bytes(crc16_x25_of(xarg_crc_input(with_len))))
}

/// What the merger produces from the primary stream and the secondary
/// stream: the primary, the secondary's swap-resident records appended,
/// length and checksum made good.
pub open spec fn spec_merged(primary: Seq<u8>, sec: Seq<u8>) -> Seq<u8> {
    patch_len_crc(primary + inis_concat(sec, XARG_BYTES as int))
}

/// The concatenated records never outgrow the stream they come from.
proof fn lemma_inis_concat_len(s: Seq<u8>, pos: int)
    requires
        0 <= pos <= s.len(),
    ensures
        inis_concat(s, pos).len() <= s.len() - pos,
    decreases s.len() - pos,
{
    if pos + 8 > s.len() || rec_next(s, pos) > s.len() {
    } else {
        lemma_inis_concat_len(s, rec_next(s, pos));
    }
}

/// Record framing only reads bytes at or after the position: streams that
/// agree there frame alike.
proof fn lemma_framing_agree(s: Seq<u8>, t: Seq<u8>, pos: int)
    requires
        s.len() == t.len(),
        0 <= pos,
        forall|j: int| pos <= j < s.len() ==> s[j] == t[j],
        records_well_framed(s, pos),
    ensures
        records_well_framed(t, pos),
    decreases s.len() - pos,
{
    if pos == s.len() {
    } else {
        assert(le16(t, pos + 4) == le16(s, pos + 4));
        lemma_framing_agree(s, t, rec_next(s, pos));
    }
}

/// A well-framed tail keeps its framing when the stream is placed after a
/// prefix.
proof fn lemma_framing_shift(base: Seq<u8>, t: Seq<u8>, q: int)
    requires
        0 <= q <= t.len(),
        records_well_framed(t, q),
    ensures
        records_well_framed(base + t, base.len() + q),
    decreases t.len() - q,
{
    if q == t.len() {
    } else {
        assert(le16(base + t, base.len() + q + 4) == le16(t, q + 4));
        lemma_framing_shift(base, t, rec_next(t, q));
        assert(rec_next(base + t, base.len() + q) == base.len() + rec_next(t, q));
    }
}

/// Appending a stream of whole records to a well-framed stream keeps it
/// well framed.
proof fn lemma_framing_extend(s: Seq<u8>, t: Seq<u8>, pos: int)
    requires
        0 <= pos <= s.len(),
        records_well_framed(s, pos),
        records_well_framed(t, 0),
    ensures
        records_well_framed(s + t, pos),
    decreases s.len() - pos,
{
    if pos == s.len() {
        lemma_framing_shift(s, t, 0);
    } else {
        assert(le16(s + t, pos + 4) == le16(s, pos + 4));
        lemma_framing_extend(s, t, rec_next(s, pos));
    }
}

/// The concatenation of the swap-resident records is itself a stream of
/// whole records.
proof fn lemma_inis_concat_framed(s: Seq<u8>, pos: int)
    requires
        0 <= pos <= s.len(),
        records_well_framed(s, pos),
    ensures
        records_well_framed(inis_concat(s, pos), 0),
    decreases s.len() - pos,
{
    if pos == s.len() {
    } else {
        let next = rec_next(s, pos);
        lemma_inis_concat_framed(s, next);
        if le32(s, pos) == TAG_INIS {
            let chunk = s.subrange(pos, next);
            let rest = inis_concat(s, next);
            assert(le16(chunk, 4) == le16(s, pos + 4));
            assert(rec_next(chunk, 0) == chunk.len());
            assert(records_well_framed(chunk, chunk.len() as int));
            assert(records_well_framed(chunk, 0));
            lemma_framing_extend(chunk, rest, 0);
        }
    }
}

/// Checks record framing from the manifest record on, as the validator
/// does, without touching the checksum.
fn frames_ok(v: &Vec<u8>) -> (r: bool)
    ensures
        r == stream_well_framed(v@),
{
    if v.len() < XARG_BYTES {
        return false;
    }
    if read_le32(v, 0) != crate::args::TAG_XARG {
        return false;
    }
    if read_le16(v, 4) != 6 {
        return false;
    }
    let total = read_le32(v, 8);
    if !(total as usize == v.len() && v.len() as u64 == total as u64) {
        return false;
    }
    let mut pos: usize = XARG_BYTES;
    loop
        invariant
            XARG_BYTES <= pos <= v.len(),
            v.len() as u64 <= 0xFFFF_FFFFu64,
            records_well_framed(v@, XARG_BYTES as int) <==> records_well_framed(v@, pos as int),
        ensures
            records_well_framed(v@, XARG_BYTES as int),
        decreases v.len() - pos,
    {
        if pos == v.len() {
            break ;
        }
        if v.len() - pos < 8 {
            return false;
        }
        let size_words = read_le16(v, pos + 4);
        let next: u64 = pos as u64 + 8 + 4 * (size_words as u64);
        if next > v.len() as u64 {
            return false;
        }
        pos = next as usize;
    }
    true
}

/// Merges the secondary argument stream found in the first decrypted swap
/// page into the primary stream. On success the merged stream carries every
/// swap-resident record of the secondary stream after the primary records,
/// its length field equals its length, its checksum matches, and the stream
/// validator accepts it.
pub fn merge_args(primary: &Vec<u8>, page0: &Vec<u8>) -> (r: Result<Vec<u8>, LoaderError>)
    requires
        stream_well_framed(primary@),
        page0@.len() == PAGE_SIZE,
        primary@.len() + PAGE_SIZE <= 0xFFFF_FFFF,
    ensures
        r is Ok <==> 32 <= le32(page0@, 8) <= PAGE_SIZE && stream_well_framed(
            page0@.subrange(0, le32(page0@, 8) as int),
        ),
        r is Err ==> r == Err::<Vec<u8>, LoaderError>(LoaderError::BadFraming),
        r matches Ok(m) ==> {
            &&& m@ == spec_merged(primary@, page0@.subrange(0, le32(page0@, 8) as int))
            &&& stream_well_framed(m@)
            &&& stream_crc_ok(m@)
        },
{
    let sec_len = read_le32(page0, 8) as usize;
    if sec_len < 32 || sec_len > PAGE_SIZE {
        return Err(LoaderError::BadFraming);
    }
    let sec = read_range(page0, 0, sec_len);
    if !frames_ok(&sec) {
        return Err(LoaderError::BadFraming);
    }
    proof {
        lemma_inis_concat_len(sec@, XARG_BYTES as int);
    }
    let mut merged = read_range(primary, 0, primary.len());
    let ghost target = primary@ + inis_concat(sec@, XARG_BYTES as int);
    let mut pos: usize = XARG_BYTES;
    loop
        invariant
            XARG_BYTES <= pos <= sec.len(),
            sec@.len() <= PAGE_SIZE,
            records_well_framed(sec@, pos as int),
            merged@ + inis_concat(sec@, pos as int) == target,
            target == primary@ + inis_concat(sec@, XARG_BYTES as int),
            primary@.len() + PAGE_SIZE <= 0xFFFF_FFFF,
        ensures
            merged@ == target,
        decreases sec.len() - pos,
    {
        if pos == sec.len() {
            break ;
        }
        let tag = read_le32(&sec, pos);
        let size_words = read_le16(&sec, pos + 4);
        let next: u64 = pos as u64 + 8 + 4 * (size_words as u64);
        assert(next == rec_next(sec@, pos as int));
        assert(next <= sec.len());
        let nextu = next as usize;
        let ghost m_old = merged@;
        if tag == TAG_INIS {
            let mut chunk = read_range(&sec, pos, nextu - pos);
            proof {
                lemma_inis_concat_len(sec@, nextu as int);
            }
            merged.append(&mut chunk);
            assert(merged@ + inis_concat(sec@, nextu as int) =~= m_old + inis_concat(
                sec@,
                pos as int,
            ));
        } else {
            assert(merged@ + inis_concat(sec@, nextu as int) =~= m_old + inis_concat(
                sec@,
                pos as int,
            ));
        }
        pos = nextu;
    }
    // the merged stream is a well-framed record sequence
    proof {
        lemma_inis_concat_framed(sec@, XARG_BYTES as int);
        lemma_framing_extend(primary@, inis_concat(sec@, XARG_BYTES as int), XARG_BYTES as int);
    }
    let ghost raw = merged@;
    proof {
        lemma_inis_concat_len(sec@, XARG_BYTES as int);
    }
    // patch the total length and the checksum
    let total = merged.len();
    write_le32(&mut merged, 8, total as u32);
    let ghost with_len = merged@;
    let mut crc_input = read_range(&merged, 8, 24);
    crc_input[8] = 0u8;
    crc_input[9] = 0u8;
    assert(crc_input@ =~= xarg_crc_input(merged@));
    let crc = crc16_x25(&crc_input);
    write_le16(&mut merged, 16, crc);
    proof {
        assert(with_len =~= splice(raw, 8, le32_bytes(total as u32)));
        assert(merged@ =~= splice(with_len, 16, le16_bytes(crc)));
        assert(merged@ == spec_merged(primary@, sec@));
        // framing is untouched by the two patches, which lie inside the
        // manifest record
        lemma_framing_agree(raw, merged@, XARG_BYTES as int);
        assert(le32(merged@, 0) == le32(primary@, 0));
        assert(le16(merged@, 4) == le16(primary@, 4));
        assert(le32(merged@, 8) == total as u32);
        assert(stream_well_framed(merged@));
        // the checksum bytes themselves are outside what the checksum
        // covers, so writing them leaves the covered bytes as computed
        assert(xarg_crc_input(merged@) =~= xarg_crc_input(with_len));
        assert(le16(merged@, 16) == crc);
        assert(stream_crc_ok(merged@));
        assert(sec@ =~= page0@.subrange(0, le32(page0@, 8) as int));
    }
    Ok(merged)
}

} // verus!
