//! The argument stream reader.
//!
//! A boot image is a packed stream of tagged records. Each record is framed
//! as a four-byte ASCII tag, a 16-bit size in 32-bit words, two reserved
//! bytes, and the payload. The first record is always the manifest record
//! (tag `XArg`, 24-byte payload): payload word 0 holds the total byte length
//! of the stream, and a CRC-16/X25 over the payload (with the checksum bytes
//! themselves taken as zero) is stored at bytes 16..18 of the record.

use vstd::prelude::*;

use crate::bytes::{le16, le32, read_le16, read_le32, read_range};
use crate::crc16::{crc16_x25, crc16_x25_of};
use crate::errors::LoaderError;

verus! {

/// Tag of the manifest record, the ASCII bytes `XArg` read little-endian.
pub const TAG_XARG: u32 = 0x6772_4158;

/// Tag of a resident process copied to RAM, the ASCII bytes `IniE`.
pub const TAG_INIE: u32 = 0x4569_6E49;

/// Tag of an execute-in-place process, the ASCII bytes `IniF`.
pub const TAG_INIF: u32 = 0x4669_6E49;

/// Tag of a swap-resident process, the ASCII bytes `IniS`.
pub const TAG_INIS: u32 = 0x5369_6E49;

/// Tag of the kernel record, the ASCII bytes `XKrn`.
pub const TAG_XKRN: u32 = 0x6E72_4B58;

/// Total size in bytes of the manifest record (8-byte header plus 24-byte
/// payload).
pub const XARG_BYTES: usize = 32;

/// One record of the argument stream: its tag and where its payload lies
/// within the stream.
#[derive(Clone, Copy, Debug, PartialEq, Eq, Structural)]
pub struct ArgRecord {
    /// The four-byte tag, read little-endian.
    pub tag: u32,
    /// Byte offset of the payload within the stream.
    pub start: usize,
    /// Byte length of the payload.
    pub len: usize,
}

/// Start of the record after the one at `pos`.
pub open spec fn rec_next(s: Seq<u8>, pos: int) -> int {
    pos + 8 + 4 * le16(s, pos + 4)
}

/// The records from `pos` to the end of the stream are all whole: each
/// 8-byte header fits, and each payload ends within the stream.
pub open spec fn records_well_framed(s: Seq<u8>, pos: int) -> bool
    decreases s.len() - pos,
{
    if pos == s.len() {
        true
    } else if pos < 0 || pos + 8 > s.len() || rec_next(s, pos) > s.len() {
        false
    } else {
        records_well_framed(s, rec_next(s, pos))
    }
}

/// The records of the stream from `pos` on, as (tag, payload position,
/// payload length) triples.
pub open spec fn spec_records(s: Seq<u8>, pos: int) -> Seq<ArgRecord>
    decreases s.len() - pos,
{
    if pos < 0 || pos + 8 > s.len() || rec_next(s, pos) > s.len() {
        Seq::empty()
    } else {
        seq![
            ArgRecord {
                tag: le32(s, pos),
                start: (pos + 8) as usize,
                len: (4 * le16(s, pos + 4)) as usize,
            },
        ] + spec_records(s, rec_next(s, pos))
    }
}

/// The stream begins with a whole manifest record whose length field equals
/// the stream length, and every following record is whole.
pub open spec fn stream_well_framed(s: Seq<u8>) -> bool {
    &&& s.len() >= XARG_BYTES
    &&& le32(s, 0) == TAG_XARG
    &&& le16(s, 4) == 6
    &&& le32(s, 8) == s.len()
    &&& records_well_framed(s, XARG_BYTES as int)
}

/// The manifest payload as the checksum covers it: bytes 8..32 of the
/// stream, with the two checksum bytes themselves taken as zero.
pub open spec fn xarg_crc_input(s: Seq<u8>) -> Seq<u8> {
    s.subrange(8, 32).update(8, 0u8).update(9, 0u8)
}

/// The checksum stored in the manifest record matches its payload.
pub open spec fn stream_crc_ok(s: Seq<u8>) -> bool {
    le16(s, 16) == crc16_x25_of(xarg_crc_input(s))
}

/// Number of process records (resident, execute-in-place or swap-resident)
/// among `recs`.
pub open spec fn spec_process_count(recs: Seq<ArgRecord>) -> int
    decreases recs.len(),
{
    if recs.len() == 0 {
        0
    } else {
        (if recs[0].tag == TAG_INIE || recs[0].tag == TAG_INIF || recs[0].tag == TAG_INIS {
            1int
        } else {
            0int
        }) + spec_process_count(recs.skip(1))
    }
}

/// Validates the framing and the checksum of an argument stream, exactly as
/// the loader does before it touches anything else.
pub fn validate_args(args: &Vec<u8>) -> (r: Result<(), LoaderError>)
    ensures
        r is Ok <==> stream_well_framed(args@) && stream_crc_ok(args@),
        r == Err::<(), LoaderError>(LoaderError::BadFraming) <==> !stream_well_framed(args@),
        r == Err::<(), LoaderError>(LoaderError::BadCrc) <==> stream_well_framed(args@)
            && !stream_crc_ok(args@),
{
    if args.len() < XARG_BYTES {
        return Err(LoaderError::BadFraming);
    }
    if read_le32(args, 0) != TAG_XARG {
        return Err(LoaderError::BadFraming);
    }
    if read_le16(args, 4) != 6 {
        return Err(LoaderError::BadFraming);
    }
    let total = read_le32(args, 8);
    if !(total as usize == args.len() && args.len() as u64 == total as u64) {
        return Err(LoaderError::BadFraming);
    }
    let mut pos: usize = XARG_BYTES;
    loop
        invariant
            XARG_BYTES <= pos <= args.len(),
            args.len() as u64 <= 0xFFFF_FFFFu64,
            records_well_framed(args@, XARG_BYTES as int) <==> records_well_framed(
                args@,
                pos as int,
            ),
        ensures
            records_well_framed(args@, XARG_BYTES as int),
        decreases args.len() - pos,
    {
        if pos == args.len() {
            break ;
        }
        if args.len() - pos < 8 {
            return Err(LoaderError::BadFraming);
        }
        let size_words = read_le16(args, pos + 4);
        let next: u64 = pos as u64 + 8 + 4 * (size_words as u64);
        if next > args.len() as u64 {
            return Err(LoaderError::BadFraming);
        }
        pos = next as usize;
    }
    let mut crc_input = read_range(args, 8, 24);
    crc_input[8] = 0u8;
    crc_input[9] = 0u8;
    assert(crc_input@ =~= xarg_crc_input(args@));
    let stored = read_le16(args, 16);
    let computed = crc16_x25(&crc_input);
    if stored != computed {
        return Err(LoaderError::BadCrc);
    }
    Ok(())
}

/// Lists the records that follow the manifest record.
pub fn parse_records(args: &Vec<u8>) -> (r: Vec<ArgRecord>)
    requires
        stream_well_framed(args@),
    ensures
        r@ == spec_records(args@, XARG_BYTES as int),
        forall|i: int|
            0 <= i < r@.len() ==> (#[trigger] r@[i]).start + r@[i].len <= args@.len(),
{
    let mut out: Vec<ArgRecord> = Vec::new();
    let mut pos: usize = XARG_BYTES;
    loop
        invariant
            XARG_BYTES <= pos <= args.len(),
            stream_well_framed(args@),
            records_well_framed(args@, pos as int),
            out@ + spec_records(args@, pos as int) == spec_records(args@, XARG_BYTES as int),
            forall|i: int|
                0 <= i < out@.len() ==> (#[trigger] out@[i]).start + out@[i].len <= args@.len(),
        ensures
            pos == args.len(),
            out@ == spec_records(args@, XARG_BYTES as int),
            forall|i: int|
                0 <= i < out@.len() ==> (#[trigger] out@[i]).start + out@[i].len <= args@.len(),
        decreases args.len() - pos,
    {
        if pos == args.len() {
            break ;
        }
        let tag = read_le32(args, pos);
        let size_words = read_le16(args, pos + 4);
        let next: u64 = pos as u64 + 8 + 4 * (size_words as u64);
        assert(next == rec_next(args@, pos as int));
        assert(next <= args.len());
        let rec = ArgRecord { tag, start: pos + 8, len: 4 * (size_words as usize) };
        let ghost old_out = out@;
        out.push(rec);
        assert(out@ + spec_records(args@, next as int) =~= old_out + spec_records(
            args@,
            pos as int,
        ));
        pos = next as usize;
    }
    out
}

/// Counts the process records of the stream.
pub fn count_processes(recs: &Vec<ArgRecord>) -> (n: usize)
    ensures
        n == spec_process_count(recs@),
{
    let mut n: usize = 0;
    let mut i: usize = 0;
    proof {
        lemma_process_count_bounds(recs@);
    }
    while i < recs.len()
        invariant
            i <= recs.len(),
            n == spec_process_count(recs@.take(i as int)),
            n <= i,
        decreases recs.len() - i,
    {
        let tag = recs[i].tag;
        proof {
            lemma_process_count_take_step(recs@, i as int);
            lemma_process_count_bounds(recs@.take(i as int));
        }
        if tag == TAG_INIE || tag == TAG_INIF || tag == TAG_INIS {
            n = n + 1;
        }
        i = i + 1;
    }
    assert(recs@.take(recs@.len() as int) =~= recs@);
    n
}

/// The process count of a prefix grows by the indicator of the next record.
pub proof fn lemma_process_count_take_step(recs: Seq<ArgRecord>, i: int)
    requires
        0 <= i < recs.len(),
    ensures
        spec_process_count(recs.take(i + 1)) == spec_process_count(recs.take(i)) + (
        if recs[i].tag == TAG_INIE || recs[i].tag == TAG_INIF || recs[i].tag == TAG_INIS {
            1int
        } else {
            0int
        }),
    decreases i,
{
    if i == 0 {
        assert(recs.take(1).skip(1) =~= Seq::<ArgRecord>::empty());
        assert(recs.take(1)[0] == recs[0]);
        assert(recs.take(0) =~= Seq::<ArgRecord>::empty());
    } else {
        assert(recs.take(i + 1)[0] == recs[0]);
        assert(recs.take(i)[0] == recs[0]);
        assert(recs.take(i + 1).skip(1) =~= recs.skip(1).take(i));
        assert(recs.take(i).skip(1) =~= recs.skip(1).take(i - 1));
        assert(recs.skip(1)[i - 1] == recs[i]);
        lemma_process_count_take_step(recs.skip(1), i - 1);
    }
}

/// The process count lies between zero and the record count.
pub proof fn lemma_process_count_bounds(recs: Seq<ArgRecord>)
    ensures
        0 <= spec_process_count(recs) <= recs.len(),
    decreases recs.len(),
{
    if recs.len() > 0 {
        lemma_process_count_bounds(recs.skip(1));
    }
}

/// A prefix never counts more processes than the whole list.
pub proof fn lemma_process_count_prefix(recs: Seq<ArgRecord>, i: int)
    requires
        0 <= i <= recs.len(),
    ensures
        spec_process_count(recs.take(i)) <= spec_process_count(recs),
    decreases recs.len(),
{
    if i == 0 {
        assert(recs.take(0) =~= Seq::<ArgRecord>::empty());
        lemma_process_count_bounds(recs);
    } else {
        assert(recs.take(i)[0] == recs[0]);
        assert(recs.take(i).skip(1) =~= recs.skip(1).take(i - 1));
        lemma_process_count_prefix(recs.skip(1), i - 1);
    }
}

} // verus!
