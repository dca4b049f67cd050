//! The program image format carried inside process records.
//!
//! A process record's payload starts with two 32-bit words, the offset of
//! the process's data in the image and its entry point, followed by one
//! 8-byte descriptor per section: a 32-bit virtual start address, then a
//! 32-bit word holding the section length in its low 24 bits and the flag
//! bits in its high 8 bits. The section data itself lies packed end-to-end
//! in the image, starting at the load offset.

use vstd::prelude::*;

use crate::args::ArgRecord;
use crate::bytes::{le32, read_le32};

verus! {

/// Section flag: the section is writable and must live in RAM.
pub const FLAG_WRITE: u8 = 1;

/// Section flag: the section has no bytes in the image and is zero-filled.
pub const FLAG_NOCOPY: u8 = 2;

/// Section flag: the section is executable.
pub const FLAG_EXEC: u8 = 4;

/// One section of a process image.
#[derive(Clone, Copy, Debug, PartialEq, Eq, Structural)]
pub struct Section {
    /// Virtual address the section loads at.
    pub virt: usize,
    /// Length of the section in bytes.
    pub len: usize,
    /// Flag bits of the section.
    pub flags: u8,
}

impl Section {
    /// The section must be copied into RAM: it is writable, or the whole
    /// process is resident.
    pub open spec fn spec_copy_to_ram(self, copy_all: bool) -> bool {
        self.flags & FLAG_WRITE != 0 || copy_all
    }

    /// The section has no bytes in the image.
    pub open spec fn spec_no_copy(self) -> bool {
        self.flags & FLAG_NOCOPY != 0
    }

    /// Whether the section must be copied into RAM.
    pub fn copy_to_ram(&self, copy_all: bool) -> (r: bool)
        ensures
            r == self.spec_copy_to_ram(copy_all),
    {
        self.flags & FLAG_WRITE != 0 || copy_all
    }

    /// Whether the section is zero-filled rather than copied.
    pub fn no_copy(&self) -> (r: bool)
        ensures
            r == self.spec_no_copy(),
    {
        self.flags & FLAG_NOCOPY != 0
    }
}

/// A parsed process image header.
#[derive(Clone, Debug)]
pub struct MiniElf {
    /// Byte offset of the process's packed section data in the image.
    pub load_offset: usize,
    /// Virtual address execution starts at.
    pub entrypoint: usize,
    /// The sections, in the order the record lists them.
    pub sections: Vec<Section>,
}

/// A process record payload has room for the two header words and then
/// whole 8-byte section descriptors.
pub open spec fn minielf_shaped(len: int) -> bool {
    len >= 8 && (len - 8) % 8 == 0
}

/// The section descriptor stored at `s[p..p + 8]`.
pub open spec fn spec_section(s: Seq<u8>, p: int) -> Section {
    Section {
        virt: le32(s, p) as usize,
        len: (le32(s, p + 4) % 0x100_0000) as usize,
        flags: (le32(s, p + 4) / 0x100_0000) as u8,
    }
}

/// The `n` section descriptors stored from `s[p]` on.
pub open spec fn spec_sections(s: Seq<u8>, p: int, n: int) -> Seq<Section> {
    Seq::new(n as nat, |i: int| spec_section(s, p + 8 * i))
}

/// Sections are laid out in strictly ascending address order: each section
/// starts at or after the end of the one before it.
pub open spec fn sections_monotonic(secs: Seq<Section>) -> bool {
    forall|i: int|
        0 < i < secs.len() ==> (#[trigger] secs[i]).virt >= secs[i - 1].virt + secs[i - 1].len
}

/// Every accepted section list has non-decreasing virtual addresses.
pub proof fn lemma_monotonic_virt(secs: Seq<Section>)
    requires
        sections_monotonic(secs),
    ensures
        forall|i: int| 0 < i < secs.len() ==> (#[trigger] secs[i]).virt >= secs[i - 1].virt,
{
}

/// Parses the program image header inside the record at `rec`.
pub fn parse_minielf(args: &Vec<u8>, rec: &ArgRecord) -> (r: MiniElf)
    requires
        rec.start + rec.len <= args.len(),
        minielf_shaped(rec.len as int),
    ensures
        r.load_offset == le32(args@, rec.start as int),
        r.entrypoint == le32(args@, rec.start + 4),
        r.sections@ == spec_sections(args@, rec.start + 8, ((rec.len - 8) / 8) as int),
{
    let load_offset = read_le32(args, rec.start) as usize;
    let entrypoint = read_le32(args, rec.start + 4) as usize;
    let n = (rec.len - 8) / 8;
    let mut sections: Vec<Section> = Vec::new();
    let mut i: usize = 0;
    while i < n
        invariant
            i <= n,
            n == (rec.len - 8) / 8,
            rec.start + rec.len <= args.len(),
            minielf_shaped(rec.len as int),
            sections@ =~= spec_sections(args@, rec.start + 8, n as int).take(i as int),
        decreases n - i,
    {
        let p = rec.start + 8 + 8 * i;
        assert(p + 8 <= rec.start + rec.len);
        let virt = read_le32(args, p) as usize;
        let word2 = read_le32(args, p + 4);
        let sec = Section {
            virt,
            len: (word2 % 0x100_0000) as usize,
            flags: (word2 / 0x100_0000) as u8,
        };
        assert(sec == spec_section(args@, rec.start + 8 + 8 * (i as int)));
        sections.push(sec);
        i = i + 1;
        assert(sections@ =~= spec_sections(args@, rec.start + 8, n as int).take(i as int));
    }
    assert(sections@ =~= spec_sections(args@, rec.start + 8, n as int));
    MiniElf { load_offset, entrypoint, sections }
}

} // verus!
