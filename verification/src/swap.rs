//! The swap crypto primitive: AES-256-GCM-SIV over single pages, with a MAC
//! table held apart from the ciphertext.
//!
//! Two keyed sides exist. The source side reads the swap image in FLASH,
//! keyed by the image builder's key, with a nonce made of the page's byte
//! offset and the image's partial nonce, and the image's header bytes as
//! associated data. The destination side is swap RAM, keyed by a fresh
//! per-boot key, with a nonce tying each page to its swap offset, its
//! virtual address and its owning process, so that a page replayed into
//! another slot fails authentication.

use vstd::prelude::*;

use crate::bytes::{copy_into, le32, read_range, splice, zero_vec, zeros};
use crate::errors::LoaderError;
use crate::{page_round_down, page_round_up, spec_page_round_down, spec_page_round_up, PAGE_SIZE};

verus! {

/// Size in bytes of one authentication tag.
pub const TAG_BYTES: usize = 16;

/// The ciphertext-and-tag that AES-256-GCM-SIV produces for a key, nonce,
/// associated data and plaintext: the encrypted bytes followed by the
/// 16-byte tag. The cipher itself is not restated here; its output is a
/// function of these four arguments alone.
pub uninterp spec fn gcmsiv_seal(key: Seq<u8>, nonce: Seq<u8>, aad: Seq<u8>, pt: Seq<u8>) -> Seq<
    u8,
>;

/// The plaintext that AES-256-GCM-SIV decryption derives from a ciphertext
/// before it checks the tag. The decryption keystream is keyed by the tag,
/// so the result is a function of key, nonce, ciphertext and tag alone; on
/// the one tag that authenticates a ciphertext it inverts the encryption
/// half of `gcmsiv_seal`.
pub uninterp spec fn gcmsiv_open(key: Seq<u8>, nonce: Seq<u8>, ct: Seq<u8>, tag: Seq<u8>) -> Seq<
    u8,
>;

/// Relies on aes_gcm_siv::Aes256GcmSiv (KeyInit::new, then
/// AeadInOut::encrypt_inout_detached): encrypts one page in place and
/// returns the detached 16-byte tag. The output depends on key, nonce,
/// associated data and plaintext alone; `gcmsiv_seal` names the ciphertext
/// followed by the tag. The call cannot fail: it errs only on inputs past
/// the RFC 8452 length bounds, far above one page.
#[verifier::external_body]
fn aead_seal_page(key: &Vec<u8>, nonce: &Vec<u8>, aad: &Vec<u8>, buf: &mut Vec<u8>) -> (tag: Vec<
    u8,
>)
    requires
        key@.len() == 32,
        nonce@.len() == 12,
        aad@.len() <= 4096,
        old(buf)@.len() == 4096,
    ensures
        final(buf)@ + tag@ == gcmsiv_seal(key@, nonce@, aad@, old(buf)@),
        final(buf)@.len() == 4096,
        tag@.len() == 16,
{
    let cipher: aes_gcm_siv::Aes256GcmSiv = aes_gcm_siv::KeyInit::new(
        aes_gcm_siv::Key::<aes_gcm_siv::Aes256GcmSiv>::from_slice(key.as_slice()),
    );
    let tag = aes_gcm_siv::AeadInOut::encrypt_inout_detached(
        &cipher,
        aes_gcm_siv::Nonce::from_slice(nonce.as_slice()),
        aad.as_slice(),
        buf.as_mut_slice().into(),
    )
        .unwrap();
    tag.to_vec()
}

/// Relies on aes_gcm_siv::Aes256GcmSiv (KeyInit::new, then
/// AeadInOut::decrypt_inout_detached): decrypts one page in place when the
/// tag authenticates it. The decryption keystream is initialized from the
/// tag, so the derived plaintext is `gcmsiv_open` of key, nonce, ciphertext
/// and tag. Decryption inverts sealing: whenever the ciphertext and tag are
/// `gcmsiv_seal` of some plaintext under the same key, nonce and associated
/// data, the call succeeds and leaves that plaintext in the buffer; on
/// failure it restores the ciphertext (the source re-applies the keystream
/// before returning the error).
#[verifier::external_body]
fn aead_open_page(key: &Vec<u8>, nonce: &Vec<u8>, aad: &Vec<u8>, buf: &mut Vec<u8>, tag: &Vec<u8>) -> (ok:
    bool)
    requires
        key@.len() == 32,
        nonce@.len() == 12,
        aad@.len() <= 4096,
        old(buf)@.len() == 4096,
        tag@.len() == 16,
    ensures
        ok ==> old(buf)@ + tag@ == gcmsiv_seal(key@, nonce@, aad@, final(buf)@),
        ok ==> final(buf)@ == gcmsiv_open(key@, nonce@, old(buf)@, tag@),
        !ok ==> final(buf)@ == old(buf)@,
        forall|pt: Seq<u8>|
            old(buf)@ + tag@ == gcmsiv_seal(key@, nonce@, aad@, pt) ==> ok && final(buf)@ == pt,
        final(buf)@.len() == 4096,
{
    let cipher: aes_gcm_siv::Aes256GcmSiv = aes_gcm_siv::KeyInit::new(
        aes_gcm_siv::Key::<aes_gcm_siv::Aes256GcmSiv>::from_slice(key.as_slice()),
    );
    aes_gcm_siv::AeadInOut::decrypt_inout_detached(
        &cipher,
        aes_gcm_siv::Nonce::from_slice(nonce.as_slice()),
        aad.as_slice(),
        buf.as_mut_slice().into(),
        aes_gcm_siv::Tag::from_slice(tag.as_slice()),
    )
        .is_ok()
}

/// The 12-byte nonce of a swap RAM page: the swap count big-endian, a zero
/// byte, the owning process id, the high 24 bits of the page's byte offset
/// in swap RAM, and the high 24 bits of its virtual page address.
#[verifier::opaque]
pub open spec fn swap_nonce(count: u32, pid: u8, phys: int, virt: int) -> Seq<u8> {
    seq![
        ((count / 0x100_0000) % 0x100) as u8,
        ((count / 0x1_0000) % 0x100) as u8,
        ((count / 0x100) % 0x100) as u8,
        (count % 0x100) as u8,
        0u8,
        pid,
        ((phys / 0x100_0000) % 0x100) as u8,
        ((phys / 0x1_0000) % 0x100) as u8,
        ((phys / 0x100) % 0x100) as u8,
        ((virt / 0x100_0000) % 0x100) as u8,
        ((virt / 0x1_0000) % 0x100) as u8,
        ((virt / 0x100) % 0x100) as u8,
    ]
}

/// The 12-byte nonce of a source image page: the page's byte offset in the
/// ciphertext area, big-endian, followed by the image's 8-byte partial
/// nonce.
#[verifier::opaque]
pub open spec fn src_nonce(partial: Seq<u8>, offset: int) -> Seq<u8> {
    seq![
        ((offset / 0x100_0000) % 0x100) as u8,
        ((offset / 0x1_0000) % 0x100) as u8,
        ((offset / 0x100) % 0x100) as u8,
        (offset % 0x100) as u8,
    ] + partial
}

/// Builds the swap RAM nonce for already page-masked addresses.
fn build_swap_nonce(count: u32, pid: u8, phys: usize, virt: usize) -> (r: Vec<u8>)
    requires
        phys <= 0xFFFF_FFFF,
        virt <= 0xFFFF_FFFF,
    ensures
        r@ == swap_nonce(count, pid, phys as int, virt as int),
        r@.len() == 12,
{
    let mut n: Vec<u8> = Vec::new();
    n.push(((count / 0x100_0000) % 0x100) as u8);
    n.push(((count / 0x1_0000) % 0x100) as u8);
    n.push(((count / 0x100) % 0x100) as u8);
    n.push((count % 0x100) as u8);
    n.push(0u8);
    n.push(pid);
    n.push(((phys / 0x100_0000) % 0x100) as u8);
    n.push(((phys / 0x1_0000) % 0x100) as u8);
    n.push(((phys / 0x100) % 0x100) as u8);
    n.push(((virt / 0x100_0000) % 0x100) as u8);
    n.push(((virt / 0x1_0000) % 0x100) as u8);
    n.push(((virt / 0x100) % 0x100) as u8);
    proof {
        reveal(swap_nonce);
    }
    assert(n@ =~= swap_nonce(count, pid, phys as int, virt as int));
    n
}

/// Builds the source image nonce for a page at byte offset `offset`.
fn build_src_nonce(partial: &Vec<u8>, offset: usize) -> (r: Vec<u8>)
    requires
        partial@.len() == 8,
        offset <= 0xFFFF_FFFF,
    ensures
        r@ == src_nonce(partial@, offset as int),
        r@.len() == 12,
{
    let mut n: Vec<u8> = Vec::new();
    n.push(((offset / 0x100_0000) % 0x100) as u8);
    n.push(((offset / 0x1_0000) % 0x100) as u8);
    n.push(((offset / 0x100) % 0x100) as u8);
    n.push((offset % 0x100) as u8);
    let mut k: usize = 0;
    while k < 8
        invariant
            k <= 8,
            partial@.len() == 8,
            n@.len() == 4 + k,
            forall|j: int| 0 <= j < k ==> n@[4 + j] == partial@[j],
            n@[0] == ((offset as int / 0x100_0000) % 0x100) as u8,
            n@[1] == ((offset as int / 0x1_0000) % 0x100) as u8,
            n@[2] == ((offset as int / 0x100) % 0x100) as u8,
            n@[3] == (offset as int % 0x100) as u8,
        decreases 8 - k,
    {
        n.push(partial[k]);
        k = k + 1;
    }
    proof {
        reveal(src_nonce);
    }
    assert(n@ =~= src_nonce(partial@, offset as int));
    n
}

/// The ciphertext page at byte offset `off` of `data`, followed by its tag
/// from the MAC table `macs`: everything authentication covers for one slot.
pub open spec fn spec_swap_slot(data: Seq<u8>, macs: Seq<u8>, off: int) -> Seq<u8> {
    data.subrange(off, off + PAGE_SIZE) + macs.subrange(
        (off / (PAGE_SIZE as int)) * (TAG_BYTES as int),
        (off / (PAGE_SIZE as int)) * (TAG_BYTES as int) + TAG_BYTES,
    )
}

/// The source image is whole: a header page, a page-aligned ciphertext
/// area of the length its header names, and a tag for each of its pages.
pub open spec fn swap_flash_ok(flash: Seq<u8>) -> bool {
    &&& flash.len() >= PAGE_SIZE
    &&& le32(flash, 9 + flash[0]) as int % (PAGE_SIZE as int) == 0
    &&& PAGE_SIZE + le32(flash, 9 + flash[0]) + (le32(flash, 9 + flash[0]) as int / (
    PAGE_SIZE as int)) * (TAG_BYTES as int) <= flash.len()
}

/// Length of the ciphertext area carved out of a swap RAM region: the
/// region rounded down to pages, less a page-rounded reservation able to
/// hold one tag per page of the region.
pub open spec fn swap_data_len(ram_size: int) -> int {
    spec_page_round_down(ram_size) - spec_page_round_up(
        (spec_page_round_down(ram_size) / (PAGE_SIZE as int)) * (TAG_BYTES as int),
    )
}

/// Length of the MAC table: one tag per ciphertext page.
pub open spec fn swap_mac_len(ram_size: int) -> int {
    (swap_data_len(ram_size) / (PAGE_SIZE as int)) * (TAG_BYTES as int)
}

/// The swap RAM region leaves room for at least one ciphertext page beside
/// its MAC reservation.
pub open spec fn swap_ram_ok(ram_size: int) -> bool {
    swap_data_len(ram_size) >= PAGE_SIZE
}

/// The swap configuration a platform hands the loader.
pub struct SwapCfg {
    /// The swap image read from FLASH: a header page, the ciphertext pages,
    /// then the MAC table.
    pub flash: Vec<u8>,
    /// Size in bytes of the RAM region set aside for swap.
    pub ram_size: usize,
    /// The image builder's 32-byte key for the FLASH side.
    pub src_key: Vec<u8>,
    /// The fresh per-boot 32-byte key for the RAM side, drawn by the
    /// platform from its hardware random source.
    pub dst_key: Vec<u8>,
}

impl SwapCfg {
    /// The configuration has well-shaped keys and addressable sizes.
    pub open spec fn wf(self) -> bool {
        &&& self.src_key@.len() == 32
        &&& self.dst_key@.len() == 32
        &&& self.flash@.len() <= 0xFFFF_FFFF
        &&& self.ram_size <= 0xFFFF_FFFF
    }
}

/// The swap backend: the source image and its key, the destination arenas
/// and their per-boot key, and the one-page decrypt buffer.
pub struct SwapHal {
    /// Ciphertext pages of the source image.
    pub src_data_area: Vec<u8>,
    /// MAC table of the source image, one 16-byte tag per page.
    pub src_mac_area: Vec<u8>,
    /// The image's 8-byte partial nonce.
    pub partial_nonce: Vec<u8>,
    /// The image's associated data.
    pub aad: Vec<u8>,
    /// Key of the source image.
    pub src_key: Vec<u8>,
    /// Ciphertext area of swap RAM.
    pub dst_data_area: Vec<u8>,
    /// MAC table of swap RAM, one 16-byte tag per ciphertext page.
    pub dst_mac_area: Vec<u8>,
    /// The per-boot key of swap RAM.
    pub dst_key: Vec<u8>,
    /// Byte offset of the source page the decrypt buffer holds.
    pub buf_addr: usize,
    /// Whether the decrypt buffer holds a decrypted source page at all.
    pub buf_valid: bool,
    /// The one-page decrypt buffer.
    pub buf: Vec<u8>,
}

impl SwapHal {
    /// The plaintext the cipher derives for source page `page`, from its
    /// stored ciphertext and its stored tag.
    pub open spec fn spec_src_plain_page(self, page: int) -> Seq<u8> {
        gcmsiv_open(
            self.src_key@,
            src_nonce(self.partial_nonce@, page * (PAGE_SIZE as int)),
            self.src_data_area@.subrange(
                page * (PAGE_SIZE as int),
                page * (PAGE_SIZE as int) + PAGE_SIZE,
            ),
            self.src_mac_area@.subrange(
                page * (TAG_BYTES as int),
                page * (TAG_BYTES as int) + TAG_BYTES,
            ),
        )
    }

    /// Source page `page` authenticates: its stored ciphertext and tag are
    /// the sealing of the plaintext the cipher derives for it.
    pub open spec fn src_page_authentic(self, page: int) -> bool {
        spec_swap_slot(self.src_data_area@, self.src_mac_area@, page * (PAGE_SIZE as int))
            == gcmsiv_seal(
            self.src_key@,
            src_nonce(self.partial_nonce@, page * (PAGE_SIZE as int)),
            self.aad@,
            self.spec_src_plain_page(page),
        )
    }

    /// Slot `off` of swap RAM holds exactly the sealing of plaintext `pt`
    /// bound to virtual page `vaddr` and process `pid`.
    pub open spec fn swap_slot_holds(self, off: int, vaddr: int, pid: u8, pt: Seq<u8>) -> bool {
        spec_swap_slot(self.dst_data_area@, self.dst_mac_area@, off) == gcmsiv_seal(
            self.dst_key@,
            swap_nonce(0, pid, off, vaddr),
            Seq::empty(),
            pt,
        )
    }

    /// The MAC table has exactly one tag per ciphertext page.
    pub open spec fn mac_table_covers(self) -> bool {
        self.dst_mac_area@.len() as int / (TAG_BYTES as int) == self.dst_data_area@.len() as int
            / (PAGE_SIZE as int)
    }

    /// Structural soundness of the backend: whole pages on both sides, a
    /// tag slot for every page, well-shaped keys and nonces, and a decrypt
    /// buffer that, when valid, holds the authenticated plaintext of the
    /// source page it names.
    pub open spec fn wf(self) -> bool {
        &&& self.src_key@.len() == 32
        &&& self.dst_key@.len() == 32
        &&& self.partial_nonce@.len() == 8
        &&& self.aad@.len() <= 255
        &&& self.buf@.len() == PAGE_SIZE
        &&& self.src_data_area@.len() as int % (PAGE_SIZE as int) == 0
        &&& self.src_data_area@.len() <= 0xFFFF_FFFF
        &&& self.src_mac_area@.len() == (self.src_data_area@.len() as int / (PAGE_SIZE as int))
            * (TAG_BYTES as int)
        &&& self.dst_data_area@.len() as int % (PAGE_SIZE as int) == 0
        &&& self.dst_data_area@.len() <= 0xFFFF_FFFF
        &&& self.dst_mac_area@.len() == (self.dst_data_area@.len() as int / (PAGE_SIZE as int))
            * (TAG_BYTES as int)
        &&& self.buf_valid ==> {
            &&& self.buf_addr % PAGE_SIZE == 0
            &&& self.buf_addr + PAGE_SIZE <= self.src_data_area@.len()
            &&& self.src_page_authentic(self.buf_addr as int / (PAGE_SIZE as int))
            &&& self.buf@ == self.spec_src_plain_page(self.buf_addr as int / (PAGE_SIZE as int))
        }
    }

    /// Brings up the swap backend from a configuration: parses the source
    /// header page, carves swap RAM into a page-aligned ciphertext area and
    /// a MAC table with one tag per page, and installs the two keys.
    pub fn new(cfg: &SwapCfg) -> (r: Result<SwapHal, LoaderError>)
        requires
            cfg.wf(),
        ensures
            r is Ok <==> swap_flash_ok(cfg.flash@) && swap_ram_ok(cfg.ram_size as int),
            !swap_flash_ok(cfg.flash@) ==> r == Err::<SwapHal, LoaderError>(
                LoaderError::BadFraming,
            ),
            swap_flash_ok(cfg.flash@) && !swap_ram_ok(cfg.ram_size as int) ==> r == Err::<
                SwapHal,
                LoaderError,
            >(LoaderError::OutOfRam),
            r matches Ok(h) ==> {
                &&& h.wf()
                &&& h.mac_table_covers()
                &&& h.dst_data_area@.len() == swap_data_len(cfg.ram_size as int)
                &&& h.dst_mac_area@.len() == swap_mac_len(cfg.ram_size as int)
                &&& h.src_key@ == cfg.src_key@
                &&& h.dst_key@ == cfg.dst_key@
                &&& !h.buf_valid
                &&& h.dst_data_area@ == zeros(h.dst_data_area@.len() as int)
                &&& h.dst_mac_area@ == zeros(h.dst_mac_area@.len() as int)
                &&& cfg.flash@.len() >= 1
                &&& {
                    let aad_len = cfg.flash@[0] as int;
                    let mac_offset = le32(cfg.flash@, 9 + aad_len) as int;
                    &&& h.aad@ == cfg.flash@.subrange(1, 1 + aad_len)
                    &&& h.partial_nonce@ == cfg.flash@.subrange(1 + aad_len, 9 + aad_len)
                    &&& h.src_data_area@ == cfg.flash@.subrange(
                        PAGE_SIZE as int,
                        PAGE_SIZE + mac_offset,
                    )
                    &&& h.src_mac_area@ == cfg.flash@.subrange(
                        PAGE_SIZE + mac_offset,
                        PAGE_SIZE + mac_offset + (mac_offset / (PAGE_SIZE as int)) * (
                        TAG_BYTES as int),
                    )
                    &&& h.dst_data_area@.len() == spec_page_round_down(cfg.ram_size as int)
                        - spec_page_round_up(
                        (spec_page_round_down(cfg.ram_size as int) / (PAGE_SIZE as int)) * (
                        TAG_BYTES as int),
                    )
                }
            },
    {
        if cfg.flash.len() < PAGE_SIZE {
            return Err(LoaderError::BadFraming);
        }
        let aad_len = cfg.flash[0] as usize;
        let aad = read_range(&cfg.flash, 1, aad_len);
        let partial_nonce = read_range(&cfg.flash, 1 + aad_len, 8);
        let mac_offset = crate::bytes::read_le32(&cfg.flash, 9 + aad_len) as usize;
        if mac_offset % PAGE_SIZE != 0 {
            return Err(LoaderError::BadFraming);
        }
        let src_mac_len = (mac_offset / PAGE_SIZE) * TAG_BYTES;
        let flash_need: u64 = PAGE_SIZE as u64 + mac_offset as u64 + src_mac_len as u64;
        if flash_need > cfg.flash.len() as u64 {
            return Err(LoaderError::BadFraming);
        }
        let src_data_area = read_range(&cfg.flash, PAGE_SIZE, mac_offset);
        let src_mac_area = read_range(&cfg.flash, PAGE_SIZE + mac_offset, src_mac_len);

        let rd = page_round_down(cfg.ram_size);
        let mac_need = (rd / PAGE_SIZE) * TAG_BYTES;
        let mac_area = page_round_up(mac_need);
        if rd < mac_area + PAGE_SIZE {
            return Err(LoaderError::OutOfRam);
        }
        let data_len = rd - mac_area;
        assert(data_len % PAGE_SIZE == 0);
        let mac_len = (data_len / PAGE_SIZE) * TAG_BYTES;
        let dst_data_area = zero_vec(data_len);
        let dst_mac_area = zero_vec(mac_len);

        Ok(
            SwapHal {
                src_data_area,
                src_mac_area,
                partial_nonce,
                aad,
                src_key: crate::bytes::read_range(&cfg.src_key, 0, 32),
                dst_data_area,
                dst_mac_area,
                dst_key: crate::bytes::read_range(&cfg.dst_key, 0, 32),
                buf_addr: 0,
                buf_valid: false,
                buf: zero_vec(PAGE_SIZE),
            },
        )
    }

    /// Byte offset of the source page the decrypt buffer holds.
    pub fn decrypt_page_addr(&self) -> (r: usize)
        ensures
            r == self.buf_addr,
    {
        self.buf_addr
    }

    /// A view of the decrypt buffer.
    pub fn buf_as_ref(&self) -> (r: &Vec<u8>)
        ensures
            r@ == self.buf@,
    {
        &self.buf
    }

    /// A view of the decrypt buffer, for re-using an already decrypted page.
    pub fn get_decrypt(&self) -> (r: &Vec<u8>)
        ensures
            r@ == self.buf@,
    {
        &self.buf
    }

    /// Decrypts the source page at byte offset `offset` into the decrypt
    /// buffer. Succeeds exactly when the page authenticates under the
    /// image's key, nonce and associated data.
    pub fn decrypt_src_page_at(&mut self, offset: usize) -> (r: Result<(), LoaderError>)
        requires
            old(self).wf(),
            offset % PAGE_SIZE == 0,
            offset + PAGE_SIZE <= old(self).src_data_area@.len(),
        ensures
            final(self).wf(),
            *final(self) == (SwapHal {
                buf_addr: final(self).buf_addr,
                buf_valid: final(self).buf_valid,
                buf: final(self).buf,
                ..*old(self)
            }),
            r is Ok <==> old(self).src_page_authentic(offset as int / (PAGE_SIZE as int)),
            r is Ok ==> {
                &&& final(self).buf_valid
                &&& final(self).buf_addr == offset
                &&& final(self).buf@ == old(self).spec_src_plain_page(
                    offset as int / (PAGE_SIZE as int),
                )
            },
            r is Err ==> !final(self).buf_valid && r == Err::<(), LoaderError>(
                LoaderError::SrcCrypto,
            ),
    {
        let ghost page = offset as int / (PAGE_SIZE as int);
        self.buf = read_range(&self.src_data_area, offset, PAGE_SIZE);
        let nonce = build_src_nonce(&self.partial_nonce, offset);
        let tag = read_range(&self.src_mac_area, (offset / PAGE_SIZE) * TAG_BYTES, TAG_BYTES);
        proof {
            assert(spec_swap_slot(self.src_data_area@, self.src_mac_area@, offset as int)
                == self.buf@ + tag@);
            assert(page * (PAGE_SIZE as int) == offset as int);
        }
        let ok = aead_open_page(&self.src_key, &nonce, &self.aad, &mut self.buf, &tag);
        if ok {
            self.buf_addr = offset;
            self.buf_valid = true;
            Ok(())
        } else {
            self.buf_valid = false;
            Err(LoaderError::SrcCrypto)
        }
    }

    /// Encrypts the page in `buf` under the destination key, bound to swap
    /// offset `dest_offset`, the virtual page of `src_vaddr` and process
    /// `src_pid`; installs the ciphertext in swap RAM and the tag in the MAC
    /// table. `buf` is left holding the ciphertext.
    pub fn encrypt_swap_to(
        &mut self,
        buf: &mut Vec<u8>,
        dest_offset: usize,
        src_vaddr: usize,
        src_pid: u8,
    )
        requires
            old(self).wf(),
            old(buf)@.len() == PAGE_SIZE,
            dest_offset % PAGE_SIZE == 0,
            dest_offset + PAGE_SIZE <= old(self).dst_data_area@.len(),
            src_vaddr <= 0xFFFF_FFFF,
        ensures
            final(self).wf(),
            final(self).swap_slot_holds(
                dest_offset as int,
                spec_page_round_down(src_vaddr as int),
                src_pid,
                old(buf)@,
            ),
            final(self).dst_data_area@.len() == old(self).dst_data_area@.len(),
            final(self).dst_mac_area@.len() == old(self).dst_mac_area@.len(),
            forall|j: int|
                0 <= j < old(self).dst_data_area@.len() && !(dest_offset <= j < dest_offset
                    + PAGE_SIZE) ==> final(self).dst_data_area@[j] == old(self).dst_data_area@[j],
            forall|j: int|
                0 <= j < old(self).dst_mac_area@.len() && !((dest_offset as int / (
                PAGE_SIZE as int)) * (TAG_BYTES as int) <= j < (dest_offset as int / (
                PAGE_SIZE as int)) * (TAG_BYTES as int) + TAG_BYTES) ==> final(self).dst_mac_area@[j]
                    == old(self).dst_mac_area@[j],
            *final(self) == (SwapHal {
                dst_data_area: final(self).dst_data_area,
                dst_mac_area: final(self).dst_mac_area,
                ..*old(self)
            }),
            final(buf)@ == final(self).dst_data_area@.subrange(
                dest_offset as int,
                dest_offset + PAGE_SIZE,
            ),
    {
        let vpage = page_round_down(src_vaddr);
        let nonce = build_swap_nonce(0, src_pid, dest_offset, vpage);
        let aad: Vec<u8> = Vec::new();
        assert(aad@ =~= Seq::<u8>::empty());
        let tag = aead_seal_page(&self.dst_key, &nonce, &aad, buf);
        let mac_off = (dest_offset / PAGE_SIZE) * TAG_BYTES;
        assert(mac_off + TAG_BYTES <= self.dst_mac_area@.len()) by {
            assert((dest_offset as int / (PAGE_SIZE as int)) < old(self).dst_data_area@.len() as int
                / (PAGE_SIZE as int));
        };
        copy_into(&mut self.dst_data_area, dest_offset, buf, 0, PAGE_SIZE);
        copy_into(&mut self.dst_mac_area, mac_off, &tag, 0, TAG_BYTES);
        proof {
            assert(buf@.subrange(0, PAGE_SIZE as int) =~= buf@);
            assert(tag@.subrange(0, TAG_BYTES as int) =~= tag@);
            assert(self.dst_data_area@.subrange(dest_offset as int, dest_offset + PAGE_SIZE)
                =~= buf@);
            assert(self.dst_mac_area@.subrange(mac_off as int, mac_off + TAG_BYTES) =~= tag@);
            assert(spec_swap_slot(self.dst_data_area@, self.dst_mac_area@, dest_offset as int)
                == buf@ + tag@);
        }
    }

    /// Reads the swap RAM page at byte offset `src_offset` back, checking it
    /// against virtual page `dst_vaddr` and process `dst_pid`. Whenever the
    /// slot holds the sealing of a plaintext under those bindings, the call
    /// succeeds and writes that plaintext — and nothing else — into `buf`;
    /// on failure `buf` is left untouched.
    pub fn decrypt_swap_from(
        &self,
        buf: &mut Vec<u8>,
        src_offset: usize,
        dst_vaddr: usize,
        dst_pid: u8,
    ) -> (r: Result<(), LoaderError>)
        requires
            self.wf(),
            old(buf)@.len() == PAGE_SIZE,
            src_offset % PAGE_SIZE == 0,
            src_offset + PAGE_SIZE <= self.dst_data_area@.len(),
            dst_vaddr <= 0xFFFF_FFFF,
        ensures
            forall|pt: Seq<u8>|
                self.swap_slot_holds(
                    src_offset as int,
                    spec_page_round_down(dst_vaddr as int),
                    dst_pid,
                    pt,
                ) ==> r is Ok && final(buf)@ == pt,
            r is Ok ==> self.swap_slot_holds(
                src_offset as int,
                spec_page_round_down(dst_vaddr as int),
                dst_pid,
                final(buf)@,
            ),
            r is Err ==> final(buf)@ == old(buf)@ && r == Err::<(), LoaderError>(
                LoaderError::SwapCrypto,
            ),
            final(buf)@.len() == PAGE_SIZE,
    {
        let vpage = page_round_down(dst_vaddr);
        let nonce = build_swap_nonce(0, dst_pid, src_offset, vpage);
        let aad: Vec<u8> = Vec::new();
        assert(aad@ =~= Seq::<u8>::empty());
        let mac_off = (src_offset / PAGE_SIZE) * TAG_BYTES;
        assert(mac_off + TAG_BYTES <= self.dst_mac_area@.len()) by {
            assert((src_offset as int / (PAGE_SIZE as int)) < self.dst_data_area@.len() as int
                / (PAGE_SIZE as int));
        };
        let mut work = read_range(&self.dst_data_area, src_offset, PAGE_SIZE);
        let tag = read_range(&self.dst_mac_area, mac_off, TAG_BYTES);
        proof {
            assert(spec_swap_slot(self.dst_data_area@, self.dst_mac_area@, src_offset as int)
                == work@ + tag@);
        }
        let ok = aead_open_page(&self.dst_key, &nonce, &aad, &mut work, &tag);
        if ok {
            copy_into(buf, 0, &work, 0, PAGE_SIZE);
            assert(buf@ =~= work@);
            Ok(())
        } else {
            Err(LoaderError::SwapCrypto)
        }
    }
}

} // verus!
