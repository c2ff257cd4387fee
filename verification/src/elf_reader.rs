//! The flash model of a program image: which sections of an ELF image are
//! destined for on-chip flash, their bytes, their memory map and their
//! digest.

use crate::checksum::{
    block_checksum, catalogue_crc32, le_bytes, lemma_block_checksum_complements_crc32,
};
use vstd::prelude::*;

verus! {

/// Section flag of the ELF format: the section occupies memory at run time.
pub const SHF_ALLOC: u64 = 0x2;

/// Section type of the ELF format: the section holds no bytes in the file.
pub const SHT_NOBITS: u32 = 8;

/// First address of the primary flash window.
pub const PRIMARY_FLASH_START: u32 = 0x0000_0000;

/// First address after the primary flash window.
pub const PRIMARY_FLASH_END: u32 = 0x0002_0000;

/// First address of the information flash window.
pub const INFO_FLASH_START: u32 = 0x41c0_0000;

/// First address after the information flash window.
pub const INFO_FLASH_END: u32 = 0x41c0_0400;

/// One row of an image's section table.
#[derive(Clone, Copy, Debug, PartialEq, Eq, Structural)]
pub struct SectionEntry {
    /// Load address.
    pub address: u64,
    /// Size in bytes.
    pub size: u64,
    /// Section type.
    pub kind: u32,
    /// Section flags.
    pub flags: u64,
    /// Offset of the section's bytes in the image file.
    pub offset: u64,
}

/// A region of flash with the bytes that the image expects there.
#[derive(Debug, Clone)]
pub struct FlashSection {
    pub address: u32,
    pub size: u32,
    pub data: Vec<u8>,
}

/// What a [`FlashSection`] holds.
pub struct SectionView {
    pub address: u32,
    pub size: u32,
    pub data: Seq<u8>,
}

impl View for FlashSection {
    type V = SectionView;

    open spec fn view(&self) -> SectionView {
        SectionView { address: self.address, size: self.size, data: self.data@ }
    }
}

/// The flash sections of an image, ascending by address, and its entry
/// point.
pub struct ElfFlashVerifier {
    pub sections: Vec<FlashSection>,
    pub entry_point: u32,
}

/// What an [`ElfFlashVerifier`] holds.
pub struct ImageView {
    pub sections: Seq<SectionView>,
    pub entry_point: u32,
}

/// The views of a sequence of sections.
pub open spec fn section_views(sections: Seq<FlashSection>) -> Seq<SectionView> {
    sections.map_values(|s: FlashSection| s@)
}

impl View for ElfFlashVerifier {
    type V = ImageView;

    open spec fn view(&self) -> ImageView {
        ImageView { sections: section_views(self.sections@), entry_point: self.entry_point }
    }
}

/// Why an image gave no flash model.
#[derive(Clone, Copy, Debug, PartialEq, Eq, Structural)]
pub enum ImageError {
    /// The bytes are not an ELF image that can be read.
    Malformed,
    /// A flash section's bytes would lie beyond the end of the image.
    SectionOutOfBounds,
}

/// Whether an address lies in one of the two flash windows.
pub open spec fn in_flash_window(address: u32) -> bool {
    (PRIMARY_FLASH_START <= address < PRIMARY_FLASH_END) || (INFO_FLASH_START <= address
        < INFO_FLASH_END)
}

/// The low 32 bits of a 64-bit field.
pub open spec fn low32(x: u64) -> u32 {
    (x & 0xffff_ffff) as u32
}

impl SectionEntry {
    /// The section's address on the 32-bit target.
    pub open spec fn load_address(self) -> u32 {
        low32(self.address)
    }

    /// Whether the section is programmed to flash: it occupies memory, it
    /// has bytes in the file, and its address lies in a flash window.
    pub open spec fn programmable(self) -> bool {
        &&& self.flags & SHF_ALLOC != 0
        &&& self.kind != SHT_NOBITS
        &&& in_flash_window(self.load_address())
    }

    /// Whether the section's bytes lie inside an image of `image_len` bytes.
    pub open spec fn in_bounds(self, image_len: int) -> bool {
        self.offset + self.size <= image_len
    }

    /// The flash section that the entry describes in `image`.
    pub open spec fn section(self, image: Seq<u8>) -> SectionView {
        SectionView {
            address: self.load_address(),
            size: low32(self.size),
            data: image.subrange(self.offset as int, self.offset + self.size),
        }
    }
}

/// The place of a new section in an ascending sequence: behind every
/// section whose address is not greater than its own.
pub open spec fn insertion_point(sorted: Seq<SectionView>, address: u32) -> int
    decreases sorted.len(),
{
    if sorted.len() == 0 || sorted.last().address <= address {
        sorted.len() as int
    } else {
        insertion_point(sorted.drop_last(), address)
    }
}

/// The sections in ascending order of address; sections of equal address
/// keep their order.
pub open spec fn sort_by_address(sections: Seq<SectionView>) -> Seq<SectionView>
    decreases sections.len(),
{
    if sections.len() == 0 {
        Seq::empty()
    } else {
        let sorted = sort_by_address(sections.drop_last());
        sorted.insert(insertion_point(sorted, sections.last().address), sections.last())
    }
}

/// The flash sections of a section table, in table order.
pub open spec fn flash_sections(image: Seq<u8>, table: Seq<SectionEntry>) -> Seq<SectionView>
    decreases table.len(),
{
    if table.len() == 0 {
        Seq::empty()
    } else {
        let rest = flash_sections(image, table.drop_last());
        if table.last().programmable() {
            rest.push(table.last().section(image))
        } else {
            rest
        }
    }
}

/// Whether some flash section of the table reaches beyond the image.
pub open spec fn table_overruns(image_len: int, table: Seq<SectionEntry>) -> bool {
    exists|i: int|
        0 <= i < table.len() && (#[trigger] table[i]).programmable() && !table[i].in_bounds(
            image_len,
        )
}

/// The flash model of an image with the given section table and entry
/// point.
pub open spec fn flash_model(image: Seq<u8>, table: Seq<SectionEntry>, entry: u64) -> Result<
    ImageView,
    ImageError,
> {
    if table_overruns(image.len() as int, table) {
        Err(ImageError::SectionOutOfBounds)
    } else {
        Ok(
            ImageView {
                sections: sort_by_address(flash_sections(image, table)),
                entry_point: low32(entry),
            },
        )
    }
}

/// Whether a sequence of sections ascends by address.
pub open spec fn ascending(sections: Seq<SectionView>) -> bool {
    forall|i: int, j: int|
        0 <= i < j < sections.len() ==> (#[trigger] sections[i]).address <= (
        #[trigger] sections[j]).address
}

/// The insertion point lies inside the sequence; everything before it is
/// not greater, and in an ascending sequence everything from it on is
/// greater.
pub proof fn lemma_insertion_point(sorted: Seq<SectionView>, address: u32)
    ensures
        0 <= insertion_point(sorted, address) <= sorted.len(),
        insertion_point(sorted, address) > 0 ==> sorted[insertion_point(sorted, address)
            - 1].address <= address,
        forall|j: int|
            insertion_point(sorted, address) <= j < sorted.len() ==> (
            #[trigger] sorted[j]).address > address,
        ascending(sorted) ==> forall|j: int|
            0 <= j < insertion_point(sorted, address) ==> (#[trigger] sorted[j]).address
                <= address,
    decreases sorted.len(),
{
    if sorted.len() == 0 || sorted.last().address <= address {
    } else {
        lemma_insertion_point(sorted.drop_last(), address);
        let p = insertion_point(sorted.drop_last(), address);
        assert forall|j: int| p <= j < sorted.len() implies (#[trigger] sorted[j]).address
            > address by {
            if j < sorted.len() - 1 {
                assert(sorted.drop_last()[j] == sorted[j]);
            }
        }
        if ascending(sorted) {
            assert(ascending(sorted.drop_last())) by {
                assert forall|i: int, j: int| 0 <= i < j < sorted.drop_last().len() implies (
                #[trigger] sorted.drop_last()[i]).address <= (
                #[trigger] sorted.drop_last()[j]).address by {
                    assert(sorted[i].address <= sorted[j].address);
                }
            }
            assert forall|j: int| 0 <= j < p implies (#[trigger] sorted[j]).address
                <= address by {
                assert(sorted.drop_last()[j] == sorted[j]);
            }
        }
        if p > 0 {
            assert(sorted.drop_last()[p - 1] == sorted[p - 1]);
        }
    }
}

/// Sorting gives an ascending sequence that holds the same sections, each as
/// often as before.
pub proof fn lemma_sort_by_address(sections: Seq<SectionView>)
    ensures
        ascending(sort_by_address(sections)),
        sort_by_address(sections).len() == sections.len(),
        sort_by_address(sections).to_multiset() == sections.to_multiset(),
    decreases sections.len(),
{
    broadcast use vstd::seq_lib::group_to_multiset_ensures;

    if sections.len() == 0 {
        assert(sort_by_address(sections).to_multiset() =~= sections.to_multiset());
    } else {
        let rest = sections.drop_last();
        let last = sections.last();
        lemma_sort_by_address(rest);
        let sorted = sort_by_address(rest);
        lemma_insertion_point(sorted, last.address);
        let p = insertion_point(sorted, last.address);
        let out = sorted.insert(p, last);
        assert forall|i: int, j: int| 0 <= i < j < out.len() implies (#[trigger] out[i]).address
            <= (#[trigger] out[j]).address by {
            if j < p {
                assert(out[i] == sorted[i] && out[j] == sorted[j]);
            } else if j == p {
                assert(out[i] == sorted[i]);
            } else if i < p {
                assert(out[i] == sorted[i] && out[j] == sorted[j - 1]);
                assert(sorted[j - 1].address > last.address);
            } else if i == p {
                assert(out[j] == sorted[j - 1]);
            } else {
                assert(out[i] == sorted[i - 1] && out[j] == sorted[j - 1]);
            }
        }
        assert(out.remove(p) =~= sorted);
        assert(out.remove(p).to_multiset() =~= out.to_multiset().remove(out[p]));
        assert(out.to_multiset().count(last) > 0) by {
            assert(out[p] == last);
            assert(out.contains(last));
        }
        assert(out.to_multiset() =~= sorted.to_multiset().insert(last));
        assert(sections =~= rest.push(last));
        assert(sections.to_multiset() =~= rest.to_multiset().insert(last));
    }
}

/// The sections at one address, in the order in which they stand.
pub open spec fn sections_at(sections: Seq<SectionView>, address: u32) -> Seq<SectionView>
    decreases sections.len(),
{
    if sections.len() == 0 {
        Seq::empty()
    } else if sections.last().address == address {
        sections_at(sections.drop_last(), address).push(sections.last())
    } else {
        sections_at(sections.drop_last(), address)
    }
}

/// The sections at one address of a concatenation are those of its parts.
proof fn lemma_sections_at_concat(a: Seq<SectionView>, b: Seq<SectionView>, address: u32)
    ensures
        sections_at(a + b, address) == sections_at(a, address) + sections_at(b, address),
    decreases b.len(),
{
    if b.len() == 0 {
        assert(a + b =~= a);
        assert(sections_at(a, address) + sections_at(b, address) =~= sections_at(a, address));
    } else {
        assert((a + b).drop_last() =~= a + b.drop_last());
        lemma_sections_at_concat(a, b.drop_last(), address);
        if b.last().address == address {
            assert(sections_at(a, address) + sections_at(b.drop_last(), address).push(b.last())
                =~= (sections_at(a, address) + sections_at(b.drop_last(), address)).push(
                b.last(),
            ));
        }
    }
}

/// Sections that all lie above an address hold none at it.
proof fn lemma_sections_at_above(sections: Seq<SectionView>, address: u32)
    requires
        forall|j: int| 0 <= j < sections.len() ==> (#[trigger] sections[j]).address > address,
    ensures
        sections_at(sections, address) == Seq::<SectionView>::empty(),
    decreases sections.len(),
{
    if sections.len() > 0 {
        assert forall|j: int| 0 <= j < sections.drop_last().len() implies (
        #[trigger] sections.drop_last()[j]).address > address by {
            assert(sections.drop_last()[j] == sections[j]);
        }
        lemma_sections_at_above(sections.drop_last(), address);
    }
}

/// Sorting is stable: the sections at any one address stand after sorting
/// in the order in which they stood before.
pub proof fn lemma_sort_is_stable(sections: Seq<SectionView>, address: u32)
    ensures
        sections_at(sort_by_address(sections), address) == sections_at(sections, address),
    decreases sections.len(),
{
    if sections.len() > 0 {
        let rest = sections.drop_last();
        let last = sections.last();
        lemma_sort_is_stable(rest, address);
        let sorted = sort_by_address(rest);
        lemma_insertion_point(sorted, last.address);
        let p = insertion_point(sorted, last.address);
        let head = sorted.take(p);
        let tail = sorted.skip(p);
        let out = sorted.insert(p, last);
        assert(out =~= head + seq![last] + tail);
        assert(sorted =~= head + tail);
        lemma_sections_at_concat(head + seq![last], tail, address);
        lemma_sections_at_concat(head, seq![last], address);
        lemma_sections_at_concat(head, tail, address);
        let single = seq![last];
        assert(single.drop_last() =~= Seq::<SectionView>::empty());
        assert(sections_at(single.drop_last(), address) =~= Seq::<SectionView>::empty());
        assert(single.last() == last);
        if last.address == address {
            assert forall|j: int| 0 <= j < tail.len() implies (#[trigger] tail[j]).address
                > address by {
                assert(tail[j] == sorted[p + j]);
            }
            lemma_sections_at_above(tail, address);
            assert(sections_at(single, address) =~= seq![last]);
            assert(sections_at(out, address) =~= sections_at(sorted, address).push(last));
        } else {
            assert(sections_at(single, address) =~= Seq::<SectionView>::empty());
            assert(sections_at(out, address) =~= sections_at(sorted, address));
        }
    }
}

/// Every flash section of a table lies in a flash window, and there are no
/// more of them than table entries.
pub proof fn lemma_flash_sections_in_window(image: Seq<u8>, table: Seq<SectionEntry>)
    ensures
        flash_sections(image, table).len() <= table.len(),
        forall|i: int|
            0 <= i < flash_sections(image, table).len() ==> in_flash_window(
                (#[trigger] flash_sections(image, table)[i]).address,
            ),
    decreases table.len(),
{
    if table.len() > 0 {
        lemma_flash_sections_in_window(image, table.drop_last());
    }
}

/// A table of one entry gives that entry's section when the entry is
/// programmable, and nothing otherwise.
pub proof fn lemma_single_entry(image: Seq<u8>, entry: SectionEntry)
    ensures
        entry.programmable() ==> flash_sections(image, seq![entry]) == seq![entry.section(image)],
        !entry.programmable() ==> flash_sections(image, seq![entry]) == Seq::<
            SectionView,
        >::empty(),
{
    let table = seq![entry];
    assert(table.drop_last() =~= Seq::<SectionEntry>::empty());
    assert(flash_sections(image, table.drop_last()) =~= Seq::<SectionView>::empty());
    if entry.programmable() {
        assert(flash_sections(image, table) =~= seq![entry.section(image)]);
    }
}

fn low32_of(x: u64) -> (r: u32)
    ensures
        r == low32(x),
{
    let masked = x & 0xffff_ffff;
    assert(x & 0xffff_ffff <= 0xffff_ffff) by (bit_vector);
    masked as u32
}

impl ElfFlashVerifier {
    /// Whether a section is programmed to flash.
    pub fn is_programmable_section(entry: &SectionEntry) -> (programmable: bool)
        ensures
            programmable == entry.programmable(),
    {
        if (entry.flags & SHF_ALLOC) == 0 {
            return false;
        }
        if entry.kind == SHT_NOBITS {
            return false;
        }
        let addr = low32_of(entry.address);
        if addr >= PRIMARY_FLASH_START && addr < PRIMARY_FLASH_END {
            return true;
        }
        if addr >= INFO_FLASH_START && addr < INFO_FLASH_END {
            return true;
        }
        false
    }

    /// The bytes of a section in the image, or the refusal to read beyond
    /// the image's end.
    pub fn extract_section_data(buffer: &[u8], entry: &SectionEntry) -> (r: Result<
        Vec<u8>,
        ImageError,
    >)
        ensures
            entry.in_bounds(buffer@.len() as int) ==> r is Ok && r->Ok_0@ == buffer@.subrange(
                entry.offset as int,
                entry.offset + entry.size,
            ),
            !entry.in_bounds(buffer@.len() as int) ==> r == Err::<Vec<u8>, ImageError>(
                ImageError::SectionOutOfBounds,
            ),
    {
        let end: u128 = entry.offset as u128 + entry.size as u128;
        if end > buffer.len() as u128 {
            return Err(ImageError::SectionOutOfBounds);
        }
        let part = vstd::slice::slice_subrange(buffer, entry.offset as usize, end as usize);
        Ok(vstd::slice::slice_to_vec(part))
    }

    /// Puts a section into an ascending list, behind the sections whose
    /// address is not greater than its own.
    fn insert_section(sorted: &mut Vec<FlashSection>, section: FlashSection)
        ensures
            section_views(final(sorted)@) == section_views(old(sorted)@).insert(
                insertion_point(section_views(old(sorted)@), section.address),
                section@,
            ),
    {
        let ghost before = section_views(sorted@);
        let address = section.address;
        let mut idx: usize = sorted.len();
        assert(before.take(idx as int) =~= before);
        while idx > 0 && sorted[idx - 1].address > address
            invariant
                idx <= sorted.len(),
                before == section_views(sorted@),
                insertion_point(before, address) == insertion_point(before.take(idx as int), address),
            decreases idx,
        {
            proof {
                let head = before.take(idx as int);
                assert(head.last() == sorted@[idx - 1]@);
                assert(head.drop_last() =~= before.take(idx - 1));
            }
            idx = idx - 1;
        }
        proof {
            let head = before.take(idx as int);
            if idx > 0 {
                assert(head.last() == sorted@[idx - 1]@);
            }
            assert(insertion_point(head, address) == idx);
        }
        sorted.insert(idx, section);
        assert(section_views(sorted@) =~= before.insert(idx as int, section@));
    }

    /// The flash model of an image, from its bytes, its section table and
    /// its entry point. The sections that are programmed to flash are copied
    /// out of the image and ordered by address; a flash section whose bytes
    /// would lie beyond the image's end fails the whole call.
    pub fn from_section_table(buffer: &[u8], table: &[SectionEntry], entry: u64) -> (r: Result<
        ElfFlashVerifier,
        ImageError,
    >)
        ensures
            match flash_model(buffer@, table@, entry) {
                Ok(model) => r is Ok && r->Ok_0@ == model,
                Err(error) => r == Err::<ElfFlashVerifier, ImageError>(error),
            },
            r is Ok ==> ascending(r->Ok_0@.sections),
    {
        let mut sections: Vec<FlashSection> = Vec::new();
        let mut i: usize = 0;
        assert(table@.take(0) =~= Seq::<SectionEntry>::empty());
        while i < table.len()
            invariant
                i <= table.len(),
                section_views(sections@) == sort_by_address(
                    flash_sections(buffer@, table@.take(i as int)),
                ),
                forall|j: int|
                    0 <= j < i && (#[trigger] table@[j]).programmable() ==> table@[j].in_bounds(
                        buffer@.len() as int,
                    ),
            decreases table.len() - i,
        {
            let row = table[i];
            proof {
                assert(table@.take(i + 1).drop_last() =~= table@.take(i as int));
                assert(table@.take(i + 1).last() == row);
            }
            if Self::is_programmable_section(&row) {
                match Self::extract_section_data(buffer, &row) {
                    Ok(data) => {
                        let section = FlashSection {
                            address: low32_of(row.address),
                            size: low32_of(row.size),
                            data,
                        };
                        assert(section@ == row.section(buffer@));
                        proof {
                            let found = flash_sections(buffer@, table@.take(i + 1));
                            assert(found.drop_last() =~= flash_sections(
                                buffer@,
                                table@.take(i as int),
                            ));
                        }
                        Self::insert_section(&mut sections, section);
                    },
                    Err(error) => {
                        assert(table_overruns(buffer@.len() as int, table@));
                        return Err(error);
                    },
                }
            }
            i = i + 1;
        }
        proof {
            assert(table@.take(i as int) =~= table@);
            lemma_sort_by_address(flash_sections(buffer@, table@));
        }
        Ok(ElfFlashVerifier { sections, entry_point: low32_of(entry) })
    }
}

/// The section table and the entry point that the `goblin` crate reads from
/// the bytes of an ELF image, or `None` where it refuses them.
pub uninterp spec fn elf_layout(image: Seq<u8>) -> Option<(Seq<SectionEntry>, u64)>;

/// `goblin::error::Error`: why `goblin` refused an image. It is carried out
/// of the parser unread.
#[verifier::external_type_specification]
#[verifier::external_body]
pub struct ExGoblinError(goblin::error::Error);

/// `goblin::elf::Elf::parse`, with each section header reduced to the five
/// fields of a [`SectionEntry`] and the header's entry point beside them.
/// The contract claims only that the outcome is decided by the bytes: it is
/// [`elf_layout`] of them.
#[verifier::external_body]
fn parse_elf_layout(image: &[u8]) -> (r: Result<(Vec<SectionEntry>, u64), goblin::error::Error>)
    ensures
        match r {
            Ok(layout) => elf_layout(image@) == Some((layout.0@, layout.1)),
            Err(_) => elf_layout(image@) is None,
        },
{
    let elf = goblin::elf::Elf::parse(image)?;
    let table = elf.section_headers.iter().map(
        |h| SectionEntry {
            address: h.sh_addr,
            size: h.sh_size,
            kind: h.sh_type,
            flags: h.sh_flags,
            offset: h.sh_offset,
        },
    ).collect();
    Ok((table, elf.entry))
}

/// Whether the last byte of a section has a 32-bit address, so that the
/// section has an inclusive end.
pub open spec fn mappable(section: SectionView) -> bool {
    1 <= section.address + section.size <= 0x1_0000_0000
}

/// The memory map of a list of sections: first and last address of each.
pub open spec fn memory_map(sections: Seq<SectionView>) -> Seq<(u32, u32)> {
    Seq::new(
        sections.len(),
        |i: int| (sections[i].address, (sections[i].address + sections[i].size - 1) as u32),
    )
}

/// The bytes that the digest of a list of sections covers: for each section
/// its address, least significant byte first, and then its bytes.
pub open spec fn digest_stream(sections: Seq<SectionView>) -> Seq<u8>
    decreases sections.len(),
{
    if sections.len() == 0 {
        Seq::empty()
    } else {
        digest_stream(sections.drop_last()) + le_bytes(sections.last().address)
            + sections.last().data
    }
}

impl ElfFlashVerifier {
    /// The flash model of an ELF image, from its bytes.
    pub fn from_elf_bytes(buffer: &[u8]) -> (r: Result<ElfFlashVerifier, ImageError>)
        ensures
            match elf_layout(buffer@) {
                None => r == Err::<ElfFlashVerifier, ImageError>(ImageError::Malformed),
                Some(layout) => match flash_model(buffer@, layout.0, layout.1) {
                    Ok(model) => r is Ok && r->Ok_0@ == model,
                    Err(error) => r == Err::<ElfFlashVerifier, ImageError>(error),
                },
            },
            r is Ok ==> ascending(r->Ok_0@.sections),
    {
        match parse_elf_layout(buffer) {
            Ok(layout) => Self::from_section_table(buffer, layout.0.as_slice(), layout.1),
            Err(_) => Err(ImageError::Malformed),
        }
    }

    /// Whether every section has an inclusive end address.
    pub fn is_mappable(&self) -> (ok: bool)
        ensures
            ok == forall|i: int|
                0 <= i < self@.sections.len() ==> mappable(#[trigger] self@.sections[i]),
    {
        let mut i: usize = 0;
        while i < self.sections.len()
            invariant
                i <= self.sections.len(),
                forall|j: int| 0 <= j < i ==> mappable(#[trigger] self@.sections[j]),
            decreases self.sections.len() - i,
        {
            let end: u64 = self.sections[i].address as u64 + self.sections[i].size as u64;
            if end < 1 || end > 0x1_0000_0000 {
                assert(!mappable(self@.sections[i as int]));
                return false;
            }
            i = i + 1;
        }
        true
    }

    /// First and last address of every section, in the order of the
    /// sections.
    pub fn get_memory_map(&self) -> (map: Vec<(u32, u32)>)
        requires
            forall|i: int| 0 <= i < self@.sections.len() ==> mappable(#[trigger] self@.sections[i]),
        ensures
            map@ == memory_map(self@.sections),
    {
        let mut map: Vec<(u32, u32)> = Vec::new();
        let mut i: usize = 0;
        while i < self.sections.len()
            invariant
                i <= self.sections.len(),
                forall|j: int|
                    0 <= j < self@.sections.len() ==> mappable(#[trigger] self@.sections[j]),
                map@ == memory_map(self@.sections).take(i as int),
            decreases self.sections.len() - i,
        {
            let section = &self.sections[i];
            assert(mappable(self@.sections[i as int]));
            let end: u64 = section.address as u64 + section.size as u64 - 1;
            map.push((section.address, end as u32));
            i = i + 1;
            assert(map@ =~= memory_map(self@.sections).take(i as int));
        }
        assert(memory_map(self@.sections).take(i as int) =~= memory_map(self@.sections));
        map
    }

    /// The digest of the image's flash: the block checksum over each
    /// section's address, least significant byte first, followed by the
    /// section's bytes, in the order of the sections. It is computed as the
    /// complement of the common CRC-32 of those bytes.
    pub fn calculate_checksum(&self) -> (digest: u32)
        ensures
            digest == block_checksum(digest_stream(self@.sections)),
    {
        let mut stream: Vec<u8> = Vec::new();
        let mut i: usize = 0;
        assert(self@.sections.take(0) =~= Seq::<SectionView>::empty());
        while i < self.sections.len()
            invariant
                i <= self.sections.len(),
                stream@ == digest_stream(self@.sections.take(i as int)),
            decreases self.sections.len() - i,
        {
            let section = &self.sections[i];
            let address = section.address;
            let ghost before = stream@;
            stream.push((address & 0xff) as u8);
            stream.push(((address >> 8) & 0xff) as u8);
            stream.push(((address >> 16) & 0xff) as u8);
            stream.push(((address >> 24) & 0xff) as u8);
            assert(stream@ =~= before + le_bytes(address));
            let ghost head = stream@;
            let mut k: usize = 0;
            while k < section.data.len()
                invariant
                    k <= section.data.len(),
                    stream@ == head + section.data@.take(k as int),
                decreases section.data.len() - k,
            {
                stream.push(section.data[k]);
                k = k + 1;
                assert(stream@ =~= head + section.data@.take(k as int));
            }
            proof {
                assert(section.data@.take(k as int) =~= section.data@);
                let done = self@.sections.take(i + 1);
                assert(done.drop_last() =~= self@.sections.take(i as int));
                assert(done.last() == section@);
            }
            i = i + 1;
        }
        assert(self@.sections.take(i as int) =~= self@.sections);
        let common = catalogue_crc32(stream.as_slice());
        proof {
            lemma_block_checksum_complements_crc32(stream@);
        }
        !common
    }
}


} // verus!
