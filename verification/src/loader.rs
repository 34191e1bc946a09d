use crate::memory::overlay;
use vstd::prelude::*;

verus! {

/// A program image to place at cell 0, and where execution starts.
pub struct LoadedBinary {
    pub data: Vec<u8>,
    pub entry_point: u32,
}

/// Why a file that starts like an ELF file cannot be loaded.
#[derive(Debug, PartialEq, Eq, Structural)]
pub enum LoadError {
    HeaderTooShort,
    Not32Bit,
    NotLittleEndian,
}

impl LoadError {
    /// What went wrong, in words.
    pub fn message(&self) -> (text: &'static str)
        ensures
            text@ == match self {
                LoadError::HeaderTooShort => "ELF header too short"@,
                LoadError::Not32Bit => "not a 32-bit ELF"@,
                LoadError::NotLittleEndian => "not little-endian ELF"@,
            },
    {
        match self {
            LoadError::HeaderTooShort => "ELF header too short",
            LoadError::Not32Bit => "not a 32-bit ELF",
            LoadError::NotLittleEndian => "not little-endian ELF",
        }
    }
}

/// Little-endian 16-bit value at `off`.
pub open spec fn le16(d: Seq<u8>, off: int) -> int {
    d[off] + 0x100 * d[off + 1]
}

/// Little-endian 32-bit value at `off`.
pub open spec fn le32(d: Seq<u8>, off: int) -> int {
    d[off] + 0x100 * d[off + 1] + 0x1_0000 * d[off + 2] + 0x100_0000 * d[off + 3]
}

/// The four bytes every ELF file starts with.
pub open spec fn has_elf_magic(d: Seq<u8>) -> bool {
    d.len() >= 4 && d[0] == 0x7f && d[1] == 0x45 && d[2] == 0x4c && d[3] == 0x46
}

/// A 52-byte ELF32 header that is little-endian.
pub open spec fn elf_header_ok(d: Seq<u8>) -> bool {
    d.len() >= 52 && d[4] == 1 && d[5] == 1
}

/// Number of program headers.
pub open spec fn ph_count(d: Seq<u8>) -> int {
    le16(d, 44)
}

/// File offset of program header `i`.
pub open spec fn ph_offset(d: Seq<u8>, i: int) -> int {
    le32(d, 28) + i * le16(d, 42)
}

/// Program header `i` describes a loadable segment (PT_LOAD).
pub open spec fn is_load_segment(d: Seq<u8>, i: int) -> bool {
    le32(d, ph_offset(d, i)) == 1
}

pub open spec fn seg_file_offset(d: Seq<u8>, i: int) -> int {
    le32(d, ph_offset(d, i) + 4)
}

pub open spec fn seg_vaddr(d: Seq<u8>, i: int) -> int {
    le32(d, ph_offset(d, i) + 8)
}

pub open spec fn seg_file_size(d: Seq<u8>, i: int) -> int {
    le32(d, ph_offset(d, i) + 16)
}

pub open spec fn seg_mem_size(d: Seq<u8>, i: int) -> int {
    le32(d, ph_offset(d, i) + 20)
}

/// The end of the highest loadable segment among the first `n` program headers.
pub open spec fn image_end(d: Seq<u8>, n: int) -> int
    decreases n,
{
    if n <= 0 {
        0
    } else {
        let prev = image_end(d, n - 1);
        let end = seg_vaddr(d, n - 1) + seg_mem_size(d, n - 1);
        if is_load_segment(d, n - 1) && end > prev {
            end
        } else {
            prev
        }
    }
}

/// The image after copying the file bytes of the loadable segments among the
/// first `n` program headers, in order, into a zeroed image of `image_end` bytes.
pub open spec fn image_after(d: Seq<u8>, n: int) -> Seq<u8>
    decreases n,
{
    if n <= 0 {
        Seq::new(image_end(d, ph_count(d)) as nat, |j: int| 0u8)
    } else {
        let prev = image_after(d, n - 1);
        if is_load_segment(d, n - 1) {
            overlay(
                prev,
                seg_vaddr(d, n - 1),
                d.subrange(
                    seg_file_offset(d, n - 1),
                    seg_file_offset(d, n - 1) + seg_file_size(d, n - 1),
                ),
            )
        } else {
            prev
        }
    }
}

/// Program header `i` lies in the file, and if it is loadable, so do its file
/// bytes, which also fit in the image.
pub open spec fn segment_fits(d: Seq<u8>, i: int) -> bool {
    &&& ph_offset(d, i) + 4 <= d.len()
    &&& is_load_segment(d, i) ==> {
        &&& ph_offset(d, i) + 24 <= d.len()
        &&& seg_file_offset(d, i) + seg_file_size(d, i) <= d.len()
        &&& seg_vaddr(d, i) + seg_file_size(d, i) <= image_end(d, ph_count(d))
    }
}

/// Every program header and every loadable segment lies where the loader reads
/// and writes it, and the image size is addressable.
pub open spec fn elf_fits(d: Seq<u8>) -> bool {
    &&& forall|i: int| 0 <= i < ph_count(d) ==> #[trigger] segment_fits(d, i)
    &&& image_end(d, ph_count(d)) <= usize::MAX
}

/// What loading the ELF file `d` gives: the image and the entry point, or why the
/// header is refused.
pub open spec fn spec_load_elf(d: Seq<u8>) -> Result<(Seq<u8>, u32), LoadError> {
    if d.len() < 52 {
        Err(LoadError::HeaderTooShort)
    } else if d[4] != 1 {
        Err(LoadError::Not32Bit)
    } else if d[5] != 1 {
        Err(LoadError::NotLittleEndian)
    } else {
        Ok((image_after(d, ph_count(d)), le32(d, 24) as u32))
    }
}

/// What loading the file `d` gives: an ELF file is loaded as such; any other file
/// is its own image, entered at 0.
pub open spec fn spec_load_image(d: Seq<u8>) -> Result<(Seq<u8>, u32), LoadError> {
    if has_elf_magic(d) {
        spec_load_elf(d)
    } else {
        Ok((d, 0))
    }
}

/// A load result as a value: the image's bytes and the entry point.
pub open spec fn load_outcome(r: Result<LoadedBinary, LoadError>) -> Result<(Seq<u8>, u32), LoadError> {
    match r {
        Ok(b) => Ok((b.data@, b.entry_point)),
        Err(e) => Err(e),
    }
}

proof fn lemma_le_bytes(b0: u8, b1: u8, b2: u8, b3: u8)
    by (bit_vector)
    ensures
        (b0 as u16) | ((b1 as u16) << 8) == b0 + 0x100 * b1,
        (b0 as u32) | ((b1 as u32) << 8) | ((b2 as u32) << 16) | ((b3 as u32) << 24) == b0 + 0x100
            * b1 + 0x1_0000 * b2 + 0x100_0000 * b3,
{
}

fn read_u16_le(data: &[u8], offset: usize) -> (r: u16)
    requires
        offset + 2 <= data.len(),
    ensures
        r == le16(data@, offset as int),
{
    proof {
        lemma_le_bytes(data[offset as int], data[offset + 1], 0, 0);
    }
    (data[offset] as u16) | ((data[offset + 1] as u16) << 8)
}

fn read_u32_le(data: &[u8], offset: usize) -> (r: u32)
    requires
        offset + 4 <= data.len(),
    ensures
        r == le32(data@, offset as int),
{
    proof {
        lemma_le_bytes(data[offset as int], data[offset + 1], data[offset + 2], data[offset + 3]);
    }
    (data[offset] as u32) | ((data[offset + 1] as u32) << 8) | ((data[offset + 2] as u32) << 16)
        | ((data[offset + 3] as u32) << 24)
}

proof fn lemma_image_end_monotone(d: Seq<u8>, m: int, n: int)
    requires
        0 <= m <= n,
    ensures
        image_end(d, m) <= image_end(d, n),
    decreases n - m,
{
    if m < n {
        lemma_image_end_monotone(d, m, n - 1);
    }
}

proof fn lemma_image_end_covers(d: Seq<u8>, i: int, n: int)
    requires
        0 <= i < n,
        is_load_segment(d, i),
    ensures
        seg_vaddr(d, i) + seg_mem_size(d, i) <= image_end(d, n),
{
    lemma_image_end_monotone(d, i + 1, n);
}

proof fn lemma_image_after_len(d: Seq<u8>, n: int)
    requires
        0 <= n,
    ensures
        image_after(d, n).len() == image_end(d, ph_count(d)),
    decreases n,
{
    if n > 0 {
        lemma_image_after_len(d, n - 1);
    }
    if image_end(d, ph_count(d)) < 0 {
        lemma_image_end_monotone(d, 0, ph_count(d));
    }
}

/// Whether the program headers and loadable segments of an ELF file with a valid
/// header all lie where `load_elf` reads and writes them.
pub fn elf_layout_fits(file_data: &[u8]) -> (ok: bool)
    requires
        elf_header_ok(file_data@),
    ensures
        ok == elf_fits(file_data@),
{
    let ghost d = file_data@;
    let n = file_data.len();
    let len = n as u64;
    let phoff = read_u32_le(file_data, 28) as u64;
    let phnum = read_u16_le(file_data, 44) as u64;
    let phentsize = read_u16_le(file_data, 42) as u64;
    // first pass: headers in the file, and the image size
    let mut max_addr: u64 = 0;
    let mut i: u64 = 0;
    while i < phnum
        invariant
            elf_header_ok(d),
            d == file_data@,
            n == d.len(),
            len == d.len(),
            phoff == le32(d, 28),
            phnum == ph_count(d),
            phentsize == le16(d, 42),
            i <= phnum,
            max_addr == image_end(d, i as int),
            forall|j: int|
                0 <= j < i ==> #[trigger] ph_offset(d, j) + 4 <= d.len() && (is_load_segment(d, j)
                    ==> ph_offset(d, j) + 24 <= d.len()),
        decreases phnum - i,
    {
        assert(phoff < 0x1_0000_0000 && phentsize < 0x1_0000 && i < 0x1_0000);
        assert(i * phentsize < 0x1_0000 * 0x1_0000) by (nonlinear_arith)
            requires
                phentsize < 0x1_0000,
                i < 0x1_0000,
        ;
        let ph = phoff + i * phentsize;
        if ph + 4 > len {
            assert(ph == ph_offset(d, i as int));
            assert(!segment_fits(d, i as int));
            return false;
        }
        assert(ph == ph_offset(d, i as int));
        let p_type = read_u32_le(file_data, ph as usize);
        if p_type == 1 {
            if ph + 24 > len {
                assert(!segment_fits(d, i as int));
                return false;
            }
            let p_vaddr = read_u32_le(file_data, ph as usize + 8) as u64;
            let p_memsz = read_u32_le(file_data, ph as usize + 20) as u64;
            let end = p_vaddr + p_memsz;
            if end > max_addr {
                max_addr = end;
            }
        }
        i = i + 1;
    }
    if max_addr > usize::MAX as u64 {
        return false;
    }
    assert forall|j: int| 0 <= j < phnum implies #[trigger] ph_offset(d, j) + 4 <= d.len() && (
    is_load_segment(d, j) ==> ph_offset(d, j) + 24 <= d.len()) by {}
    // second pass: segment bytes in the file and in the image
    let mut i: u64 = 0;
    while i < phnum
        invariant
            elf_header_ok(d),
            d == file_data@,
            n == d.len(),
            len == d.len(),
            phoff == le32(d, 28),
            phnum == ph_count(d),
            phentsize == le16(d, 42),
            i <= phnum,
            max_addr == image_end(d, phnum as int),
            max_addr <= usize::MAX,
            forall|j: int|
                0 <= j < phnum ==> #[trigger] ph_offset(d, j) + 4 <= d.len() && (is_load_segment(d, j)
                    ==> ph_offset(d, j) + 24 <= d.len()),
            forall|j: int| 0 <= j < i ==> #[trigger] segment_fits(d, j),
        decreases phnum - i,
    {
        assert(i * phentsize < 0x1_0000 * 0x1_0000) by (nonlinear_arith)
            requires
                phentsize < 0x1_0000,
                i < 0x1_0000,
        ;
        let ph = phoff + i * phentsize;
        assert(ph == ph_offset(d, i as int));
        assert(ph_offset(d, i as int) + 4 <= d.len());
        let p_type = read_u32_le(file_data, ph as usize);
        if p_type == 1 {
            let p_offset = read_u32_le(file_data, ph as usize + 4) as u64;
            let p_vaddr = read_u32_le(file_data, ph as usize + 8) as u64;
            let p_filesz = read_u32_le(file_data, ph as usize + 16) as u64;
            if p_offset + p_filesz > len || p_vaddr + p_filesz > max_addr {
                assert(!segment_fits(d, i as int));
                return false;
            }
        }
        i = i + 1;
    }
    true
}

/// Builds the memory image of a 32-bit little-endian ELF file: each loadable
/// segment's file bytes are copied, in header order, to its address in an image
/// as long as the highest segment end; the rest of the image is zero.
pub fn load_elf(file_data: &[u8]) -> (r: Result<LoadedBinary, LoadError>)
    requires
        elf_header_ok(file_data@) ==> elf_fits(file_data@),
    ensures
        load_outcome(r) == spec_load_elf(file_data@),
{
    if file_data.len() < 52 {
        return Err(LoadError::HeaderTooShort);
    }
    if file_data[4] != 1 {
        return Err(LoadError::Not32Bit);
    }
    if file_data[5] != 1 {
        return Err(LoadError::NotLittleEndian);
    }
    let ghost d = file_data@;
    let n = file_data.len();
    let entry = read_u32_le(file_data, 24);
    let phoff = read_u32_le(file_data, 28) as usize;
    let phnum = read_u16_le(file_data, 44) as usize;
    let phentsize = read_u16_le(file_data, 42) as usize;

    let mut max_addr: usize = 0;
    let mut i: usize = 0;
    while i < phnum
        invariant
            elf_header_ok(d),
            elf_fits(d),
            d == file_data@,
            n == d.len(),
            phoff == le32(d, 28),
            phnum == ph_count(d),
            phentsize == le16(d, 42),
            i <= phnum,
            max_addr == image_end(d, i as int),
        decreases phnum - i,
    {
        assert(segment_fits(d, i as int));
        let ph = phoff + i * phentsize;
        let p_type = read_u32_le(file_data, ph);
        if p_type != 1 {
            i = i + 1;
            continue;
        }
        let p_vaddr = read_u32_le(file_data, ph + 8) as usize;
        let p_memsz = read_u32_le(file_data, ph + 20) as usize;
        proof {
            lemma_image_end_covers(d, i as int, phnum as int);
        }
        let end = p_vaddr + p_memsz;
        if end > max_addr {
            max_addr = end;
        }
        i = i + 1;
    }

    let mut image: Vec<u8> = vec![0u8; max_addr];
    proof {
        assert(image@ =~= image_after(d, 0));
    }
    let mut i: usize = 0;
    while i < phnum
        invariant
            elf_header_ok(d),
            elf_fits(d),
            d == file_data@,
            n == d.len(),
            phoff == le32(d, 28),
            phnum == ph_count(d),
            phentsize == le16(d, 42),
            i <= phnum,
            image@ == image_after(d, i as int),
        decreases phnum - i,
    {
        assert(segment_fits(d, i as int));
        proof {
            lemma_image_after_len(d, i as int);
        }
        let ph = phoff + i * phentsize;
        let p_type = read_u32_le(file_data, ph);
        if p_type != 1 {
            i = i + 1;
            continue;
        }
        let p_offset = read_u32_le(file_data, ph + 4) as usize;
        let p_vaddr = read_u32_le(file_data, ph + 8) as usize;
        let p_filesz = read_u32_le(file_data, ph + 16) as usize;
        let ghost prev = image@;
        let mut k: usize = 0;
        while k < p_filesz
            invariant
                d == file_data@,
                n == d.len(),
                prev.len() <= usize::MAX,
                k <= p_filesz,
                p_offset + p_filesz <= d.len(),
                p_vaddr + p_filesz <= prev.len(),
                image@ == overlay(prev, p_vaddr as int, d.subrange(p_offset as int, p_offset + k)),
            decreases p_filesz - k,
        {
            image.set(p_vaddr + k, file_data[p_offset + k]);
            proof {
                assert(image@ =~= overlay(
                    prev,
                    p_vaddr as int,
                    d.subrange(p_offset as int, p_offset + k + 1),
                ));
            }
            k = k + 1;
        }
        i = i + 1;
    }
    Ok(LoadedBinary { data: image, entry_point: entry })
}

/// The image of a file's contents: an ELF file (recognised by its magic bytes)
/// goes through `load_elf`; anything else is a flat image entered at 0.
pub fn load_image(file_data: &[u8]) -> (r: Result<LoadedBinary, LoadError>)
    requires
        has_elf_magic(file_data@) && elf_header_ok(file_data@) ==> elf_fits(file_data@),
    ensures
        load_outcome(r) == spec_load_image(file_data@),
{
    if file_data.len() >= 4 && file_data[0] == 0x7f && file_data[1] == 0x45 && file_data[2] == 0x4c
        && file_data[3] == 0x46 {
        load_elf(file_data)
    } else {
        let mut data: Vec<u8> = Vec::new();
        let mut i: usize = 0;
        while i < file_data.len()
            invariant
                i <= file_data.len(),
                data@ == file_data@.take(i as int),
            decreases file_data.len() - i,
        {
            data.push(file_data[i]);
            proof {
                assert(file_data@.take(i as int + 1) =~= file_data@.take(i as int).push(file_data@[i as int]));
            }
            i = i + 1;
        }
        assert(file_data@.take(file_data.len() as int) =~= file_data@);
        Ok(LoadedBinary { data, entry_point: 0 })
    }
}

} // verus!
