//! Section headers (PE/COFF `IMAGE_SECTION_HEADER`) as a PDB's DBI stream
//! records them, and the mapping of section:offset pairs to RVAs.
use vstd::prelude::*;
use zerocopy::FromBytes;

verus! {

/// The size in bytes of one section header record.
pub const SECTION_HEADER_SIZE: usize = 40;

/// One section header (PE/COFF `IMAGE_SECTION_HEADER`), all integers little-endian.
#[derive(Debug, Clone, Copy)]
pub struct ImageSectionHeader {
    pub name: [u8; 8],
    pub virtual_size: u32,
    /// The RVA at which the section starts.
    pub virtual_address: u32,
    pub size_of_raw_data: u32,
    pub pointer_to_raw_data: u32,
    pub pointer_to_relocations: u32,
    pub pointer_to_line_numbers: u32,
    pub number_of_relocations: u16,
    pub number_of_line_numbers: u16,
    pub characteristics: u32,
}

/// The little-endian 32-bit value at `at` in `s`.
pub open spec fn le_u32(s: Seq<u8>, at: int) -> u32 {
    (s[at] + 256 * s[at + 1] + 65536 * s[at + 2] + 16777216 * s[at + 3]) as u32
}

/// The little-endian 16-bit value at `at` in `s`.
pub open spec fn le_u16(s: Seq<u8>, at: int) -> u16 {
    (s[at] + 256 * s[at + 1]) as u16
}

impl ImageSectionHeader {
    /// The header that a 40-byte record holds.
    pub open spec fn spec_decode(b: Seq<u8>) -> ImageSectionHeader {
        ImageSectionHeader {
            name: arbitrary(),
            virtual_size: le_u32(b, 8),
            virtual_address: le_u32(b, 12),
            size_of_raw_data: le_u32(b, 16),
            pointer_to_raw_data: le_u32(b, 20),
            pointer_to_relocations: le_u32(b, 24),
            pointer_to_line_numbers: le_u32(b, 28),
            number_of_relocations: le_u16(b, 32),
            number_of_line_numbers: le_u16(b, 34),
            characteristics: le_u32(b, 36),
        }
    }

    /// Whether `h` is what the 40-byte record `b` holds.
    pub open spec fn decodes(h: ImageSectionHeader, b: Seq<u8>) -> bool {
        &&& h.name@ == b.subrange(0, 8)
        &&& h == ImageSectionHeader { name: h.name, ..Self::spec_decode(b) }
    }
}

fn read_u32(b: &[u8; 40], at: usize) -> (v: u32)
    requires
        at + 4 <= 40,
    ensures
        v == le_u32(b@, at as int),
{
    let v: u32 = b[at] as u32 + 256 * (b[at + 1] as u32) + 65536 * (b[at + 2] as u32) + 16777216 * (
    b[at + 3] as u32);
    v
}

fn read_u16(b: &[u8; 40], at: usize) -> (v: u16)
    requires
        at + 2 <= 40,
    ensures
        v == le_u16(b@, at as int),
{
    let v: u16 = b[at] as u16 + 256 * (b[at + 1] as u16);
    v
}

/// Splits a byte buffer into 40-byte records with zerocopy's
/// `FromBytes::ref_from_bytes` on `[[u8; 40]]`. That call succeeds exactly when
/// the length is a multiple of 40 (the element has alignment 1), and then views
/// the bytes in order.
#[verifier::external_body]
fn split_records(bytes: &[u8]) -> (r: Option<Vec<[u8; 40]>>)
    ensures
        r is Some <==> bytes@.len() % 40 == 0,
        r matches Some(v) ==> {
            &&& v@.len() * 40 == bytes@.len()
            &&& forall|i: int, j: int|
                0 <= i < v@.len() && 0 <= j < 40 ==> #[trigger] v@[i]@[j] == bytes@[40 * i + j]
        },
{
    <[[u8; 40]]>::ref_from_bytes(bytes).ok().map(|records| records.to_vec())
}

/// Decodes one 40-byte section header record.
pub fn decode_section_header(b: &[u8; 40]) -> (h: ImageSectionHeader)
    ensures
        ImageSectionHeader::decodes(h, b@),
{
    let mut name: [u8; 8] = [0u8; 8];
    let mut i: usize = 0;
    while i < 8
        invariant
            0 <= i <= 8,
            forall|j: int| 0 <= j < i ==> name@[j] == b@[j],
        decreases 8 - i,
    {
        name[i] = b[i];
        i = i + 1;
    }
    assert(name@ =~= b@.subrange(0, 8));
    ImageSectionHeader {
        name,
        virtual_size: read_u32(b, 8),
        virtual_address: read_u32(b, 12),
        size_of_raw_data: read_u32(b, 16),
        pointer_to_raw_data: read_u32(b, 20),
        pointer_to_relocations: read_u32(b, 24),
        pointer_to_line_numbers: read_u32(b, 28),
        number_of_relocations: read_u16(b, 32),
        number_of_line_numbers: read_u16(b, 34),
        characteristics: read_u32(b, 36),
    }
}

/// Decodes the section header stream: a sequence of 40-byte records. A stream
/// whose length is not a multiple of 40 holds no valid table.
pub fn decode_section_headers(bytes: &[u8]) -> (r: Option<Vec<ImageSectionHeader>>)
    ensures
        r is Some <==> bytes@.len() % 40 == 0,
        r matches Some(hs) ==> {
            &&& hs@.len() * 40 == bytes@.len()
            &&& forall|i: int|
                0 <= i < hs@.len() ==> ImageSectionHeader::decodes(
                    #[trigger] hs@[i],
                    bytes@.subrange(40 * i, 40 * i + 40),
                )
        },
{
    let records = match split_records(bytes) {
        Some(records) => records,
        None => return None,
    };
    let mut out: Vec<ImageSectionHeader> = Vec::new();
    let mut i: usize = 0;
    while i < records.len()
        invariant
            0 <= i <= records@.len(),
            records@.len() * 40 == bytes@.len(),
            forall|a: int, j: int|
                0 <= a < records@.len() && 0 <= j < 40 ==> #[trigger] records@[a]@[j] == bytes@[40
                    * a + j],
            out@.len() == i,
            forall|a: int|
                0 <= a < i ==> ImageSectionHeader::decodes(
                    #[trigger] out@[a],
                    bytes@.subrange(40 * a, 40 * a + 40),
                ),
        decreases records@.len() - i,
    {
        let h = decode_section_header(&records[i]);
        assert(records@[i as int]@ =~= bytes@.subrange(40 * i, 40 * i + 40)) by {
            assert forall|j: int| 0 <= j < 40 implies records@[i as int]@[j] == bytes@[40 * i + j] by {}
        }
        out.push(h);
        i = i + 1;
    }
    Some(out)
}

/// The RVA of `offset` within the 1-based section `section`: the section's
/// virtual address plus the offset. There is none without a header table, for
/// section 0 or one past the table, or where the sum does not fit in 32 bits.
pub open spec fn spec_section_offset_to_rva(
    headers: Option<Seq<ImageSectionHeader>>,
    section: u16,
    offset: u32,
) -> Option<usize> {
    match headers {
        None => None,
        Some(hs) => if section == 0 || section > hs.len() {
            None
        } else if hs[section - 1].virtual_address + offset > u32::MAX {
            None
        } else {
            Some((hs[section - 1].virtual_address + offset) as usize)
        },
    }
}

/// Converts a section:offset pair to an RVA (see [`spec_section_offset_to_rva`]).
pub fn section_offset_to_rva(
    headers: &Option<Vec<ImageSectionHeader>>,
    section: u16,
    offset: u32,
) -> (r: Option<usize>)
    ensures
        r == spec_section_offset_to_rva(
            match headers {
                Some(v) => Some(v@),
                None => None,
            },
            section,
            offset,
        ),
{
    match headers {
        None => None,
        Some(hs) => {
            if section == 0 || section as usize > hs.len() {
                return None;
            }
            let va = hs[section as usize - 1].virtual_address;
            match va.checked_add(offset) {
                Some(rva) => Some(rva as usize),
                None => None,
            }
        },
    }
}

} // verus!
