//! The battle pack container: a count, a table with one entry per section,
//! and the sections' bytes.
//!
//! Layout, all integers little-endian and 32 bits wide:
//!
//! | bytes              | content                                   |
//! |--------------------|-------------------------------------------|
//! | `0..4`             | number of sections `n`                    |
//! | `4 + 8i..8 + 8i`   | offset of section `i` from the file start |
//! | `8 + 8i..12 + 8i`  | length of section `i`                     |
//! | `4 + 8n..`         | the sections, in index order              |

use crate::endian::{le_u32, lemma_le_u32_of_u32_le, lemma_le_u32_prefix, read_u32_le, u32_le, u32_le_bytes};
use crate::error::PackError;
use crate::bytes::append_bytes;
use vstd::prelude::*;
use vstd::seq_lib::lemma_flatten_concat;

verus! {

/// Width of the count field at the start of a container.
pub const COUNT_FIELD_LEN: usize = 4;

/// Width of one table entry: an offset and a length.
pub const ENTRY_LEN: usize = 8;

/// Offset of the first byte after the table of a container with `count`
/// sections.
pub open spec fn table_end(count: int) -> int {
    4 + 8 * count
}

/// The number of sections that a container declares.
pub open spec fn declared_count(data: Seq<u8>) -> int {
    le_u32(data)
}

/// The offset that the table gives for section `i`.
pub open spec fn entry_offset(data: Seq<u8>, i: int) -> int {
    le_u32(data.subrange(4 + 8 * i, 8 + 8 * i))
}

/// The length that the table gives for section `i`.
pub open spec fn entry_length(data: Seq<u8>, i: int) -> int {
    le_u32(data.subrange(8 + 8 * i, 12 + 8 * i))
}

/// Offset of the first byte after section `i`.
pub open spec fn entry_end(data: Seq<u8>, i: int) -> int {
    entry_offset(data, i) + entry_length(data, i)
}

/// Section `i` starts after the table and after the section before it, and
/// ends inside the container.
pub open spec fn entry_valid(data: Seq<u8>, i: int) -> bool {
    &&& if i == 0 {
        table_end(declared_count(data)) <= entry_offset(data, i)
    } else {
        entry_end(data, i - 1) <= entry_offset(data, i)
    }
    &&& entry_end(data, i) <= data.len()
}

/// `data` holds a complete table whose sections lie in index order, without
/// overlap, behind the table and inside `data`.
pub open spec fn well_formed(data: Seq<u8>) -> bool {
    &&& data.len() >= 4
    &&& table_end(declared_count(data)) <= data.len()
    &&& forall|i: int| 0 <= i < declared_count(data) ==> entry_valid(data, i)
}

/// The bytes of section `i`.
pub open spec fn section_bytes(data: Seq<u8>, i: int) -> Seq<u8> {
    data.subrange(entry_offset(data, i), entry_end(data, i))
}

/// All sections of a container, in index order.
pub open spec fn sections_of(data: Seq<u8>) -> Seq<Seq<u8>> {
    Seq::new(declared_count(data) as nat, |i: int| section_bytes(data, i))
}

/// Offset of section `i` from the start of the payload that `sections` make
/// when laid end to end.
pub open spec fn payload_start(sections: Seq<Seq<u8>>, i: int) -> int {
    sections.take(i).flatten().len() as int
}

/// One table entry as it is stored.
pub open spec fn entry_bytes(offset: int, length: int) -> Seq<u8> {
    u32_le(offset as u32) + u32_le(length as u32)
}

/// The stored entries for `sections` laid end to end from offset `base`.
pub open spec fn table_entries(sections: Seq<Seq<u8>>, base: int) -> Seq<Seq<u8>> {
    Seq::new(
        sections.len(),
        |i: int| entry_bytes(base + payload_start(sections, i), sections[i].len() as int),
    )
}

/// The size of the container that holds `sections`.
pub open spec fn container_size(sections: Seq<Seq<u8>>) -> int {
    table_end(sections.len() as int) + sections.flatten().len()
}

/// Every offset and length of the container that holds `sections` fits the
/// table's 32 bit fields.
pub open spec fn encodable(sections: Seq<Seq<u8>>) -> bool {
    container_size(sections) <= u32::MAX
}

/// The container that holds `sections`: the count, the table, the sections.
pub open spec fn encode_container(sections: Seq<Seq<u8>>) -> Seq<u8> {
    u32_le(sections.len() as u32) + table_entries(
        sections,
        table_end(sections.len() as int),
    ).flatten() + sections.flatten()
}

/// Section `i` occupies its own stretch of the payload, which ends where the
/// next section starts.
pub proof fn lemma_payload_segment(sections: Seq<Seq<u8>>, i: int)
    requires
        0 <= i < sections.len(),
    ensures
        payload_start(sections, 0) == 0,
        payload_start(sections, sections.len() as int) == sections.flatten().len(),
        payload_start(sections, i + 1) == payload_start(sections, i) + sections[i].len(),
        payload_start(sections, i + 1) <= sections.flatten().len(),
        sections.flatten().subrange(payload_start(sections, i), payload_start(sections, i + 1))
            == sections[i],
{
    let head = sections.take(i);
    let upto = sections.take(i + 1);
    let rest = sections.skip(i + 1);
    assert(sections.take(0) =~= Seq::<Seq<u8>>::empty());
    assert(sections.take(sections.len() as int) =~= sections);
    assert(upto =~= head.push(sections[i]));
    head.lemma_flatten_push(sections[i]);
    assert(sections =~= upto + rest);
    lemma_flatten_concat(upto, rest);
    assert(sections.flatten().subrange(payload_start(sections, i), payload_start(sections, i + 1))
        =~= sections[i]);
}

/// Entries of equal width lie at multiples of that width.
proof fn lemma_table_layout(entries: Seq<Seq<u8>>, i: int)
    requires
        0 <= i <= entries.len(),
        forall|j: int| 0 <= j < entries.len() ==> (#[trigger] entries[j]).len() == 8,
    ensures
        payload_start(entries, i) == 8 * i,
    decreases i,
{
    if i == 0 {
        assert(entries.take(0) =~= Seq::<Seq<u8>>::empty());
    } else {
        lemma_table_layout(entries, i - 1);
        lemma_payload_segment(entries, i - 1);
    }
}

/// What the table of an encoded container says of section `i`.
pub proof fn lemma_encoded_entry(sections: Seq<Seq<u8>>, i: int)
    requires
        encodable(sections),
        0 <= i < sections.len(),
    ensures
        encode_container(sections).len() == container_size(sections),
        declared_count(encode_container(sections)) == sections.len(),
        entry_offset(encode_container(sections), i) == table_end(sections.len() as int)
            + payload_start(sections, i),
        entry_length(encode_container(sections), i) == sections[i].len(),
{
    let n = sections.len() as int;
    let base = table_end(n);
    let entries = table_entries(sections, base);
    let table = entries.flatten();
    let whole = encode_container(sections);
    lemma_encoded_header(sections);
    lemma_payload_segment(sections, i);
    lemma_table_layout(entries, i);
    lemma_table_layout(entries, i + 1);
    lemma_payload_segment(entries, i);
    let offset = (base + payload_start(sections, i)) as u32;
    let length = sections[i].len() as u32;
    assert(table.subrange(8 * i, 8 * i + 8) == u32_le(offset) + u32_le(length));
    assert(whole.subrange(4 + 8 * i, 8 + 8 * i) =~= u32_le(offset)) by {
        assert(whole.subrange(4 + 8 * i, 8 + 8 * i) =~= table.subrange(8 * i, 8 * i + 8).subrange(
            0,
            4,
        ));
    }
    assert(whole.subrange(8 + 8 * i, 12 + 8 * i) =~= u32_le(length)) by {
        assert(whole.subrange(8 + 8 * i, 12 + 8 * i) =~= table.subrange(8 * i, 8 * i + 8).subrange(
            4,
            8,
        ));
    }
    lemma_le_u32_of_u32_le(offset);
    lemma_le_u32_of_u32_le(length);
}

/// The size of an encoded container, and the count that it declares.
pub proof fn lemma_encoded_header(sections: Seq<Seq<u8>>)
    requires
        encodable(sections),
    ensures
        encode_container(sections).len() == container_size(sections),
        declared_count(encode_container(sections)) == sections.len(),
{
    let n = sections.len() as int;
    let entries = table_entries(sections, table_end(n));
    lemma_table_layout(entries, n);
    assert(entries.take(n) =~= entries);
    lemma_le_u32_of_u32_le(n as u32);
    lemma_le_u32_prefix(u32_le(n as u32), entries.flatten() + sections.flatten());
    assert(encode_container(sections) =~= u32_le(n as u32) + (entries.flatten()
        + sections.flatten()));
}

/// A container made of `sections` is well formed, declares as many sections
/// as it was made of, and holds each of them unchanged.
pub proof fn lemma_round_trip(sections: Seq<Seq<u8>>)
    requires
        encodable(sections),
    ensures
        well_formed(encode_container(sections)),
        declared_count(encode_container(sections)) == sections.len(),
        sections_of(encode_container(sections)) == sections,
{
    let n = sections.len() as int;
    let whole = encode_container(sections);
    let entries = table_entries(sections, table_end(n));
    lemma_encoded_header(sections);
    lemma_table_layout(entries, n);
    assert(entries.take(n) =~= entries);
    assert forall|i: int| 0 <= i < n implies entry_valid(whole, i) && section_bytes(whole, i)
        == sections[i] by {
        lemma_encoded_entry(sections, i);
        lemma_payload_segment(sections, i);
        if i > 0 {
            lemma_encoded_entry(sections, i - 1);
            lemma_payload_segment(sections, i - 1);
        }
        assert(section_bytes(whole, i) =~= sections.flatten().subrange(
            payload_start(sections, i),
            payload_start(sections, i + 1),
        ));
    }
    assert(sections_of(whole) =~= sections);
}

/// Where one section lies in its container.
#[derive(Clone, Copy, Debug, PartialEq, Eq, Structural)]
pub struct SectionEntry {
    /// Offset of the section's first byte from the start of the container.
    pub offset: u32,
    /// Number of bytes in the section.
    pub length: u32,
}

/// The section table of a container, held in memory.
pub struct SectionTable {
    entries: Vec<SectionEntry>,
}

impl View for SectionTable {
    type V = Seq<SectionEntry>;

    closed spec fn view(&self) -> Seq<SectionEntry> {
        self.entries@
    }
}

impl SectionTable {
    /// The table holds what the table of `data` says, entry by entry.
    pub open spec fn describes(&self, data: Seq<u8>) -> bool {
        &&& self@.len() == declared_count(data)
        &&& forall|i: int|
            0 <= i < self@.len() ==> {
                &&& (#[trigger] self@[i]).offset == entry_offset(data, i)
                &&& self@[i].length == entry_length(data, i)
            }
    }

    /// Reads and checks the table at the start of `data`.
    pub fn parse(data: &[u8]) -> (r: Result<SectionTable, PackError>)
        ensures
            match r {
                Ok(table) => well_formed(data@) && table.describes(data@),
                Err(e) => !well_formed(data@) && e == PackError::Format,
            },
    {
        let total: usize = data.len();
        if total < COUNT_FIELD_LEN {
            return Err(PackError::Format);
        }
        let count: u32 = read_u32_le(data);
        if (total - COUNT_FIELD_LEN) / ENTRY_LEN < count as usize {
            return Err(PackError::Format);
        }
        let count: usize = count as usize;
        let mut entries: Vec<SectionEntry> = Vec::new();
        let mut floor: u64 = (COUNT_FIELD_LEN + ENTRY_LEN * count) as u64;
        let mut i: usize = 0;
        while i < count
            invariant
                total == data@.len(),
                count == declared_count(data@),
                table_end(count as int) <= total,
                i <= count,
                entries@.len() == i,
                floor <= total,
                floor == if i == 0 {
                    table_end(count as int)
                } else {
                    entry_end(data@, i - 1)
                },
                forall|j: int| 0 <= j < i ==> entry_valid(data@, j),
                forall|j: int|
                    0 <= j < i ==> {
                        &&& (#[trigger] entries@[j]).offset == entry_offset(data@, j)
                        &&& entries@[j].length == entry_length(data@, j)
                    },
            decreases count - i,
        {
            let at: usize = COUNT_FIELD_LEN + ENTRY_LEN * i;
            let offset: u32 = read_u32_le(vstd::slice::slice_subrange(data, at, at + 4));
            let length: u32 = read_u32_le(vstd::slice::slice_subrange(data, at + 4, at + 8));
            let end: u64 = offset as u64 + length as u64;
            if (offset as u64) < floor || end > total as u64 {
                assert(!entry_valid(data@, i as int));
                return Err(PackError::Format);
            }
            entries.push(SectionEntry { offset, length });
            floor = end;
            i += 1;
        }
        Ok(SectionTable { entries })
    }

    /// The number of sections.
    pub fn section_count(&self) -> (n: usize)
        ensures
            n == self@.len(),
    {
        self.entries.len()
    }

    /// Where section `index` lies, or `None` where the table has no such
    /// section.
    pub fn entry(&self, index: usize) -> (r: Option<SectionEntry>)
        ensures
            r == if index < self@.len() {
                Some(self@[index as int])
            } else {
                None
            },
    {
        if index < self.entries.len() {
            Some(self.entries[index])
        } else {
            None
        }
    }
}

/// A container opened for reading: its bytes and its parsed table.
pub struct ContainerReader {
    data: Vec<u8>,
    table: SectionTable,
}

impl ContainerReader {
    /// The container's bytes.
    pub closed spec fn bytes(&self) -> Seq<u8> {
        self.data@
    }

    /// The bytes are a well-formed container and the table held is theirs.
    pub closed spec fn wf(&self) -> bool {
        &&& well_formed(self.data@)
        &&& self.table.describes(self.data@)
    }

    /// A reader holds a well-formed container.
    pub proof fn lemma_well_formed(&self)
        requires
            self.wf(),
        ensures
            well_formed(self.bytes()),
    {
    }

    /// Opens a container: parses and checks its table.
    pub fn new(data: Vec<u8>) -> (r: Result<ContainerReader, PackError>)
        ensures
            match r {
                Ok(reader) => well_formed(data@) && reader.wf() && reader.bytes() == data@,
                Err(e) => !well_formed(data@) && e == PackError::Format,
            },
    {
        match SectionTable::parse(data.as_slice()) {
            Ok(table) => Ok(ContainerReader { data, table }),
            Err(e) => Err(e),
        }
    }

    /// The number of sections in the container.
    pub fn section_count(&self) -> (n: usize)
        requires
            self.wf(),
        ensures
            n == declared_count(self.bytes()),
    {
        self.table.section_count()
    }

    /// Appends the bytes of section `index` to `sink` and returns how many
    /// they are. An index that the container does not have is an error, and
    /// leaves `sink` as it was.
    pub fn extract_section(&self, index: usize, sink: &mut Vec<u8>) -> (r: Result<usize, PackError>)
        requires
            self.wf(),
        ensures
            match r {
                Ok(n) => {
                    &&& index < declared_count(self.bytes())
                    &&& n == entry_length(self.bytes(), index as int)
                    &&& final(sink)@ == old(sink)@ + section_bytes(self.bytes(), index as int)
                },
                Err(e) => {
                    &&& index >= declared_count(self.bytes())
                    &&& e == PackError::Format
                    &&& final(sink)@ == old(sink)@
                },
            },
    {
        match self.table.entry(index) {
            Some(entry) => {
                let total: usize = self.data.len();
                assert(entry_valid(self.data@, index as int));
                let start: usize = entry.offset as usize;
                let end: usize = start + entry.length as usize;
                append_bytes(sink, vstd::slice::slice_subrange(self.data.as_slice(), start, end));
                Ok(entry.length as usize)
            },
            None => Err(PackError::Format),
        }
    }
}

/// A container being written: the sections given so far, out of a number
/// fixed at creation.
pub struct ContainerWriter {
    declared: u32,
    table: SectionTable,
    payload: Vec<u8>,
    sections: Ghost<Seq<Seq<u8>>>,
}

impl ContainerWriter {
    /// The number of sections that the writer was created for.
    pub closed spec fn declared(&self) -> nat {
        self.declared as nat
    }

    /// The sections written so far, in order.
    pub closed spec fn sections(&self) -> Seq<Seq<u8>> {
        self.sections@
    }

    /// The table and payload held are those of the sections written so far.
    pub closed spec fn wf(&self) -> bool {
        &&& self.sections@.len() <= self.declared
        &&& self.table@.len() == self.sections@.len()
        &&& self.payload@ == self.sections@.flatten()
        &&& table_end(self.declared as int) + self.payload@.len() <= u32::MAX
        &&& forall|i: int|
            0 <= i < self.table@.len() ==> {
                &&& (#[trigger] self.table@[i]).offset == table_end(self.declared as int)
                    + payload_start(self.sections@, i)
                &&& self.table@[i].length == self.sections@[i].len()
            }
    }

    /// What a well-formed writer holds: no more sections than declared, and
    /// none that would not fit the table's fields.
    pub proof fn lemma_bounds(&self)
        requires
            self.wf(),
        ensures
            self.sections().len() <= self.declared(),
            table_end(self.declared() as int) + self.sections().flatten().len() <= u32::MAX,
    {
    }

    /// A writer for a container of `section_count` sections. Fails where the
    /// table alone would not fit the 32 bit offsets.
    pub fn new(section_count: usize) -> (r: Result<ContainerWriter, PackError>)
        ensures
            match r {
                Ok(writer) => {
                    &&& table_end(section_count as int) <= u32::MAX
                    &&& writer.wf()
                    &&& writer.declared() == section_count
                    &&& writer.sections() == Seq::<Seq<u8>>::empty()
                },
                Err(e) => table_end(section_count as int) > u32::MAX && e == PackError::Format,
            },
    {
        if section_count > (0xFFFF_FFFF - COUNT_FIELD_LEN) / ENTRY_LEN {
            return Err(PackError::Format);
        }
        Ok(
            ContainerWriter {
                declared: section_count as u32,
                table: SectionTable { entries: Vec::new() },
                payload: Vec::new(),
                sections: Ghost(Seq::empty()),
            },
        )
    }

    /// Appends the next section. Fails with `ContractViolation` where all
    /// declared sections have been written, and with `Format` where the
    /// section would end beyond what a 32 bit offset can say; the writer is
    /// then left as it was.
    pub fn write_section(&mut self, bytes: &[u8]) -> (r: Result<(), PackError>)
        requires
            old(self).wf(),
        ensures
            final(self).wf(),
            final(self).declared() == old(self).declared(),
            r == if old(self).sections().len() >= old(self).declared() {
                Err::<(), PackError>(PackError::ContractViolation)
            } else if table_end(old(self).declared() as int) + old(self).sections().flatten().len()
                + bytes@.len() > u32::MAX {
                Err(PackError::Format)
            } else {
                Ok(())
            },
            final(self).sections() == if r is Ok {
                old(self).sections().push(bytes@)
            } else {
                old(self).sections()
            },
    {
        if self.table.entries.len() >= self.declared as usize {
            return Err(PackError::ContractViolation);
        }
        let used: usize = COUNT_FIELD_LEN + ENTRY_LEN * (self.declared as usize)
            + self.payload.len();
        if bytes.len() > 0xFFFF_FFFF - used {
            return Err(PackError::Format);
        }
        let ghost before = self.sections@;
        self.table.entries.push(SectionEntry { offset: used as u32, length: bytes.len() as u32 });
        append_bytes(&mut self.payload, bytes);
        proof {
            self.sections = Ghost(before.push(bytes@));
            before.lemma_flatten_push(bytes@);
            assert(before.take(before.len() as int) =~= before);
            assert forall|i: int| 0 <= i < self.table@.len() implies {
                &&& (#[trigger] self.table@[i]).offset == table_end(self.declared as int)
                    + payload_start(self.sections@, i)
                &&& self.table@[i].length == self.sections@[i].len()
            } by {
                assert(before.push(bytes@).take(i) =~= before.take(i));
                if i < before.len() {
                    assert(self.table@[i] == old(self).table@[i]);
                }
            }
        }
        Ok(())
    }

    /// Closes the writer and returns the container. Fails with
    /// `ContractViolation` where fewer sections were written than declared.
    pub fn finish(self) -> (r: Result<Vec<u8>, PackError>)
        requires
            self.wf(),
        ensures
            match r {
                Ok(bytes) => {
                    &&& self.sections().len() == self.declared()
                    &&& bytes@ == encode_container(self.sections())
                    &&& well_formed(bytes@)
                    &&& declared_count(bytes@) == self.declared()
                    &&& sections_of(bytes@) == self.sections()
                },
                Err(e) => {
                    &&& self.sections().len() != self.declared()
                    &&& e == PackError::ContractViolation
                },
            },
    {
        let count: usize = self.table.entries.len();
        if count != self.declared as usize {
            return Err(PackError::ContractViolation);
        }
        proof {
            lemma_round_trip(self.sections@);
        }
        let ghost stored = table_entries(self.sections@, table_end(count as int));
        let mut out: Vec<u8> = u32_le_bytes(self.declared);
        let mut i: usize = 0;
        assert(stored.take(0) =~= Seq::<Seq<u8>>::empty());
        while i < count
            invariant
                self.wf(),
                count == self.table@.len(),
                count == self.declared,
                stored == table_entries(self.sections@, table_end(count as int)),
                i <= count,
                out@ == u32_le(self.declared) + stored.take(i as int).flatten(),
            decreases count - i,
        {
            let entry = self.table.entries[i];
            let offset = u32_le_bytes(entry.offset);
            let length = u32_le_bytes(entry.length);
            proof {
                assert(stored.take(i + 1) =~= stored.take(i as int).push(stored[i as int]));
                stored.take(i as int).lemma_flatten_push(stored[i as int]);
                assert(stored[i as int] == offset@ + length@);
            }
            append_bytes(&mut out, offset.as_slice());
            append_bytes(&mut out, length.as_slice());
            assert(out@ =~= u32_le(self.declared) + stored.take(i + 1).flatten());
            i += 1;
        }
        assert(stored.take(count as int) =~= stored);
        append_bytes(&mut out, self.payload.as_slice());
        Ok(out)
    }
}

} // verus!
