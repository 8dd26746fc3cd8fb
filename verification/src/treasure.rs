//! The treasure tables of the game's zone files.

use crate::endian::{le_i16, le_u16, le_u32, read_i16_le, read_u16_le, read_u32_le};
use crate::error::TreasureError;
use std::collections::HashMap;
use vstd::prelude::*;

verus! {

broadcast use vstd::std_specs::hash::group_hash_axioms;

/// Size of one treasure record in a zone file.
pub const TREASURE_RECORD_LEN: usize = 24;

/// The respawn slot of a treasure that is bound to none.
pub const NO_RESPAWN_SLOT: u8 = 255;

/// One treasure of a zone.
#[derive(Copy, Clone, Debug, PartialEq, Eq, Structural)]
pub struct ZoneTreasure {
    /// The treasure's number.
    pub id: u32,
    /// The treasure's place in the zone, along the first axis.
    pub pos_x: i16,
    /// The treasure's place in the zone, along the second axis.
    pub pos_y: i16,
    /// The respawn slot that the treasure is bound to; 255 for none.
    pub respawn_slot: u8,
    /// The chance, in percent, that the treasure is there.
    pub spawn_chance: u8,
    /// The chance, in percent, that the treasure holds gil.
    pub gil_chance: u8,
    /// The id of the first item.
    pub first_item: u16,
    /// The id of the second item.
    pub second_item: u16,
    /// The id of the first item with the Diamond Armlet.
    pub rare_first_item: u16,
    /// The id of the second item with the Diamond Armlet.
    pub rare_second_item: u16,
    /// The gil that the treasure holds.
    pub gil_amount: u16,
    /// The gil that the treasure holds with the Diamond Armlet.
    pub rare_gil_amount: u16,
}

/// Where the treasure table of a zone lies in its file.
#[derive(Clone, Debug)]
pub struct ZoneData {
    /// The zone's name.
    pub name: String,
    /// Offset of the first treasure record from the start of the file.
    pub offset: u64,
    /// Number of treasure records.
    pub quantity: u16,
}

/// The treasure that a record of 24 bytes encodes. All integers are
/// little-endian; the bytes at 8 and from 24 on are not read.
pub open spec fn decode_treasure(record: Seq<u8>) -> ZoneTreasure {
    ZoneTreasure {
        id: le_u32(record) as u32,
        pos_x: le_i16(record.subrange(4, 6)) as i16,
        pos_y: le_i16(record.subrange(6, 8)) as i16,
        respawn_slot: record[9],
        spawn_chance: record[10],
        gil_chance: record[11],
        first_item: le_u16(record.subrange(12, 14)) as u16,
        second_item: le_u16(record.subrange(14, 16)) as u16,
        rare_first_item: le_u16(record.subrange(16, 18)) as u16,
        rare_second_item: le_u16(record.subrange(18, 20)) as u16,
        gil_amount: le_u16(record.subrange(20, 22)) as u16,
        rare_gil_amount: le_u16(record.subrange(22, 24)) as u16,
    }
}

/// A table of `quantity` records at `offset` lies inside a file of `len`
/// bytes. An empty table lies anywhere.
pub open spec fn table_fits(len: int, offset: int, quantity: int) -> bool {
    quantity == 0 || offset + 24 * quantity <= len
}

/// Record `i` of the table at `offset`.
pub open spec fn record_at(data: Seq<u8>, offset: int, i: int) -> Seq<u8> {
    data.subrange(offset + 24 * i, offset + 24 * i + 24)
}

/// The treasures of the table of `quantity` records at `offset`.
pub open spec fn treasures_at(data: Seq<u8>, offset: int, quantity: int) -> Seq<ZoneTreasure> {
    Seq::new(quantity as nat, |i: int| decode_treasure(record_at(data, offset, i)))
}

/// Decodes one treasure record: the first 24 bytes of `record`, or `None`
/// where it is shorter.
pub fn read_treasure(record: &[u8]) -> (r: Option<ZoneTreasure>)
    ensures
        r == if record@.len() >= 24 {
            Some(decode_treasure(record@))
        } else {
            None
        },
{
    if record.len() < TREASURE_RECORD_LEN {
        return None;
    }
    Some(
        ZoneTreasure {
            id: read_u32_le(record),
            pos_x: read_i16_le(vstd::slice::slice_subrange(record, 4, 6)),
            pos_y: read_i16_le(vstd::slice::slice_subrange(record, 6, 8)),
            respawn_slot: record[9],
            spawn_chance: record[10],
            gil_chance: record[11],
            first_item: read_u16_le(vstd::slice::slice_subrange(record, 12, 14)),
            second_item: read_u16_le(vstd::slice::slice_subrange(record, 14, 16)),
            rare_first_item: read_u16_le(vstd::slice::slice_subrange(record, 16, 18)),
            rare_second_item: read_u16_le(vstd::slice::slice_subrange(record, 18, 20)),
            gil_amount: read_u16_le(vstd::slice::slice_subrange(record, 20, 22)),
            rare_gil_amount: read_u16_le(vstd::slice::slice_subrange(record, 22, 24)),
        },
    )
}

/// Reads the treasure table of a zone from the bytes of its file. Fails with
/// `Io` where the file ends before the table does.
pub fn read_treasure_files(data: &[u8], zone: &ZoneData) -> (r: Result<
    Vec<ZoneTreasure>,
    TreasureError,
>)
    ensures
        match r {
            Ok(treasures) => {
                &&& table_fits(data@.len() as int, zone.offset as int, zone.quantity as int)
                &&& treasures@ == treasures_at(data@, zone.offset as int, zone.quantity as int)
            },
            Err(e) => {
                &&& !table_fits(data@.len() as int, zone.offset as int, zone.quantity as int)
                &&& e == TreasureError::Io
            },
        },
{
    let total: usize = data.len();
    let quantity: usize = zone.quantity as usize;
    let mut treasures: Vec<ZoneTreasure> = Vec::new();
    if quantity == 0 {
        assert(treasures@ =~= treasures_at(data@, zone.offset as int, 0));
        return Ok(treasures);
    }
    if zone.offset > total as u64 || (total as u64 - zone.offset) / 24 < quantity as u64 {
        return Err(TreasureError::Io);
    }
    let offset: usize = zone.offset as usize;
    let mut i: usize = 0;
    while i < quantity
        invariant
            total == data@.len(),
            offset == zone.offset,
            quantity == zone.quantity,
            offset + 24 * quantity <= total,
            i <= quantity,
            treasures@.len() == i,
            forall|j: int|
                0 <= j < i ==> #[trigger] treasures@[j] == decode_treasure(
                    record_at(data@, offset as int, j),
                ),
        decreases quantity - i,
    {
        let at: usize = offset + TREASURE_RECORD_LEN * i;
        let record = vstd::slice::slice_subrange(data, at, at + TREASURE_RECORD_LEN);
        if let Some(treasure) = read_treasure(record) {
            treasures.push(treasure);
        }
        i += 1;
    }
    assert(treasures@ =~= treasures_at(data@, zone.offset as int, zone.quantity as int));
    Ok(treasures)
}

/// What `read_treasure_files` gives for the table of `zone` in `data`.
pub open spec fn treasures_read(
    data: Seq<u8>,
    zone: ZoneData,
    r: Result<Vec<ZoneTreasure>, TreasureError>,
) -> bool {
    match r {
        Ok(treasures) => {
            &&& table_fits(data.len() as int, zone.offset as int, zone.quantity as int)
            &&& treasures@ == treasures_at(data, zone.offset as int, zone.quantity as int)
        },
        Err(e) => {
            &&& !table_fits(data.len() as int, zone.offset as int, zone.quantity as int)
            &&& e == TreasureError::Io
        },
    }
}

/// A named group of zones.
#[derive(Clone, Debug)]
pub struct ZoneGroup {
    /// The group's name.
    pub name: String,
    /// The file stems of the zones in the group.
    pub zones: Vec<String>,
}

/// The treasure table of the zone whose file has a given stem.
#[derive(Clone, Debug)]
pub struct ZoneEntry {
    /// The name of the zone's file, without its extension.
    pub file_stem: String,
    /// Where the treasure table lies in that file.
    pub zone: ZoneData,
}

/// The reference data on zones: their groups and their treasure tables. A
/// file stem is looked up from the front, so the first group and the first
/// entry that hold it count.
#[derive(Clone, Debug)]
pub struct TreasureData {
    /// The groups of zones.
    pub groups: Vec<ZoneGroup>,
    /// The treasure tables, by the stem of the zone's file.
    pub zones: Vec<ZoneEntry>,
}

/// The reference data on items: their names by id.
#[derive(Clone, Debug)]
pub struct ItemData {
    /// The items' names by id.
    pub ids: HashMap<u16, String>,
}

/// `stem` is among the zones of `group`.
pub open spec fn group_holds(group: ZoneGroup, stem: Seq<char>) -> bool {
    exists|j: int| 0 <= j < group.zones@.len() && (#[trigger] group.zones@[j])@ == stem
}

impl ZoneGroup {
    /// Whether the zone with file stem `stem` is in the group.
    pub fn holds(&self, stem: &String) -> (r: bool)
        ensures
            r == group_holds(*self, stem@),
    {
        let mut j: usize = 0;
        while j < self.zones.len()
            invariant
                j <= self.zones@.len(),
                forall|e: int| 0 <= e < j ==> (#[trigger] self.zones@[e])@ != stem@,
            decreases self.zones@.len() - j,
        {
            if self.zones[j] == *stem {
                return true;
            }
            j += 1;
        }
        false
    }
}

impl TreasureData {
    /// `at` is the first group that holds `stem`.
    pub open spec fn is_group_of(&self, stem: Seq<char>, at: int) -> bool {
        &&& 0 <= at < self.groups@.len()
        &&& group_holds(self.groups@[at], stem)
        &&& forall|e: int| 0 <= e < at ==> !group_holds(#[trigger] self.groups@[e], stem)
    }

    /// Some group holds `stem`.
    pub open spec fn has_group(&self, stem: Seq<char>) -> bool {
        exists|at: int| 0 <= at < self.groups@.len() && group_holds(#[trigger] self.groups@[at], stem)
    }

    /// `at` is the first entry for `stem`.
    pub open spec fn is_zone_of(&self, stem: Seq<char>, at: int) -> bool {
        &&& 0 <= at < self.zones@.len()
        &&& self.zones@[at].file_stem@ == stem
        &&& forall|e: int| 0 <= e < at ==> (#[trigger] self.zones@[e]).file_stem@ != stem
    }

    /// Some entry is for `stem`.
    pub open spec fn has_zone(&self, stem: Seq<char>) -> bool {
        exists|at: int| 0 <= at < self.zones@.len() && (#[trigger] self.zones@[at]).file_stem@ == stem
    }

    /// The place of the first group that holds the zone with file stem
    /// `stem`, if any does.
    pub fn group_of(&self, stem: &String) -> (r: Option<usize>)
        ensures
            match r {
                Some(at) => self.is_group_of(stem@, at as int),
                None => !self.has_group(stem@),
            },
    {
        let mut at: usize = 0;
        while at < self.groups.len()
            invariant
                at <= self.groups@.len(),
                forall|e: int| 0 <= e < at ==> !group_holds(#[trigger] self.groups@[e], stem@),
            decreases self.groups@.len() - at,
        {
            if self.groups[at].holds(stem) {
                return Some(at);
            }
            at += 1;
        }
        None
    }

    /// The place of the first entry for the zone with file stem `stem`, if
    /// there is one.
    pub fn zone_of(&self, stem: &String) -> (r: Option<usize>)
        ensures
            match r {
                Some(at) => self.is_zone_of(stem@, at as int),
                None => !self.has_zone(stem@),
            },
    {
        let mut at: usize = 0;
        while at < self.zones.len()
            invariant
                at <= self.zones@.len(),
                forall|e: int| 0 <= e < at ==> (#[trigger] self.zones@[e]).file_stem@ != stem@,
            decreases self.zones@.len() - at,
        {
            if self.zones[at].file_stem == *stem {
                return Some(at);
            }
            at += 1;
        }
        None
    }
}

impl ItemData {
    /// The name of the item with id `id`, if the table holds it.
    pub fn item_name(&self, id: u16) -> (r: Option<&String>)
        ensures
            r == if self.ids@.contains_key(id) {
                Some(&self.ids@[id])
            } else {
                None
            },
    {
        self.ids.get(&id)
    }
}

/// What came of loading a data file.
pub enum Loaded<T> {
    /// There is no such file.
    Missing,
    /// The file could not be read, or does not hold what is expected.
    Failed(TreasureError),
    /// The file's content.
    Data(T),
}

/// The two data files that a treasure dump needs.
#[derive(Clone, Copy, Debug, PartialEq, Eq, Structural)]
pub enum DataFile {
    /// The zones, their groups and their treasure tables.
    Treasure,
    /// The items' names.
    Item,
}

/// Why the reference data could not be had.
#[derive(Clone, Copy, Debug, PartialEq, Eq, Structural)]
pub enum DataError {
    /// The data file is missing.
    Missing(DataFile),
    /// The data file could not be read.
    Unreadable(DataFile, TreasureError),
}

impl DataError {
    /// The exit status that reports the error: 2 for a missing file, 3 for
    /// an unreadable one.
    pub fn exit_code(&self) -> (code: i32)
        ensures
            code == match *self {
                DataError::Missing(_) => 2i32,
                DataError::Unreadable(_, _) => 3i32,
            },
    {
        match self {
            DataError::Missing(_) => 2,
            DataError::Unreadable(_, _) => 3,
        }
    }
}

/// What a load of the data file `file` amounts to.
pub open spec fn data_of<T>(loaded: Loaded<T>, file: DataFile) -> Result<T, DataError> {
    match loaded {
        Loaded::Data(data) => Ok(data),
        Loaded::Missing => Err(DataError::Missing(file)),
        Loaded::Failed(e) => Err(DataError::Unreadable(file, e)),
    }
}

/// The content of a data file, or the error that says which file is missing
/// or unreadable.
pub fn get_data<T>(loaded: Loaded<T>, file: DataFile) -> (r: Result<T, DataError>)
    ensures
        r == data_of(loaded, file),
{
    match loaded {
        Loaded::Data(data) => Ok(data),
        Loaded::Missing => Err(DataError::Missing(file)),
        Loaded::Failed(e) => Err(DataError::Unreadable(file, e)),
    }
}

/// Both data files, or the error of the first that is missing or unreadable,
/// the treasure data before the item data.
pub fn get_datas(treasure_data: Loaded<TreasureData>, item_data: Loaded<ItemData>) -> (r: Result<
    (TreasureData, ItemData),
    DataError,
>)
    ensures
        r == match data_of(treasure_data, DataFile::Treasure) {
            Ok(treasure) => match data_of(item_data, DataFile::Item) {
                Ok(item) => Ok((treasure, item)),
                Err(e) => Err(e),
            },
            Err(e) => Err(e),
        },
{
    let treasure = match get_data(treasure_data, DataFile::Treasure) {
        Ok(treasure) => treasure,
        Err(e) => {
            return Err(e);
        },
    };
    let item = match get_data(item_data, DataFile::Item) {
        Ok(item) => item,
        Err(e) => {
            return Err(e);
        },
    };
    Ok((treasure, item))
}

/// A zone file as it was read: the stem of its name and its bytes.
#[derive(Clone, Debug)]
pub struct ZoneFile {
    /// The file's name without its extension.
    pub stem: String,
    /// The file's bytes.
    pub contents: Vec<u8>,
}

/// What a dump holds for one zone file. Files, groups and zones are given by
/// their places in the lists that the dump was made from.
#[derive(Debug)]
pub struct ZoneReport {
    /// The zone file.
    pub file: usize,
    /// The zone's group, or `None` where no group holds it.
    pub group: Option<usize>,
    /// The zone's entry in the treasure data.
    pub zone: usize,
    /// The zone's treasures, or why they could not be read.
    pub treasures: Result<Vec<ZoneTreasure>, TreasureError>,
}

/// `report` is the report on the file that it names.
pub open spec fn report_of(report: ZoneReport, files: Seq<ZoneFile>, data: TreasureData) -> bool {
    &&& report.file < files.len()
    &&& data.is_zone_of(files[report.file as int].stem@, report.zone as int)
    &&& match report.group {
        Some(group) => data.is_group_of(files[report.file as int].stem@, group as int),
        None => !data.has_group(files[report.file as int].stem@),
    }
    &&& treasures_read(
        files[report.file as int].contents@,
        data.zones@[report.zone as int].zone,
        report.treasures,
    )
}

/// `reports` holds one report for each file that has an entry in the
/// treasure data, and no other, in the order of the files.
pub open spec fn dumps(files: Seq<ZoneFile>, data: TreasureData, reports: Seq<ZoneReport>) -> bool {
    &&& forall|k: int| 0 <= k < reports.len() ==> report_of(#[trigger] reports[k], files, data)
    &&& forall|a: int, b: int|
        0 <= a < b < reports.len() ==> (#[trigger] reports[a]).file < (#[trigger] reports[b]).file
    &&& forall|f: int|
        0 <= f < files.len() && data.has_zone((#[trigger] files[f]).stem@) ==> exists|k: int|
            0 <= k < reports.len() && (#[trigger] reports[k]).file == f
}

/// Reads the treasures of every zone file that the treasure data knows.
/// Files of unknown zones are left out; a file that is too short for its
/// table is reported with the error.
pub fn dump_treasure(files: &Vec<ZoneFile>, treasure_data: &TreasureData) -> (reports: Vec<
    ZoneReport,
>)
    ensures
        dumps(files@, *treasure_data, reports@),
{
    let mut reports: Vec<ZoneReport> = Vec::new();
    let mut f: usize = 0;
    while f < files.len()
        invariant
            f <= files@.len(),
            forall|k: int|
                0 <= k < reports@.len() ==> report_of(
                    #[trigger] reports@[k],
                    files@,
                    *treasure_data,
                ) && reports@[k].file < f,
            forall|a: int, b: int|
                0 <= a < b < reports@.len() ==> (#[trigger] reports@[a]).file < (
                #[trigger] reports@[b]).file,
            forall|e: int|
                0 <= e < f && treasure_data.has_zone((#[trigger] files@[e]).stem@) ==> exists|
                    k: int,
                | 0 <= k < reports@.len() && (#[trigger] reports@[k]).file == e,
        decreases files@.len() - f,
    {
        let file = &files[f];
        let ghost before = reports@;
        if let Some(zone) = treasure_data.zone_of(&file.stem) {
            let group = treasure_data.group_of(&file.stem);
            let treasures = read_treasure_files(
                file.contents.as_slice(),
                &treasure_data.zones[zone].zone,
            );
            reports.push(ZoneReport { file: f, group, zone, treasures });
            assert(reports@[before.len() as int].file == f);
        }
        proof {
            assert forall|e: int|
                0 <= e < f + 1 && treasure_data.has_zone(
                    (#[trigger] files@[e]).stem@,
                ) implies exists|k: int|
                0 <= k < reports@.len() && (#[trigger] reports@[k]).file == e by {
                if e < f {
                    let k = choose|k: int| 0 <= k < before.len() && (#[trigger] before[k]).file == e;
                    assert(reports@[k].file == e);
                }
            }
        }
        f += 1;
    }
    reports
}

/// A treasure of a dump: the place of its zone's report, and its place among
/// the zone's treasures.
#[derive(Clone, Copy, Debug, PartialEq, Eq, Structural)]
pub struct SlotBinding {
    /// The place of the zone's report in the dump.
    pub report: usize,
    /// The place of the treasure among the zone's treasures.
    pub treasure: usize,
}

/// `binding` names a treasure of `reports` that is bound to `slot`.
pub open spec fn binds(reports: Seq<ZoneReport>, slot: u8, binding: SlotBinding) -> bool {
    &&& binding.report < reports.len()
    &&& reports[binding.report as int].treasures is Ok
    &&& binding.treasure < reports[binding.report as int].treasures->Ok_0@.len()
    &&& reports[binding.report as int].treasures->Ok_0@[binding.treasure as int].respawn_slot
        == slot
}

/// `a` comes before `b`: by report, then by place in the report.
pub open spec fn binding_before(a: SlotBinding, b: SlotBinding) -> bool {
    a.report < b.report || (a.report == b.report && a.treasure < b.treasure)
}

/// `list` holds the treasures bound to `slot`, each once, in the order of the
/// dump.
pub open spec fn lists_slot(reports: Seq<ZoneReport>, slot: u8, list: Seq<SlotBinding>) -> bool {
    &&& forall|k: int| 0 <= k < list.len() ==> binds(reports, slot, #[trigger] list[k])
    &&& forall|binding: SlotBinding| #[trigger]
        binds(reports, slot, binding) ==> list.contains(binding)
    &&& forall|a: int, b: int|
        0 <= a < b < list.len() ==> binding_before(#[trigger] list[a], #[trigger] list[b])
}

/// The treasures of a dump that are bound to respawn slot `slot`.
pub fn slot_bindings_of(reports: &Vec<ZoneReport>, slot: u8) -> (list: Vec<SlotBinding>)
    ensures
        lists_slot(reports@, slot, list@),
{
    let mut list: Vec<SlotBinding> = Vec::new();
    let mut z: usize = 0;
    while z < reports.len()
        invariant
            z <= reports@.len(),
            forall|k: int|
                0 <= k < list@.len() ==> binds(reports@, slot, #[trigger] list@[k])
                    && list@[k].report < z,
            forall|binding: SlotBinding| #[trigger]
                binds(reports@, slot, binding) && binding.report < z ==> list@.contains(binding),
            forall|a: int, b: int|
                0 <= a < b < list@.len() ==> binding_before(#[trigger] list@[a], #[trigger] list@[b]),
        decreases reports@.len() - z,
    {
        match &reports[z].treasures {
            Ok(treasures) => {
                let mut t: usize = 0;
                while t < treasures.len()
                    invariant
                        z < reports@.len(),
                        reports@[z as int].treasures == Ok::<Vec<ZoneTreasure>, TreasureError>(
                            *treasures,
                        ),
                        t <= treasures@.len(),
                        forall|k: int|
                            0 <= k < list@.len() ==> binds(reports@, slot, #[trigger] list@[k])
                                && (list@[k].report < z || (list@[k].report == z
                                && list@[k].treasure < t)),
                        forall|binding: SlotBinding| #[trigger]
                            binds(reports@, slot, binding) && (binding.report < z || (
                            binding.report == z && binding.treasure < t)) ==> list@.contains(
                                binding,
                            ),
                        forall|a: int, b: int|
                            0 <= a < b < list@.len() ==> binding_before(
                                #[trigger] list@[a],
                                #[trigger] list@[b],
                            ),
                    decreases treasures@.len() - t,
                {
                    let ghost before = list@;
                    if treasures[t].respawn_slot == slot {
                        list.push(SlotBinding { report: z, treasure: t });
                        assert(list@[before.len() as int] == (SlotBinding {
                            report: z,
                            treasure: t,
                        }));
                    }
                    proof {
                        assert forall|binding: SlotBinding| #[trigger]
                            binds(reports@, slot, binding) && (binding.report < z || (
                            binding.report == z && binding.treasure < t + 1)) implies list@.contains(
                            binding,
                        ) by {
                            if binding.report == z && binding.treasure == t {
                                assert(list@[before.len() as int] == binding);
                            } else {
                                assert(before.contains(binding));
                                let k = choose|k: int| 0 <= k < before.len() && before[k] == binding;
                                assert(list@[k] == binding);
                            }
                        }
                    }
                    t += 1;
                }
            },
            Err(_) => {},
        }
        z += 1;
    }
    list
}

/// The treasures of a dump by respawn slot: one list for each of the slots
/// 0 to 254. Treasures with slot 255 are bound to none.
pub fn slot_bindings(reports: &Vec<ZoneReport>) -> (slots: Vec<Vec<SlotBinding>>)
    ensures
        slots@.len() == 255,
        forall|slot: int|
            0 <= slot < 255 ==> lists_slot(reports@, slot as u8, (#[trigger] slots@[slot])@),
{
    let mut slots: Vec<Vec<SlotBinding>> = Vec::new();
    let mut slot: u8 = 0;
    while slot < NO_RESPAWN_SLOT
        invariant
            slot <= 255,
            slots@.len() == slot,
            forall|s: int| 0 <= s < slot ==> lists_slot(reports@, s as u8, (#[trigger] slots@[s])@),
        decreases 255 - slot,
    {
        slots.push(slot_bindings_of(reports, slot));
        slot += 1;
    }
    slots
}

} // verus!
