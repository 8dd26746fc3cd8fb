//! The three operations on a battle pack: taking it apart, putting it
//! together, and letting every weapon hit flying enemies.

use crate::bytes::append_bytes;
use crate::container::{
    declared_count, encodable, encode_container, lemma_payload_segment, section_bytes,
    sections_of, well_formed, ContainerReader, ContainerWriter,
};
use crate::error::PackError;
use crate::patcher::{patch_records, RecordArray, RecordLayout};
use crate::scanner::{
    absent, first_match, lemma_first_match_unique, locate_signature, matches_at, matches_here,
};
use crate::text::{decimal, push_decimal, two_digit_decimal};
use vstd::prelude::*;

verus! {

/// Distance from the start of the equipment marker to the first equipment
/// record.
pub const OFFSET_FROM_SIGNATURE: usize = 8;

/// Offset, inside an equipment record, of the byte that holds the flying flag.
pub const FLYING_FLAG_OFFSET: usize = 7;

/// Size of one equipment record.
pub const EQUIPMENT_STRUCT_SIZE: usize = 52;

/// Number of equipment records.
pub const EQUIPMENT_COUNT: usize = 200;

/// The bit that lets a weapon hit flying enemies.
pub const FLYING_FLAG: u8 = 4;

/// The bytes that mark the equipment array.
pub open spec fn equipment_signature() -> Seq<u8> {
    seq![68u8, 113u8, 0u8]
}

/// The equipment array of a battle pack whose marker stands at `signature_at`.
pub open spec fn equipment_array(signature_at: int) -> RecordArray {
    RecordArray {
        base: signature_at + OFFSET_FROM_SIGNATURE,
        stride: EQUIPMENT_STRUCT_SIZE as int,
        field_offset: FLYING_FLAG_OFFSET as int,
        count: EQUIPMENT_COUNT as int,
        mask: FLYING_FLAG,
    }
}

/// The views of the byte vectors in `sections`.
pub open spec fn byte_views(sections: Seq<Vec<u8>>) -> Seq<Seq<u8>> {
    Seq::new(sections.len(), |i: int| sections[i]@)
}

/// The marker of the equipment array.
pub fn equipment_signature_bytes() -> (r: Vec<u8>)
    ensures
        r@ == equipment_signature(),
{
    let mut r: Vec<u8> = Vec::new();
    r.push(68);
    r.push(113);
    r.push(0);
    assert(r@ =~= equipment_signature());
    r
}

/// Takes a battle pack apart: its sections, in index order.
pub fn unpack(battle_pack: &[u8]) -> (r: Result<Vec<Vec<u8>>, PackError>)
    ensures
        match r {
            Ok(sections) => well_formed(battle_pack@) && byte_views(sections@) == sections_of(
                battle_pack@,
            ),
            Err(e) => !well_formed(battle_pack@) && e == PackError::Format,
        },
{
    let reader = match ContainerReader::new(vstd::slice::slice_to_vec(battle_pack)) {
        Ok(reader) => reader,
        Err(e) => {
            return Err(e);
        },
    };
    let count: usize = reader.section_count();
    let mut sections: Vec<Vec<u8>> = Vec::new();
    let mut i: usize = 0;
    while i < count
        invariant
            reader.wf(),
            reader.bytes() == battle_pack@,
            count == declared_count(battle_pack@),
            i <= count,
            sections@.len() == i,
            forall|j: int| 0 <= j < i ==> (#[trigger] sections@[j])@ == section_bytes(battle_pack@, j),
        decreases count - i,
    {
        let mut buffer: Vec<u8> = Vec::new();
        match reader.extract_section(i, &mut buffer) {
            Ok(_) => {
                assert(buffer@ =~= section_bytes(battle_pack@, i as int));
                sections.push(buffer);
            },
            Err(e) => {
                return Err(e);
            },
        }
        i += 1;
    }
    assert(byte_views(sections@) =~= sections_of(battle_pack@));
    Ok(sections)
}

/// Puts a battle pack together from its sections, given in index order.
/// Fails with `Format` where the pack would outgrow its 32 bit offsets.
pub fn repack(sections: &Vec<Vec<u8>>) -> (r: Result<Vec<u8>, PackError>)
    ensures
        match r {
            Ok(battle_pack) => {
                &&& encodable(byte_views(sections@))
                &&& battle_pack@ == encode_container(byte_views(sections@))
                &&& well_formed(battle_pack@)
                &&& sections_of(battle_pack@) == byte_views(sections@)
            },
            Err(e) => !encodable(byte_views(sections@)) && e == PackError::Format,
        },
{
    let ghost all = byte_views(sections@);
    let count: usize = sections.len();
    let mut writer = match ContainerWriter::new(count) {
        Ok(writer) => writer,
        Err(e) => {
            return Err(e);
        },
    };
    let mut i: usize = 0;
    assert(all.take(0) =~= Seq::<Seq<u8>>::empty());
    while i < count
        invariant
            all == byte_views(sections@),
            count == sections@.len(),
            i <= count,
            writer.wf(),
            writer.declared() == count,
            writer.sections() == all.take(i as int),
        decreases count - i,
    {
        proof {
            writer.lemma_bounds();
            lemma_payload_segment(all, i as int);
            assert(all.take(i + 1) =~= all.take(i as int).push(all[i as int]));
        }
        match writer.write_section(sections[i].as_slice()) {
            Ok(()) => {},
            Err(e) => {
                return Err(e);
            },
        }
        i += 1;
    }
    assert(all.take(count as int) =~= all);
    proof {
        writer.lemma_bounds();
    }
    match writer.finish() {
        Ok(battle_pack) => Ok(battle_pack),
        Err(e) => Err(e),
    }
}

/// Sets the flying flag of every equipment record of a battle pack. The
/// equipment array is found by its marker; without the marker nothing is
/// changed.
pub fn allow_all_flying(battle_pack: &mut Vec<u8>) -> (r: Result<(), PackError>)
    ensures
        absent(old(battle_pack)@, equipment_signature()) ==> r == Err::<(), PackError>(
            PackError::SignatureNotFound,
        ) && final(battle_pack)@ == old(battle_pack)@,
        forall|at: int| #[trigger]
            first_match(old(battle_pack)@, equipment_signature(), at) ==> equipment_array(
                at,
            ).outcome(old(battle_pack)@, final(battle_pack)@, r),
{
    let signature = equipment_signature_bytes();
    match locate_signature(battle_pack.as_slice(), signature.as_slice()) {
        None => {
            assert forall|at: int| #[trigger]
                first_match(battle_pack@, equipment_signature(), at) implies false by {
                lemma_first_match_unique(battle_pack@, equipment_signature(), at, at);
            }
            Err(PackError::SignatureNotFound)
        },
        Some(found) => {
            assert forall|at: int| #[trigger]
                first_match(battle_pack@, equipment_signature(), at) implies at == found by {
                lemma_first_match_unique(battle_pack@, equipment_signature(), at, found as int);
            }
            match found.checked_add(OFFSET_FROM_SIGNATURE) {
                Some(base) => {
                    let layout = RecordLayout {
                        base,
                        stride: EQUIPMENT_STRUCT_SIZE,
                        field_offset: FLYING_FLAG_OFFSET,
                        count: EQUIPMENT_COUNT,
                        mask: FLYING_FLAG,
                    };
                    assert(layout@ == equipment_array(found as int));
                    patch_records(battle_pack, &layout)
                },
                None => {
                    let total: usize = battle_pack.len();
                    proof {
                        let array = equipment_array(found as int);
                        assert(array.position(0) >= battle_pack@.len());
                        assert(battle_pack@ =~= array.patched(battle_pack@, 0));
                    }
                    Err(PackError::IoFailure)
                },
            }
        },
    }
}

/// Setting the flying flags leaves the marker where it was, and the first:
/// a second run finds the same array and changes nothing more.
pub proof fn lemma_marker_survives_patch(battle_pack: Seq<u8>, at: int, upto: int)
    requires
        first_match(battle_pack, equipment_signature(), at),
    ensures
        first_match(equipment_array(at).patched(battle_pack, upto), equipment_signature(), at),
        equipment_array(at).patched(equipment_array(at).patched(battle_pack, upto), upto)
            == equipment_array(at).patched(battle_pack, upto),
{
    let array = equipment_array(at);
    let patched = array.patched(battle_pack, upto);
    let marker = equipment_signature();
    assert forall|p: int| 0 <= p < at + 15 && p < battle_pack.len() implies patched[p]
        == battle_pack[p] by {
        if array.targets(p, upto) {
            let i = choose|i: int| 0 <= i < upto && p == #[trigger] array.position(i);
            assert(array.position(i) >= at + 15) by (nonlinear_arith)
                requires
                    0 <= i,
                    array.position(i) == at + 8 + i * 52 + 7,
            ;
        }
    }
    assert forall|start: int| 0 <= start <= at implies matches_at(patched, marker, start)
        == matches_at(battle_pack, marker, start) by {
        if start + 3 <= battle_pack.len() {
            assert(patched.subrange(start, start + 3) =~= battle_pack.subrange(start, start + 3));
        }
    }
    array.lemma_patch_idempotent(battle_pack, upto);
}

/// `section_`, with which the name of an exported section starts.
pub open spec fn name_prefix() -> Seq<u8> {
    seq![115u8, 101u8, 99u8, 116u8, 105u8, 111u8, 110u8, 95u8]
}

/// `.bin`, with which the name of an exported section ends.
pub open spec fn name_suffix() -> Seq<u8> {
    seq![46u8, 98u8, 105u8, 110u8]
}

/// The file name under which section `index` is exported: `section_`, the
/// index in at least two decimal digits, `.bin`.
pub open spec fn section_name(index: nat) -> Seq<u8> {
    name_prefix() + two_digit_decimal(index) + name_suffix()
}

/// `b` is an ASCII decimal digit.
pub open spec fn is_digit(b: u8) -> bool {
    48 <= b <= 57
}

/// The section index that a file name stands for: `Some` for exactly the
/// names made of `section_`, two decimal digits and `.bin`.
pub open spec fn section_index(name: Seq<u8>) -> Option<int> {
    if name.len() == 14 && name.subrange(0, 8) == name_prefix() && is_digit(name[8]) && is_digit(
        name[9],
    ) && name.subrange(10, 14) == name_suffix() {
        Some(10 * (name[8] - 48) + (name[9] - 48))
    } else {
        None
    }
}

/// The name of an exported section is recognised, and gives its index back,
/// as long as the index has two digits; a longer name is not recognised.
pub proof fn lemma_section_name_round_trip(index: nat)
    ensures
        section_index(section_name(index)) == if index < 100 {
            Some(index as int)
        } else {
            None
        },
{
    let name = section_name(index);
    if index < 10 {
        assert(name =~= name_prefix() + seq![48u8, (48 + index) as u8] + name_suffix());
        assert(name.subrange(0, 8) =~= name_prefix());
        assert(name.subrange(10, 14) =~= name_suffix());
    } else if index < 100 {
        assert(decimal(index) =~= seq![(48 + index / 10) as u8, (48 + index % 10) as u8]) by {
            reveal_with_fuel(decimal, 2);
        }
        assert(name =~= name_prefix() + decimal(index) + name_suffix());
        assert(name.subrange(0, 8) =~= name_prefix());
        assert(name.subrange(10, 14) =~= name_suffix());
    } else {
        lemma_decimal_len(index);
        assert(name.len() > 14);
    }
}

/// A number of three digits or more has that many digits.
proof fn lemma_decimal_len(n: nat)
    ensures
        decimal(n).len() >= 1,
        n >= 10 ==> decimal(n).len() >= 2,
        n >= 100 ==> decimal(n).len() >= 3,
    decreases n,
{
    if n >= 10 {
        lemma_decimal_len(n / 10);
    }
}

/// `section_` in ASCII.
fn name_prefix_bytes() -> (r: Vec<u8>)
    ensures
        r@ == name_prefix(),
{
    let mut r: Vec<u8> = Vec::new();
    r.push(115);
    r.push(101);
    r.push(99);
    r.push(116);
    r.push(105);
    r.push(111);
    r.push(110);
    r.push(95);
    assert(r@ =~= name_prefix());
    r
}

/// `.bin` in ASCII.
fn name_suffix_bytes() -> (r: Vec<u8>)
    ensures
        r@ == name_suffix(),
{
    let mut r: Vec<u8> = Vec::new();
    r.push(46);
    r.push(98);
    r.push(105);
    r.push(110);
    assert(r@ =~= name_suffix());
    r
}

/// The file name under which section `index` is exported, in ASCII.
pub fn section_file_name(index: usize) -> (name: Vec<u8>)
    ensures
        name@ == section_name(index as nat),
{
    let mut name = name_prefix_bytes();
    if index < 10 {
        name.push(48);
    }
    push_decimal(&mut name, index as u64);
    append_bytes(&mut name, name_suffix_bytes().as_slice());
    assert(name@ =~= section_name(index as nat));
    name
}

/// The section index that a file name stands for, if it is the name of an
/// exported section.
pub fn parse_section_file_name(name: &[u8]) -> (r: Option<u8>)
    ensures
        match r {
            Some(index) => section_index(name@) == Some(index as int),
            None => section_index(name@) is None,
        },
{
    if name.len() != 14 {
        return None;
    }
    let prefix = name_prefix_bytes();
    let suffix = name_suffix_bytes();
    if !matches_here(name, prefix.as_slice(), 0) || !matches_here(name, suffix.as_slice(), 10) {
        return None;
    }
    let tens: u8 = name[8];
    let ones: u8 = name[9];
    if tens < 48 || tens > 57 || ones < 48 || ones > 57 {
        return None;
    }
    Some(10 * (tens - 48) + (ones - 48))
}

/// `i` occurs in `order`.
pub open spec fn listed(order: Seq<usize>, i: int) -> bool {
    exists|at: int| 0 <= at < order.len() && #[trigger] order[at] == i
}

/// `order` lists exactly the names that stand for a section, each once, by
/// ascending section index, and names of one index in the order in which
/// they were given.
pub open spec fn orders_section_files(names: Seq<Seq<u8>>, order: Seq<usize>) -> bool {
    &&& forall|at: int|
        0 <= at < order.len() ==> (#[trigger] order[at]) < names.len() && section_index(
            names[order[at] as int],
        ) is Some
    &&& forall|i: int|
        0 <= i < names.len() && section_index(#[trigger] names[i]) is Some ==> listed(order, i)
    &&& forall|a: int, b: int|
        0 <= a < b < order.len() ==> file_before(
            names,
            #[trigger] order[a] as int,
            #[trigger] order[b] as int,
        )
}

/// The file at `i` comes before the file at `j`: by section index, then by
/// place.
pub open spec fn file_before(names: Seq<Seq<u8>>, i: int, j: int) -> bool {
    let a = section_index(names[i]).unwrap();
    let b = section_index(names[j]).unwrap();
    a < b || (a == b && i < j)
}

/// Picks, from the file names of a directory, the exported sections, and
/// returns their places in `names` in the order in which a battle pack holds
/// them.
pub fn order_section_files(names: &Vec<Vec<u8>>) -> (order: Vec<usize>)
    ensures
        orders_section_files(byte_views(names@), order@),
{
    let ghost all = byte_views(names@);
    let count: usize = names.len();
    let mut keys: Vec<Option<u8>> = Vec::new();
    let mut i: usize = 0;
    while i < count
        invariant
            all == byte_views(names@),
            count == names@.len(),
            i <= count,
            keys@.len() == i,
            forall|j: int|
                0 <= j < i ==> match #[trigger] keys@[j] {
                    Some(index) => section_index(all[j]) == Some(index as int),
                    None => section_index(all[j]) is None,
                },
        decreases count - i,
    {
        keys.push(parse_section_file_name(names[i].as_slice()));
        i += 1;
    }
    let mut order: Vec<usize> = Vec::new();
    let mut key: u8 = 0;
    while key < 100
        invariant
            all.len() == count,
            keys@.len() == count,
            key <= 100,
            forall|j: int|
                0 <= j < count ==> match #[trigger] keys@[j] {
                    Some(index) => section_index(all[j]) == Some(index as int),
                    None => section_index(all[j]) is None,
                },
            forall|at: int|
                0 <= at < order@.len() ==> (#[trigger] order@[at]) < count && section_index(
                    all[order@[at] as int],
                ) is Some && section_index(all[order@[at] as int]).unwrap() < key,
            forall|j: int|
                0 <= j < count && section_index(#[trigger] all[j]) is Some && section_index(
                    all[j],
                ).unwrap() < key ==> listed(order@, j),
            forall|a: int, b: int|
                0 <= a < b < order@.len() ==> file_before(
                    all,
                    #[trigger] order@[a] as int,
                    #[trigger] order@[b] as int,
                ),
        decreases 100 - key,
    {
        let mut j: usize = 0;
        while j < count
            invariant
                all.len() == count,
                keys@.len() == count,
                key < 100,
                j <= count,
                forall|j: int|
                    0 <= j < count ==> match #[trigger] keys@[j] {
                        Some(index) => section_index(all[j]) == Some(index as int),
                        None => section_index(all[j]) is None,
                    },
                forall|at: int|
                    0 <= at < order@.len() ==> (#[trigger] order@[at]) < count && section_index(
                        all[order@[at] as int],
                    ) is Some && (section_index(all[order@[at] as int]).unwrap() < key || (
                    section_index(all[order@[at] as int]).unwrap() == key && order@[at] < j)),
                forall|i: int|
                    0 <= i < count && section_index(#[trigger] all[i]) is Some && (section_index(
                        all[i],
                    ).unwrap() < key || (section_index(all[i]).unwrap() == key && i < j))
                        ==> listed(order@, i),
                forall|a: int, b: int|
                    0 <= a < b < order@.len() ==> file_before(
                        all,
                        #[trigger] order@[a] as int,
                        #[trigger] order@[b] as int,
                    ),
            decreases count - j,
        {
            let here: Option<u8> = keys[j];
            let ghost before = order@;
            if here == Some(key) {
                order.push(j);
                proof {
                    assert(order@[before.len() as int] == j);
                    assert(listed(order@, j as int));
                }
            }
            proof {
                assert forall|i: int|
                    0 <= i < count && section_index(#[trigger] all[i]) is Some && (section_index(
                        all[i],
                    ).unwrap() < key || (section_index(all[i]).unwrap() == key && i < j + 1))
                        implies listed(order@, i) by {
                    if i != j {
                        assert(listed(before, i));
                        let at = choose|at: int| 0 <= at < before.len() && #[trigger] before[at] == i;
                        assert(order@[at] == i);
                    }
                }
            }
            j += 1;
        }
        key += 1;
    }
    proof {
        assert forall|i: int|
            0 <= i < count && section_index(#[trigger] all[i]) is Some implies listed(
            order@,
            i,
        ) by {
            assert(keys@[i] is Some);
        }
    }
    order
}

} // verus!
