//! The text of a treasure dump, as UTF-8 bytes.

use crate::bytes::append_bytes;
use crate::text::{
    decimal, hexadecimal, left_aligned, push_decimal, push_hexadecimal, push_left_aligned,
    push_right_aligned, push_signed_decimal, right_aligned, signed_decimal,
    two_digit_hexadecimal,
};
use crate::treasure::ZoneTreasure;
use vstd::prelude::*;
use vstd::string::StringSliceAdditionalSpecFns;
use vstd::utf8::encode_utf8;

verus! {

/// The UTF-8 encoding of `text`.
pub open spec fn utf8(text: Seq<char>) -> Seq<u8> {
    encode_utf8(text)
}

/// `n` bytes `b`.
pub open spec fn repeated(b: u8, n: nat) -> Seq<u8> {
    Seq::new(n, |i: int| b)
}

/// The line of column titles that stands over a zone's treasures.
pub open spec fn column_titles() -> Seq<u8> {
    seq![9u8] + left_aligned(utf8("ID"@), 3) + left_aligned(utf8("Slot"@), 6) + left_aligned(
        utf8("Spn%"@),
        6,
    ) + left_aligned(utf8("Gil%"@), 6) + left_aligned(utf8("Gil"@), 6) + left_aligned(
        utf8("Item 1 (%50%)"@),
        20,
    ) + left_aligned(utf8("Item 2 (50%)"@), 20) + left_aligned(utf8("DA 1 (95%)"@), 20)
        + left_aligned(utf8("DA 2 (5%)"@), 20) + left_aligned(utf8("DGil"@), 5) + right_aligned(
        utf8("X"@),
        6,
    ) + right_aligned(utf8("Y"@), 6) + seq![10u8]
}

/// The heading of a zone's report: the zone's name, the column titles, and
/// a rule of 124 `=`, each on a line of its own.
pub open spec fn zone_heading(name: Seq<char>) -> Seq<u8> {
    utf8(name) + seq![10u8] + column_titles() + seq![9u8] + repeated(61, 124) + seq![10u8]
}

/// The report line of one treasure, with the names of its four items.
pub open spec fn treasure_line(
    treasure: ZoneTreasure,
    first: Seq<char>,
    second: Seq<char>,
    rare_first: Seq<char>,
    rare_second: Seq<char>,
) -> Seq<u8> {
    seq![9u8] + left_aligned(decimal(treasure.id as nat), 3) + left_aligned(
        hexadecimal(treasure.respawn_slot as nat),
        6,
    ) + left_aligned(decimal(treasure.spawn_chance as nat), 6) + left_aligned(
        decimal(treasure.gil_chance as nat),
        6,
    ) + left_aligned(decimal(treasure.gil_amount as nat), 6) + left_aligned(utf8(first), 20)
        + left_aligned(utf8(second), 20) + left_aligned(utf8(rare_first), 20) + left_aligned(
        utf8(rare_second),
        20,
    ) + right_aligned(decimal(treasure.rare_gil_amount as nat), 5) + right_aligned(
        signed_decimal(treasure.pos_x as int),
        6,
    ) + right_aligned(signed_decimal(treasure.pos_y as int), 6) + seq![10u8]
}

/// A treasure as the list of respawn slots names it.
#[derive(Clone, Debug)]
pub struct SlotEntry {
    /// The name of the zone's group.
    pub group: String,
    /// The name of the zone.
    pub zone: String,
    /// The treasure's id.
    pub id: u32,
    /// The name of the treasure's first item.
    pub first_item: String,
}

/// One treasure in the list of a respawn slot: `(group: zone :: id = item)`.
pub open spec fn slot_entry(entry: SlotEntry) -> Seq<u8> {
    utf8("("@) + utf8(entry.group@) + utf8(": "@) + utf8(entry.zone@) + utf8(" :: "@) + decimal(
        entry.id as nat,
    ) + utf8(" = "@) + utf8(entry.first_item@) + utf8(")"@)
}

/// The treasures of a respawn slot, separated by a comma and a space.
pub open spec fn slot_entries(entries: Seq<SlotEntry>) -> Seq<u8>
    decreases entries.len(),
{
    if entries.len() == 0 {
        Seq::empty()
    } else if entries.len() == 1 {
        slot_entry(entries[0])
    } else {
        slot_entries(entries.drop_last()) + utf8(", "@) + slot_entry(entries.last())
    }
}

/// The first line of the list of respawn slots.
pub open spec fn slots_heading() -> Seq<u8> {
    utf8("Slot => [(Zone: Area :: ID = Item), (...), ...]"@) + seq![10u8]
}

/// The line of one respawn slot: the slot in two hexadecimal digits, and its
/// treasures in square brackets.
pub open spec fn slot_line(slot: u8, entries: Seq<SlotEntry>) -> Seq<u8> {
    two_digit_hexadecimal(slot as nat) + utf8(" => ["@) + slot_entries(entries) + utf8("]"@) + seq![10u8]
}

/// Appends `text`.
fn push_text(out: &mut Vec<u8>, text: &str)
    ensures
        final(out)@ == old(out)@ + utf8(text@),
{
    append_bytes(out, text.as_bytes());
}

/// Appends `text` in a column, flush left.
fn push_left_text(out: &mut Vec<u8>, text: &str, width: usize)
    ensures
        final(out)@ == old(out)@ + left_aligned(utf8(text@), width as nat),
{
    push_left_aligned(out, text.as_bytes(), width);
}

/// Appends `text` in a column, flush right.
fn push_right_text(out: &mut Vec<u8>, text: &str, width: usize)
    ensures
        final(out)@ == old(out)@ + right_aligned(utf8(text@), width as nat),
{
    push_right_aligned(out, text.as_bytes(), width);
}

/// Appends `n` in decimal digits in a column, flush left.
fn push_left_decimal(out: &mut Vec<u8>, n: u64, width: usize)
    ensures
        final(out)@ == old(out)@ + left_aligned(decimal(n as nat), width as nat),
{
    let mut cell: Vec<u8> = Vec::new();
    push_decimal(&mut cell, n);
    assert(cell@ =~= decimal(n as nat));
    push_left_aligned(out, cell.as_slice(), width);
}

/// Appends `n` in hexadecimal digits in a column, flush left.
fn push_left_hexadecimal(out: &mut Vec<u8>, n: u64, width: usize)
    ensures
        final(out)@ == old(out)@ + left_aligned(hexadecimal(n as nat), width as nat),
{
    let mut cell: Vec<u8> = Vec::new();
    push_hexadecimal(&mut cell, n);
    assert(cell@ =~= hexadecimal(n as nat));
    push_left_aligned(out, cell.as_slice(), width);
}

/// Appends `n` in decimal digits in a column, flush right.
fn push_right_decimal(out: &mut Vec<u8>, n: u64, width: usize)
    ensures
        final(out)@ == old(out)@ + right_aligned(decimal(n as nat), width as nat),
{
    let mut cell: Vec<u8> = Vec::new();
    push_decimal(&mut cell, n);
    assert(cell@ =~= decimal(n as nat));
    push_right_aligned(out, cell.as_slice(), width);
}

/// Appends `v` in decimal digits in a column, flush right.
fn push_right_signed(out: &mut Vec<u8>, v: i64, width: usize)
    ensures
        final(out)@ == old(out)@ + right_aligned(signed_decimal(v as int), width as nat),
{
    let mut cell: Vec<u8> = Vec::new();
    push_signed_decimal(&mut cell, v);
    assert(cell@ =~= signed_decimal(v as int));
    push_right_aligned(out, cell.as_slice(), width);
}

/// Appends `n` bytes `b`.
fn push_repeated(out: &mut Vec<u8>, b: u8, n: usize)
    ensures
        final(out)@ == old(out)@ + repeated(b, n as nat),
{
    let mut i: usize = 0;
    assert(out@ =~= old(out)@ + repeated(b, 0));
    while i < n
        invariant
            i <= n,
            out@ == old(out)@ + repeated(b, i as nat),
        decreases n - i,
    {
        out.push(b);
        assert(out@ =~= old(out)@ + repeated(b, (i + 1) as nat));
        i += 1;
    }
}

/// Appends the line of column titles.
fn push_column_titles(out: &mut Vec<u8>)
    ensures
        final(out)@ == old(out)@ + column_titles(),
{
    out.push(9);
    push_left_text(out, "ID", 3);
    push_left_text(out, "Slot", 6);
    push_left_text(out, "Spn%", 6);
    push_left_text(out, "Gil%", 6);
    push_left_text(out, "Gil", 6);
    push_left_text(out, "Item 1 (%50%)", 20);
    push_left_text(out, "Item 2 (50%)", 20);
    push_left_text(out, "DA 1 (95%)", 20);
    push_left_text(out, "DA 2 (5%)", 20);
    push_left_text(out, "DGil", 5);
    push_right_text(out, "X", 6);
    push_right_text(out, "Y", 6);
    out.push(10);
    assert(out@ =~= old(out)@ + column_titles());
}

/// The heading of a zone's report.
pub fn zone_heading_text(name: &str) -> (text: Vec<u8>)
    ensures
        text@ == zone_heading(name@),
{
    let mut text: Vec<u8> = Vec::new();
    push_text(&mut text, name);
    text.push(10);
    push_column_titles(&mut text);
    text.push(9);
    push_repeated(&mut text, 61, 124);
    text.push(10);
    assert(text@ =~= zone_heading(name@));
    text
}

/// The report line of one treasure, with the names of its four items.
pub fn treasure_line_text(
    treasure: &ZoneTreasure,
    first: &str,
    second: &str,
    rare_first: &str,
    rare_second: &str,
) -> (text: Vec<u8>)
    ensures
        text@ == treasure_line(*treasure, first@, second@, rare_first@, rare_second@),
{
    let mut text: Vec<u8> = Vec::new();
    text.push(9);
    push_left_decimal(&mut text, treasure.id as u64, 3);
    push_left_hexadecimal(&mut text, treasure.respawn_slot as u64, 6);
    push_left_decimal(&mut text, treasure.spawn_chance as u64, 6);
    push_left_decimal(&mut text, treasure.gil_chance as u64, 6);
    push_left_decimal(&mut text, treasure.gil_amount as u64, 6);
    push_left_text(&mut text, first, 20);
    push_left_text(&mut text, second, 20);
    push_left_text(&mut text, rare_first, 20);
    push_left_text(&mut text, rare_second, 20);
    push_right_decimal(&mut text, treasure.rare_gil_amount as u64, 5);
    push_right_signed(&mut text, treasure.pos_x as i64, 6);
    push_right_signed(&mut text, treasure.pos_y as i64, 6);
    text.push(10);
    assert(text@ =~= treasure_line(*treasure, first@, second@, rare_first@, rare_second@));
    text
}

/// Appends one treasure of a respawn slot's list.
fn push_slot_entry(out: &mut Vec<u8>, entry: &SlotEntry)
    ensures
        final(out)@ == old(out)@ + slot_entry(*entry),
{
    push_text(out, "(");
    push_text(out, entry.group.as_str());
    push_text(out, ": ");
    push_text(out, entry.zone.as_str());
    push_text(out, " :: ");
    push_decimal(out, entry.id as u64);
    push_text(out, " = ");
    push_text(out, entry.first_item.as_str());
    push_text(out, ")");
    assert(out@ =~= old(out)@ + slot_entry(*entry));
}

/// The first line of the list of respawn slots.
pub fn slots_heading_text() -> (text: Vec<u8>)
    ensures
        text@ == slots_heading(),
{
    let mut text: Vec<u8> = Vec::new();
    push_text(&mut text, "Slot => [(Zone: Area :: ID = Item), (...), ...]");
    text.push(10);
    assert(text@ =~= slots_heading());
    text
}

/// The line of one respawn slot.
pub fn slot_line_text(slot: u8, entries: &Vec<SlotEntry>) -> (text: Vec<u8>)
    ensures
        text@ == slot_line(slot, entries@),
{
    let mut text: Vec<u8> = Vec::new();
    if slot < 16 {
        text.push(48);
    }
    push_hexadecimal(&mut text, slot as u64);
    push_text(&mut text, " => [");
    let ghost start = text@;
    let mut k: usize = 0;
    assert(entries@.take(0) =~= Seq::<SlotEntry>::empty());
    assert(text@ =~= start + slot_entries(entries@.take(0)));
    while k < entries.len()
        invariant
            k <= entries@.len(),
            text@ == start + slot_entries(entries@.take(k as int)),
        decreases entries@.len() - k,
    {
        proof {
            assert(entries@.take(k + 1).drop_last() =~= entries@.take(k as int));
            assert(entries@.take(k + 1).last() == entries@[k as int]);
        }
        if k > 0 {
            push_text(&mut text, ", ");
        }
        push_slot_entry(&mut text, &entries[k]);
        assert(text@ =~= start + slot_entries(entries@.take(k + 1)));
        k += 1;
    }
    assert(entries@.take(k as int) =~= entries@);
    push_text(&mut text, "]");
    text.push(10);
    assert(text@ =~= slot_line(slot, entries@));
    text
}

} // verus!
