use battle_data::report::{
    slot_line_text, slots_heading_text, treasure_line_text, zone_heading_text, SlotEntry,
};
use battle_data::text::{
    count_chars, push_decimal, push_hexadecimal, push_left_aligned, push_right_aligned,
    push_signed_decimal, push_spaces,
};
use battle_data::treasure::ZoneTreasure;

fn text_of(build: impl Fn(&mut Vec<u8>)) -> String {
    let mut out = Vec::new();
    build(&mut out);
    String::from_utf8(out).unwrap()
}

#[test]
fn numerals_agree_with_the_standard_ones() {
    for n in [0u64, 1, 9, 10, 11, 15, 16, 17, 99, 100, 255, 256, 4095, 65535, 1 << 32, u64::MAX] {
        assert_eq!(text_of(|out| push_decimal(out, n)), format!("{}", n));
        assert_eq!(text_of(|out| push_hexadecimal(out, n)), format!("{:x}", n));
    }
    for v in [0i64, 1, -1, 9, -9, 10, -10, 32767, -32768, i64::MAX, i64::MIN] {
        assert_eq!(text_of(|out| push_signed_decimal(out, v)), format!("{}", v));
    }
}

#[test]
fn numerals_are_appended() {
    let mut out = b"x=".to_vec();
    push_decimal(&mut out, 205);
    push_hexadecimal(&mut out, 205);
    push_signed_decimal(&mut out, -7);
    push_spaces(&mut out, 2);
    assert_eq!(out, b"x=205cd-7  ".to_vec());
}

#[test]
fn characters_are_counted_not_bytes() {
    assert_eq!(count_chars(b""), 0);
    assert_eq!(count_chars(b"abc"), 3);
    assert_eq!(count_chars("é".as_bytes()), 1);
    assert_eq!(count_chars("Zodiac槍 ✦".as_bytes()), 9);
    assert_eq!(count_chars("🗡".as_bytes()), 1);
}

#[test]
fn columns_agree_with_the_standard_ones() {
    for text in ["", "a", "Potion", "exactly twenty chars", "a name of more than twenty characters", "Élixir ✦ 槍"] {
        for width in [0usize, 1, 5, 6, 20, 21] {
            assert_eq!(
                text_of(|out| push_left_aligned(out, text.as_bytes(), width)),
                format!("{:width$}", text, width = width)
            );
            assert_eq!(
                text_of(|out| push_right_aligned(out, text.as_bytes(), width)),
                format!("{:>width$}", text, width = width)
            );
        }
    }
}

#[test]
fn zone_heading_is_three_lines() {
    let text = String::from_utf8(zone_heading_text("Giza Plains")).unwrap();
    let expected = format!(
        "{}\n\t{:3}{:6}{:6}{:6}{:6}{:20}{:20}{:20}{:20}{:5}{:>6}{:>6}\n\t{:=<124}\n",
        "Giza Plains",
        "ID",
        "Slot",
        "Spn%",
        "Gil%",
        "Gil",
        "Item 1 (%50%)",
        "Item 2 (50%)",
        "DA 1 (95%)",
        "DA 2 (5%)",
        "DGil",
        "X",
        "Y",
        "="
    );
    assert_eq!(text, expected);
    assert!(text.starts_with("Giza Plains\n\tID Slot  Spn%  Gil%  Gil   Item 1 (%50%)       "));
    assert!(text.ends_with(&format!("\n\t{}\n", "=".repeat(124))));
}

fn line_of(treasure: &ZoneTreasure, names: [&str; 4]) -> String {
    format!(
        "\t{:<3}{:<6x}{:<6}{:<6}{:<6}{:20}{:20}{:20}{:20}{:5}{:6}{:6}\n",
        treasure.id,
        treasure.respawn_slot,
        treasure.spawn_chance,
        treasure.gil_chance,
        treasure.gil_amount,
        names[0],
        names[1],
        names[2],
        names[3],
        treasure.rare_gil_amount,
        treasure.pos_x,
        treasure.pos_y
    )
}

#[test]
fn treasure_line_has_the_exact_text() {
    let treasure = ZoneTreasure {
        id: 7,
        pos_x: -12,
        pos_y: 345,
        respawn_slot: 0xAB,
        spawn_chance: 75,
        gil_chance: 50,
        first_item: 1,
        second_item: 2,
        rare_first_item: 3,
        rare_second_item: 4,
        gil_amount: 120,
        rare_gil_amount: 9,
    };
    let text = treasure_line_text(&treasure, "Potion", "Ether", "Elixir", "Knot of Rust");
    assert_eq!(
        String::from_utf8(text).unwrap(),
        "\t7  ab    75    50    120   Potion              Ether               \
         Elixir              Knot of Rust            9   -12   345\n"
    );
}

#[test]
fn treasure_lines_agree_with_the_standard_formatting() {
    let names = [
        ["Potion", "Ether", "Elixir", "Knot of Rust"],
        ["", "a name of more than twenty characters", "Élixir ✦ 槍", "exactly twenty chars"],
    ];
    let mut treasure = ZoneTreasure {
        id: 0,
        pos_x: 0,
        pos_y: 0,
        respawn_slot: 0,
        spawn_chance: 0,
        gil_chance: 0,
        first_item: 0,
        second_item: 0,
        rare_first_item: 0,
        rare_second_item: 0,
        gil_amount: 0,
        rare_gil_amount: 0,
    };
    for round in 0..40u32 {
        for set in names {
            assert_eq!(
                String::from_utf8(treasure_line_text(&treasure, set[0], set[1], set[2], set[3]))
                    .unwrap(),
                line_of(&treasure, set)
            );
        }
        treasure.id = treasure.id.wrapping_mul(31).wrapping_add(round * 977 + 1);
        treasure.pos_x = (treasure.id % 65536) as u16 as i16;
        treasure.pos_y = ((treasure.id / 7) % 65536) as u16 as i16;
        treasure.respawn_slot = (treasure.id % 256) as u8;
        treasure.spawn_chance = (round * 7 % 256) as u8;
        treasure.gil_chance = (round * 13 % 101) as u8;
        treasure.gil_amount = (treasure.id % 65521) as u16;
        treasure.rare_gil_amount = (treasure.id / 3 % 65536) as u16;
    }
    treasure.id = u32::MAX;
    treasure.pos_x = i16::MIN;
    treasure.pos_y = i16::MAX;
    treasure.respawn_slot = 255;
    treasure.gil_amount = u16::MAX;
    treasure.rare_gil_amount = u16::MAX;
    assert_eq!(
        String::from_utf8(treasure_line_text(&treasure, "a", "b", "c", "d")).unwrap(),
        line_of(&treasure, ["a", "b", "c", "d"])
    );
}

fn entry(group: &str, zone: &str, id: u32, item: &str) -> SlotEntry {
    SlotEntry {
        group: group.to_string(),
        zone: zone.to_string(),
        id,
        first_item: item.to_string(),
    }
}

#[test]
fn slot_lines_have_the_exact_text() {
    assert_eq!(
        String::from_utf8(slots_heading_text()).unwrap(),
        "Slot => [(Zone: Area :: ID = Item), (...), ...]\n"
    );
    assert_eq!(String::from_utf8(slot_line_text(0, &vec![])).unwrap(), "00 => []\n");
    assert_eq!(String::from_utf8(slot_line_text(0x0f, &vec![])).unwrap(), "0f => []\n");
    assert_eq!(String::from_utf8(slot_line_text(0x10, &vec![])).unwrap(), "10 => []\n");
    assert_eq!(String::from_utf8(slot_line_text(0xfe, &vec![])).unwrap(), "fe => []\n");
    assert_eq!(
        String::from_utf8(slot_line_text(3, &vec![entry("Desert", "Westersand", 12, "Potion")]))
            .unwrap(),
        "03 => [(Desert: Westersand :: 12 = Potion)]\n"
    );
    assert_eq!(
        String::from_utf8(slot_line_text(
            0xa1,
            &vec![
                entry("Desert", "Westersand", 12, "Potion"),
                entry("Unknown", "Lhusu Mines", 0, "Élixir"),
                entry("", "", 4000000000, ""),
            ]
        ))
        .unwrap(),
        "a1 => [(Desert: Westersand :: 12 = Potion), (Unknown: Lhusu Mines :: 0 = Élixir), \
         (:  :: 4000000000 = )]\n"
    );
}
