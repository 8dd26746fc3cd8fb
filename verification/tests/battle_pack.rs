use battle_data::battle_pack::{
    allow_all_flying, equipment_signature_bytes, order_section_files, parse_section_file_name,
    repack, section_file_name, unpack, EQUIPMENT_COUNT, EQUIPMENT_STRUCT_SIZE, FLYING_FLAG,
    FLYING_FLAG_OFFSET, OFFSET_FROM_SIGNATURE,
};
use battle_data::error::PackError;

fn names(list: &[&str]) -> Vec<Vec<u8>> {
    list.iter().map(|name| name.as_bytes().to_vec()).collect()
}

#[test]
fn three_sections_unpack_and_repack_to_the_same_bytes() {
    let sections: Vec<Vec<u8>> = vec![
        (0..10).collect(),
        vec![],
        (0..=255).collect(),
    ];
    let pack = repack(&sections).unwrap();
    assert_eq!(pack.len(), 4 + 3 * 8 + 266);
    let unpacked = unpack(&pack).unwrap();
    assert_eq!(unpacked.len(), 3);
    assert_eq!(unpacked[0].len(), 10);
    assert_eq!(unpacked[1].len(), 0);
    assert_eq!(unpacked[2].len(), 256);
    assert_eq!(unpacked, sections);
    let file_names: Vec<Vec<u8>> = (0..3).map(section_file_name).collect();
    assert_eq!(
        file_names,
        names(&["section_00.bin", "section_01.bin", "section_02.bin"])
    );
    // the directory hands the files back in some other order
    let listing = vec![file_names[2].clone(), file_names[0].clone(), file_names[1].clone()];
    let contents = vec![unpacked[2].clone(), unpacked[0].clone(), unpacked[1].clone()];
    let order = order_section_files(&listing);
    assert_eq!(order, vec![1, 2, 0]);
    let again: Vec<Vec<u8>> = order.iter().map(|at| contents[*at].clone()).collect();
    assert_eq!(repack(&again).unwrap(), pack);
}

#[test]
fn repack_gives_the_exact_bytes() {
    let pack = repack(&vec![vec![0xAA], vec![], vec![0xBB, 0xCC]]).unwrap();
    assert_eq!(
        pack,
        vec![
            3, 0, 0, 0, //
            28, 0, 0, 0, 1, 0, 0, 0, //
            29, 0, 0, 0, 0, 0, 0, 0, //
            29, 0, 0, 0, 2, 0, 0, 0, //
            0xAA, 0xBB, 0xCC,
        ]
    );
}

#[test]
fn repack_of_nothing_is_an_empty_container() {
    let pack = repack(&vec![]).unwrap();
    assert_eq!(pack, vec![0, 0, 0, 0]);
    assert_eq!(unpack(&pack).unwrap(), Vec::<Vec<u8>>::new());
}

#[test]
fn unpack_rejects_malformed_containers() {
    assert_eq!(unpack(&[]), Err(PackError::Format));
    assert_eq!(unpack(&[1, 0, 0, 0]), Err(PackError::Format));
    assert_eq!(
        unpack(&[1, 0, 0, 0, 12, 0, 0, 0, 1, 0, 0, 0]),
        Err(PackError::Format)
    );
}

#[test]
fn section_names_have_two_digits_at_least() {
    assert_eq!(section_file_name(0), b"section_00.bin".to_vec());
    assert_eq!(section_file_name(7), b"section_07.bin".to_vec());
    assert_eq!(section_file_name(10), b"section_10.bin".to_vec());
    assert_eq!(section_file_name(99), b"section_99.bin".to_vec());
    assert_eq!(section_file_name(100), b"section_100.bin".to_vec());
    assert_eq!(section_file_name(12345), b"section_12345.bin".to_vec());
}

#[test]
fn section_names_are_recognised() {
    for index in 0..100usize {
        assert_eq!(
            parse_section_file_name(&section_file_name(index)),
            Some(index as u8)
        );
    }
    assert_eq!(parse_section_file_name(&section_file_name(100)), None);
}

#[test]
fn other_names_are_not_sections() {
    for name in [
        "",
        "section_0.bin",
        "section_000.bin",
        "section_1a.bin",
        "section_a1.bin",
        "section_+1.bin",
        "section_ 1.bin",
        "section_01.bim",
        "section_01.BIN",
        "Section_01.bin",
        "sectiom_01.bin",
        "section-01.bin",
        "section_01_bin",
        "xsection_01.bin",
        "section_01.binx",
        "section_/0.bin",
        "section_:0.bin",
    ] {
        assert_eq!(parse_section_file_name(name.as_bytes()), None, "{}", name);
    }
}

#[test]
fn files_are_ordered_by_index_and_others_left_out() {
    let listing = names(&[
        "section_10.bin",
        "readme.txt",
        "section_02.bin",
        "section_2.bin",
        "section_00.bin",
        "section_99.bin",
        "section_01.bin",
    ]);
    assert_eq!(order_section_files(&listing), vec![4, 6, 2, 0, 5]);
}

#[test]
fn files_of_one_index_keep_their_order() {
    let listing = names(&["section_03.bin", "section_01.bin", "section_03.bin", "section_01.bin"]);
    assert_eq!(order_section_files(&listing), vec![1, 3, 0, 2]);
    assert_eq!(order_section_files(&vec![]), Vec::<usize>::new());
}

fn pack_with_equipment(signature_at: usize, len: usize) -> Vec<u8> {
    let mut pack: Vec<u8> = (0..len).map(|i| (i % 50 + 1) as u8 & !FLYING_FLAG).collect();
    pack[signature_at..signature_at + 3].copy_from_slice(&[68, 113, 0]);
    pack
}

#[test]
fn the_marker_is_dq_nul() {
    assert_eq!(equipment_signature_bytes(), b"Dq\0".to_vec());
}

#[test]
fn flying_flag_is_set_in_every_equipment_record() {
    let signature_at = 17;
    let len = signature_at + OFFSET_FROM_SIGNATURE + EQUIPMENT_COUNT * EQUIPMENT_STRUCT_SIZE + 40;
    let mut pack = pack_with_equipment(signature_at, len);
    let before = pack.clone();
    assert_eq!(allow_all_flying(&mut pack), Ok(()));
    let mut changed = 0;
    for p in 0..len {
        let rel = p.wrapping_sub(signature_at + OFFSET_FROM_SIGNATURE);
        let target = p >= signature_at + OFFSET_FROM_SIGNATURE
            && rel % EQUIPMENT_STRUCT_SIZE == FLYING_FLAG_OFFSET
            && rel / EQUIPMENT_STRUCT_SIZE < EQUIPMENT_COUNT;
        if target {
            assert_eq!(pack[p], before[p] | 0b100);
            changed += 1;
        } else {
            assert_eq!(pack[p], before[p]);
        }
    }
    assert_eq!(changed, 200);
    assert_eq!(pack[signature_at + 8 + 7], before[signature_at + 8 + 7] | 4);
    assert_eq!(pack[signature_at + 8 + 199 * 52 + 7], before[signature_at + 8 + 199 * 52 + 7] | 4);
    let once = pack.clone();
    assert_eq!(allow_all_flying(&mut pack), Ok(()));
    assert_eq!(pack, once);
}

#[test]
fn without_the_marker_nothing_is_changed() {
    let mut pack: Vec<u8> = (0..20000).map(|i| (i % 60 + 1) as u8).collect();
    let before = pack.clone();
    assert_eq!(allow_all_flying(&mut pack), Err(PackError::SignatureNotFound));
    assert_eq!(pack, before);
    let mut empty = Vec::new();
    assert_eq!(allow_all_flying(&mut empty), Err(PackError::SignatureNotFound));
}

#[test]
fn a_pack_that_ends_inside_the_array_fails_after_the_records_it_has() {
    let signature_at = 5;
    // room for three records and a part of the fourth
    let len = signature_at + 8 + 3 * 52 + 7;
    let mut pack = pack_with_equipment(signature_at, len);
    let before = pack.clone();
    assert_eq!(allow_all_flying(&mut pack), Err(PackError::IoFailure));
    for p in 0..len {
        if p == 20 || p == 72 || p == 124 {
            assert_eq!(pack[p], before[p] | 4);
        } else {
            assert_eq!(pack[p], before[p]);
        }
    }
}

#[test]
fn the_first_marker_counts() {
    let len = 8 + 200 * 52 + 100;
    let mut pack = pack_with_equipment(0, len);
    pack[30..33].copy_from_slice(&[68, 113, 0]);
    let before = pack.clone();
    assert_eq!(allow_all_flying(&mut pack), Ok(()));
    assert_eq!(pack[15], before[15] | 4);
    assert_eq!(pack[45], before[45]);
}
