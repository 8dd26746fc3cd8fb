use battle_data::error::PackError;
use battle_data::patcher::{patch_records, RecordLayout};

#[test]
fn sets_the_mask_in_each_record_and_nothing_else() {
    let mut data: Vec<u8> = (0..20).collect();
    let before = data.clone();
    let layout = RecordLayout { base: 2, stride: 5, field_offset: 1, count: 3, mask: 0b100 };
    assert_eq!(patch_records(&mut data, &layout), Ok(()));
    for (p, byte) in data.iter().enumerate() {
        if p == 3 || p == 8 || p == 13 {
            assert_eq!(*byte, before[p] | 0b100);
        } else {
            assert_eq!(*byte, before[p]);
        }
    }
    assert_eq!(data[3], 7);
    assert_eq!(data[8], 12);
    assert_eq!(data[13], 13);
}

#[test]
fn patching_twice_is_patching_once() {
    let mut data: Vec<u8> = (0..200).map(|i| (i * 37 % 251) as u8).collect();
    let layout = RecordLayout { base: 1, stride: 7, field_offset: 3, count: 20, mask: 0b100 };
    patch_records(&mut data, &layout).unwrap();
    let once = data.clone();
    patch_records(&mut data, &layout).unwrap();
    assert_eq!(data, once);
}

#[test]
fn bits_outside_the_mask_stay() {
    let mut data = vec![0b1010_1010, 0b0101_0101];
    let layout = RecordLayout { base: 0, stride: 1, field_offset: 0, count: 2, mask: 0b0000_1111 };
    patch_records(&mut data, &layout).unwrap();
    assert_eq!(data, vec![0b1010_1111, 0b0101_1111]);
}

#[test]
fn record_beyond_the_end_stops_the_patch() {
    let mut data = vec![0u8; 10];
    let layout = RecordLayout { base: 0, stride: 4, field_offset: 1, count: 4, mask: 1 };
    assert_eq!(patch_records(&mut data, &layout), Err(PackError::IoFailure));
    // records 0, 1 and 2 lie at 1, 5 and 9; record 3 would lie at 13
    assert_eq!(data, vec![0, 1, 0, 0, 0, 1, 0, 0, 0, 1]);
}

#[test]
fn no_records_means_no_change() {
    let mut data = vec![1, 2, 3];
    let layout = RecordLayout { base: 100, stride: 1, field_offset: 0, count: 0, mask: 0xFF };
    assert_eq!(patch_records(&mut data, &layout), Ok(()));
    assert_eq!(data, vec![1, 2, 3]);
}

#[test]
fn offsets_that_overflow_are_out_of_range() {
    let mut data = vec![0u8; 4];
    let layout =
        RecordLayout { base: usize::MAX, stride: usize::MAX, field_offset: 2, count: 2, mask: 1 };
    assert_eq!(patch_records(&mut data, &layout), Err(PackError::IoFailure));
    assert_eq!(data, vec![0u8; 4]);
    let layout = RecordLayout { base: 0, stride: usize::MAX, field_offset: 0, count: 3, mask: 1 };
    assert_eq!(patch_records(&mut data, &layout), Err(PackError::IoFailure));
    assert_eq!(data, vec![1, 0, 0, 0]);
}

#[test]
fn zero_stride_patches_one_byte() {
    let mut data = vec![0u8; 3];
    let layout = RecordLayout { base: 1, stride: 0, field_offset: 0, count: 5, mask: 2 };
    assert_eq!(patch_records(&mut data, &layout), Ok(()));
    assert_eq!(data, vec![0, 2, 0]);
}
