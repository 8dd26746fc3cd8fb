use battle_data::scanner::{locate_signature, locate_signature_chunked, SignatureScanner};

#[test]
fn finds_signature_at_start_middle_and_end() {
    let sig = [68u8, 113, 0];
    assert_eq!(locate_signature(&[68, 113, 0, 1, 2], &sig), Some(0));
    assert_eq!(locate_signature(&[1, 68, 113, 0, 2], &sig), Some(1));
    assert_eq!(locate_signature(&[1, 2, 68, 113, 0], &sig), Some(2));
}

#[test]
fn reports_the_first_of_several_occurrences() {
    assert_eq!(locate_signature(&[0, 1, 2, 1, 2, 1, 2], &[1, 2]), Some(1));
    assert_eq!(locate_signature(&[1, 1, 1, 1], &[1, 1]), Some(0));
}

#[test]
fn absent_signature_is_not_found() {
    assert_eq!(locate_signature(&[68, 113, 1, 68, 0, 113], &[68, 113, 0]), None);
    assert_eq!(locate_signature(&[], &[1]), None);
    assert_eq!(locate_signature(&[1, 2], &[1, 2, 3]), None);
}

#[test]
fn partial_match_at_the_end_is_not_found() {
    assert_eq!(locate_signature(&[5, 5, 68, 113], &[68, 113, 0]), None);
}

#[test]
fn empty_signature_stands_at_the_start() {
    assert_eq!(locate_signature(&[1, 2, 3], &[]), Some(0));
    assert_eq!(locate_signature(&[], &[]), Some(0));
}

#[test]
fn chunk_size_does_not_change_the_outcome() {
    let mut data = vec![7u8; 50];
    let sig = [68u8, 113, 0, 9];
    for at in 0..=(data.len() - sig.len()) {
        let mut stream = data.clone();
        stream[at..at + sig.len()].copy_from_slice(&sig);
        for chunk in 0..=12 {
            assert_eq!(locate_signature_chunked(&stream, &sig, chunk), Some(at));
        }
        assert_eq!(locate_signature(&stream, &sig), Some(at));
    }
    data[10] = 68;
    data[11] = 113;
    for chunk in 0..=12 {
        assert_eq!(locate_signature_chunked(&data, &sig, chunk), None);
    }
}

#[test]
fn scanner_finds_a_signature_that_straddles_chunks() {
    let mut scanner = SignatureScanner::new(vec![1, 2, 3]);
    assert_eq!(scanner.feed(&[9, 9, 1]), None);
    assert_eq!(scanner.feed(&[2]), None);
    assert_eq!(scanner.feed(&[3, 9]), Some(2));
    assert_eq!(scanner.result(), Some(2));
}

#[test]
fn scanner_keeps_the_first_occurrence() {
    let mut scanner = SignatureScanner::new(vec![5]);
    assert_eq!(scanner.result(), None);
    assert_eq!(scanner.feed(&[]), None);
    assert_eq!(scanner.feed(&[1, 5, 5]), Some(1));
    assert_eq!(scanner.feed(&[5]), Some(1));
}

#[test]
fn scanner_counts_offsets_over_all_chunks() {
    let mut scanner = SignatureScanner::new(vec![4, 4]);
    for _ in 0..10 {
        assert_eq!(scanner.feed(&[4, 1, 2]), None);
    }
    assert_eq!(scanner.feed(&[3, 4]), None);
    assert_eq!(scanner.feed(&[4]), Some(31));
}

#[test]
fn scanner_with_empty_signature_has_found_it() {
    let mut scanner = SignatureScanner::new(vec![]);
    assert_eq!(scanner.result(), Some(0));
    assert_eq!(scanner.feed(&[1, 2]), Some(0));
}
