use battle_data::container::{ContainerReader, ContainerWriter, SectionEntry, SectionTable};
use battle_data::error::PackError;

fn sample() -> Vec<u8> {
    vec![
        2, 0, 0, 0, // two sections
        20, 0, 0, 0, 2, 0, 0, 0, // section 0: offset 20, length 2
        22, 0, 0, 0, 1, 0, 0, 0, // section 1: offset 22, length 1
        1, 2, 3,
    ]
}

#[test]
fn writer_produces_the_documented_layout() {
    let mut writer = ContainerWriter::new(2).unwrap();
    writer.write_section(&[1, 2]).unwrap();
    writer.write_section(&[3]).unwrap();
    assert_eq!(writer.finish().unwrap(), sample());
}

#[test]
fn writer_with_no_sections_writes_only_the_count() {
    let writer = ContainerWriter::new(0).unwrap();
    assert_eq!(writer.finish().unwrap(), vec![0, 0, 0, 0]);
}

#[test]
fn offsets_are_little_endian_beyond_one_byte() {
    let mut writer = ContainerWriter::new(2).unwrap();
    writer.write_section(&vec![7u8; 300]).unwrap();
    writer.write_section(&[9]).unwrap();
    let bytes = writer.finish().unwrap();
    // section 0: offset 20, length 300 = 0x012C
    assert_eq!(&bytes[4..12], &[20, 0, 0, 0, 0x2C, 0x01, 0, 0]);
    // section 1: offset 320 = 0x0140, length 1
    assert_eq!(&bytes[12..20], &[0x40, 0x01, 0, 0, 1, 0, 0, 0]);
    assert_eq!(bytes.len(), 20 + 301);
}

#[test]
fn writer_refuses_a_section_too_many() {
    let mut writer = ContainerWriter::new(1).unwrap();
    assert_eq!(writer.write_section(&[1]), Ok(()));
    assert_eq!(writer.write_section(&[2]), Err(PackError::ContractViolation));
    // the refused section left no trace
    assert_eq!(
        writer.finish().unwrap(),
        vec![1, 0, 0, 0, 12, 0, 0, 0, 1, 0, 0, 0, 1]
    );
}

#[test]
fn writer_refuses_to_finish_early() {
    let mut writer = ContainerWriter::new(3).unwrap();
    writer.write_section(&[1]).unwrap();
    assert_eq!(writer.finish(), Err(PackError::ContractViolation));
}

#[test]
fn writer_refuses_a_table_beyond_32_bits() {
    assert!(matches!(
        ContainerWriter::new(0x2000_0000),
        Err(PackError::Format)
    ));
    assert!(ContainerWriter::new(0x1FFF_FFFF).is_ok());
}

#[test]
fn reader_reports_count_and_sections() {
    let reader = ContainerReader::new(sample()).unwrap();
    assert_eq!(reader.section_count(), 2);
    let mut sink = Vec::new();
    assert_eq!(reader.extract_section(0, &mut sink), Ok(2));
    assert_eq!(sink, vec![1, 2]);
    assert_eq!(reader.extract_section(1, &mut sink), Ok(1));
    assert_eq!(sink, vec![1, 2, 3]);
}

#[test]
fn sections_can_be_extracted_in_any_order_and_again() {
    let reader = ContainerReader::new(sample()).unwrap();
    let mut first = Vec::new();
    reader.extract_section(1, &mut first).unwrap();
    reader.extract_section(0, &mut first).unwrap();
    reader.extract_section(1, &mut first).unwrap();
    assert_eq!(first, vec![3, 1, 2, 3]);
}

#[test]
fn index_out_of_range_is_an_error_and_writes_nothing() {
    let reader = ContainerReader::new(sample()).unwrap();
    let mut sink = vec![42];
    assert_eq!(reader.extract_section(2, &mut sink), Err(PackError::Format));
    assert_eq!(reader.extract_section(usize::MAX, &mut sink), Err(PackError::Format));
    assert_eq!(sink, vec![42]);
}

#[test]
fn round_trip_through_writer_and_reader() {
    let sections: Vec<Vec<u8>> = vec![
        vec![],
        (0..=255).collect(),
        vec![0xFF; 1000],
        vec![],
        vec![1],
    ];
    let mut writer = ContainerWriter::new(sections.len()).unwrap();
    for section in &sections {
        writer.write_section(section).unwrap();
    }
    let reader = ContainerReader::new(writer.finish().unwrap()).unwrap();
    assert_eq!(reader.section_count(), sections.len());
    for (i, section) in sections.iter().enumerate() {
        let mut sink = Vec::new();
        assert_eq!(reader.extract_section(i, &mut sink), Ok(section.len()));
        assert_eq!(&sink, section);
    }
}

#[test]
fn truncated_header_is_a_format_error() {
    for len in 0..4 {
        assert!(matches!(
            ContainerReader::new(vec![0; len]),
            Err(PackError::Format)
        ));
    }
}

#[test]
fn truncated_table_is_a_format_error() {
    let mut data = sample();
    data.truncate(19);
    assert!(matches!(ContainerReader::new(data), Err(PackError::Format)));
}

#[test]
fn truncated_section_is_a_format_error() {
    let mut data = sample();
    data.truncate(22);
    assert!(matches!(ContainerReader::new(data), Err(PackError::Format)));
}

#[test]
fn section_inside_the_table_is_a_format_error() {
    let mut data = sample();
    data[4] = 19;
    assert!(matches!(ContainerReader::new(data), Err(PackError::Format)));
}

#[test]
fn overlapping_sections_are_a_format_error() {
    let mut data = sample();
    data[12] = 21;
    assert!(matches!(ContainerReader::new(data), Err(PackError::Format)));
}

#[test]
fn gaps_and_trailing_bytes_are_accepted() {
    let data = vec![
        1, 0, 0, 0, //
        14, 0, 0, 0, 2, 0, 0, 0, //
        0xAA, 0xBB, 5, 6, 0xCC,
    ];
    let reader = ContainerReader::new(data).unwrap();
    let mut sink = Vec::new();
    assert_eq!(reader.extract_section(0, &mut sink), Ok(2));
    assert_eq!(sink, vec![5, 6]);
}

#[test]
fn table_gives_each_entry() {
    let table = SectionTable::parse(&sample()).unwrap();
    assert_eq!(table.section_count(), 2);
    assert_eq!(table.entry(0), Some(SectionEntry { offset: 20, length: 2 }));
    assert_eq!(table.entry(1), Some(SectionEntry { offset: 22, length: 1 }));
    assert_eq!(table.entry(2), None);
}

#[test]
fn table_reads_four_byte_fields() {
    let mut data = vec![1, 0, 0, 0, 0x0C, 0, 0, 0, 0x00, 0x01, 0, 0];
    data.extend(vec![0u8; 256]);
    let table = SectionTable::parse(&data).unwrap();
    assert_eq!(table.entry(0), Some(SectionEntry { offset: 12, length: 256 }));
    // a length whose high byte is set reaches beyond the file
    data[11] = 1;
    assert!(matches!(SectionTable::parse(&data), Err(PackError::Format)));
}
