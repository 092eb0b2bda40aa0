use rustruct::mappedvfile::{FileRanges, Mapper, ReadStep};
use rustruct::memoryvfile::MemoryVFileBuilder;
use rustruct::vfile::{SeekFrom, VFile, VFileBuilder, read_utf16_exact, read_utf16_list, utf16le_list, utf16le_to_string};
use rustruct::zerovfile::ZeroVFileBuilder;

#[test]
fn memory_vfile_read_and_seek() {
    let builder = MemoryVFileBuilder::new(vec![10, 11, 12, 13, 14]);
    assert!(builder.size() == 5);
    let mut file = builder.open().unwrap();
    assert!(file.read_exact(2).unwrap() == vec![10, 11]);
    assert!(file.tell().unwrap() == 2);
    assert!(file.seek(SeekFrom::End(-1)).unwrap() == 4);
    assert!(file.read_exact(1).unwrap() == vec![14]);
    assert!(file.read_exact(1).is_err());
    assert!(file.seek(SeekFrom::Start(1)).unwrap() == 1);
    assert!(file.seek(SeekFrom::Current(2)).unwrap() == 3);
    assert!(file.seek(SeekFrom::Current(-4)).is_err());
    assert!(file.read_exact(2).unwrap() == vec![13, 14]);
}

#[test]
fn memory_vfile_remaining_slice() {
    let builder = MemoryVFileBuilder::new(vec![1, 2, 3]);
    let mut file = builder.open().unwrap();
    assert!(file.remaining_slice() == [1, 2, 3]);
    file.read_exact(2).unwrap();
    assert!(file.remaining_slice() == [3]);
    file.seek(SeekFrom::Start(100)).unwrap();
    assert!(file.remaining_slice().is_empty());
}

#[test]
fn zero_vfile_reads_zeros_forever() {
    let builder = ZeroVFileBuilder {};
    assert!(builder.size() == u64::MAX);
    let mut file = builder.open().unwrap();
    assert!(file.read_exact(4).unwrap() == vec![0, 0, 0, 0]);
    assert!(file.seek(SeekFrom::Start(1000000)).unwrap() == 1000000);
    assert!(file.read_exact(2).unwrap() == vec![0, 0]);
    assert!(file.seek(SeekFrom::End(0)).is_err());
}

#[test]
fn utf16_reading() {
    // "AB" as UTF-16LE, then a terminator, then noise
    let data = vec![0x41, 0x00, 0x42, 0x00, 0x00, 0x00, 0x43, 0x00];
    assert!(utf16le_to_string(&data).unwrap() == "AB");

    let builder = MemoryVFileBuilder::new(data);
    let mut file = builder.open().unwrap();
    assert!(read_utf16_exact(&mut file, 8).unwrap() == "AB");

    // a surrogate pair decodes to one character
    let grin = vec![0x3D, 0xD8, 0x00, 0xDE];
    assert!(utf16le_to_string(&grin).unwrap() == "\u{1F600}");

    // an unpaired surrogate is rejected
    let lone = vec![0x3D, 0xD8, 0x41, 0x00];
    assert!(utf16le_to_string(&lone).is_err());
}

#[test]
fn utf16_list_reading() {
    // "A", "BC", then an unterminated "D" that is dropped
    let data = vec![
        0x41, 0x00, 0x00, 0x00, 0x42, 0x00, 0x43, 0x00, 0x00, 0x00, 0x44, 0x00,
    ];
    let list = utf16le_list(&data).unwrap();
    assert!(list == vec![String::from("A"), String::from("BC")]);

    let builder = MemoryVFileBuilder::new(data);
    let mut file = builder.open().unwrap();
    let read = read_utf16_list(&mut file, 12).unwrap();
    assert!(read == vec![String::from("A"), String::from("BC")]);
}

#[test]
fn mapper_plans_reads() {
    let mut ranges = FileRanges::new();
    ranges.push(0..4, 100);
    ranges.push(4..10, 0);
    let mapper = Mapper::new(ranges).unwrap();
    assert!(mapper.size() == 10);

    // inside the first chunk, shifted by two
    let step = mapper.plan_read(2, 8).unwrap();
    assert!(step == ReadStep::Read { source_id: 0, source_offset: 102, count: 2 });
    // inside the second chunk, capped by what is wanted
    let step = mapper.plan_read(4, 3).unwrap();
    assert!(step == ReadStep::Read { source_id: 1, source_offset: 0, count: 3 });
    // past every chunk
    assert!(mapper.plan_read(10, 1).unwrap() == ReadStep::End);
}

#[test]
fn mapper_rejects_overlap() {
    let mut ranges = FileRanges::new();
    ranges.push(0..4, 0);
    ranges.push(2..6, 0);
    let mapper = Mapper::new(ranges).unwrap();
    assert!(mapper.plan_read(3, 1).is_err());
    assert!(mapper.plan_read(1, 1).is_ok());
}

#[test]
fn decimal_rendering() {
    assert!(rustruct::text::u64_string(0) == "0");
    assert!(rustruct::text::u64_string(12345) == "12345");
    assert!(rustruct::text::u64_string(u64::MAX) == "18446744073709551615");
    assert!(rustruct::text::i64_string(-42) == "-42");
    assert!(rustruct::text::i64_string(i64::MIN) == "-9223372036854775808");
}
