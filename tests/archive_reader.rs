use lszr::zip::{
    decode_file_name, extract_checked, load_file, parse_eocd, CDHeader, FileNameError, IoErrorKind, LoadFileError,
    ParseCDError, ParseEOCDError, CD_SIGNATURE, COMPRESSION_METHOD_DEFLATED,
    COMPRESSION_METHOD_STORED, EOCD_SIGNATURE, LFH_SIGNATURE,
};
use lszr::{LookupError, Range, LSZR};

const UTF8_FLAG: u16 = 1 << 11;
const DESCRIPTOR_FLAG: u16 = 1 << 3;
const HELLO_CRC: u32 = 0xF7D18982;

fn local_entry(name: &[u8], content: &[u8], crc: u32, method: u16, flag: u16) -> Vec<u8> {
    let descriptor = flag & DESCRIPTOR_FLAG != 0;
    let (h_crc, h_size) = if descriptor { (0u32, 0u32) } else { (crc, content.len() as u32) };
    let mut d = Vec::new();
    d.extend_from_slice(&LFH_SIGNATURE.to_le_bytes());
    d.extend_from_slice(&20u16.to_le_bytes());
    d.extend_from_slice(&flag.to_le_bytes());
    d.extend_from_slice(&method.to_le_bytes());
    d.extend_from_slice(&0u32.to_le_bytes());
    d.extend_from_slice(&h_crc.to_le_bytes());
    d.extend_from_slice(&h_size.to_le_bytes());
    d.extend_from_slice(&h_size.to_le_bytes());
    d.extend_from_slice(&(name.len() as u16).to_le_bytes());
    d.extend_from_slice(&0u16.to_le_bytes());
    d.extend_from_slice(name);
    d.extend_from_slice(content);
    if descriptor {
        d.extend_from_slice(&crc.to_le_bytes());
        d.extend_from_slice(&(content.len() as u32).to_le_bytes());
        d.extend_from_slice(&(content.len() as u32).to_le_bytes());
    }
    d
}

fn cd_entry(name: &[u8], offset: u32, size: u32, crc: u32, method: u16, flag: u16) -> Vec<u8> {
    let mut d = Vec::new();
    d.extend_from_slice(&CD_SIGNATURE.to_le_bytes());
    d.extend_from_slice(&20u16.to_le_bytes());
    d.extend_from_slice(&20u16.to_le_bytes());
    d.extend_from_slice(&flag.to_le_bytes());
    d.extend_from_slice(&method.to_le_bytes());
    d.extend_from_slice(&0u32.to_le_bytes());
    d.extend_from_slice(&crc.to_le_bytes());
    d.extend_from_slice(&size.to_le_bytes());
    d.extend_from_slice(&size.to_le_bytes());
    d.extend_from_slice(&(name.len() as u16).to_le_bytes());
    d.extend_from_slice(&[0u8; 12]);
    d.extend_from_slice(&offset.to_le_bytes());
    d.extend_from_slice(name);
    d
}

fn eocd(count: u16, cd_size: u32, cd_offset: u32, this_disk: u16, cd_disk: u16) -> Vec<u8> {
    let mut d = Vec::new();
    d.extend_from_slice(&EOCD_SIGNATURE.to_le_bytes());
    d.extend_from_slice(&this_disk.to_le_bytes());
    d.extend_from_slice(&cd_disk.to_le_bytes());
    d.extend_from_slice(&count.to_le_bytes());
    d.extend_from_slice(&count.to_le_bytes());
    d.extend_from_slice(&cd_size.to_le_bytes());
    d.extend_from_slice(&cd_offset.to_le_bytes());
    d.extend_from_slice(&0u16.to_le_bytes());
    d
}

/// A stored-method archive of `(name, content, crc, flag)` entries, whose
/// Central Directory lists them in the order given by `cd_order`.
fn archive(files: &[(&str, &[u8], u32, u16)], cd_order: &[usize]) -> Vec<u8> {
    let mut data = Vec::new();
    let mut offsets = Vec::new();
    for (name, content, crc, flag) in files {
        offsets.push(data.len() as u32);
        data.extend(local_entry(name.as_bytes(), content, *crc, COMPRESSION_METHOD_STORED, *flag));
    }
    let cd_offset = data.len() as u32;
    let mut cd = Vec::new();
    for &i in cd_order {
        let (name, content, crc, flag) = files[i];
        cd.extend(cd_entry(
            name.as_bytes(),
            offsets[i],
            content.len() as u32,
            crc,
            COMPRESSION_METHOD_STORED,
            flag,
        ));
    }
    let cd_size = cd.len() as u32;
    data.extend(cd);
    data.extend(eocd(cd_order.len() as u16, cd_size, cd_offset, 0, 0));
    data
}

fn slice(data: &[u8], r: Range, extra: u32) -> Vec<u8> {
    data[r.offset as usize..(r.offset + r.size + extra) as usize].to_vec()
}

fn open_and_list(data: &[u8]) -> (LSZR, Vec<String>) {
    let tail_start = data.len().saturating_sub(100);
    let mut a = LSZR::new(data[tail_start..].to_vec()).unwrap();
    let cd = slice(data, a.cd_range(), 0);
    let names = a.parse_cd(cd).unwrap();
    (a, names)
}

fn cdh(name: &str, flag: u16, size: u32, crc: u32, method: u16) -> CDHeader {
    CDHeader {
        signature: CD_SIGNATURE,
        version_made_by: 20,
        version_needed_to_extract: 20,
        general_purpose_bit_flag: flag,
        compression_method: method,
        last_mod_file_time: 0,
        last_mod_file_date: 0,
        crc32: crc,
        compressed_size: size,
        uncompressed_size: size,
        file_name_length: name.len() as u16,
        extra_field_length: 0,
        file_comment_length: 0,
        disk_number_start: 0,
        internal_file_attributes: 0,
        external_file_attributes: 0,
        relative_offset_of_local_header: 0,
        file_name: name.to_string(),
        extra_field: vec![],
        file_comment: vec![],
        is_utf8: flag & UTF8_FLAG != 0,
        is_encrypted: flag & 1 == 1,
    }
}

#[test]
fn stored_hello_end_to_end() {
    let data = archive(&[("test.txt", b"Hello", HELLO_CRC, UTF8_FLAG)], &[0]);
    let (mut a, names) = open_and_list(&data);
    assert_eq!(names, vec!["test.txt".to_string()]);
    let r = a.get_range("test.txt".to_string()).unwrap();
    assert_eq!(r, Range { offset: 0, size: 42 });
    let bytes = slice(&data, r, 1);
    assert_eq!(a.get_data("test.txt".to_string(), bytes).unwrap(), b"Hello");
}

#[test]
fn range_is_one_byte_short() {
    let data = archive(&[("test.txt", b"Hello", HELLO_CRC, UTF8_FLAG)], &[0]);
    let (mut a, _) = open_and_list(&data);
    let r = a.get_range("test.txt".to_string()).unwrap();
    let bytes = slice(&data, r, 0);
    assert_eq!(
        a.get_data("test.txt".to_string(), bytes),
        Err(LoadFileError::IOError(IoErrorKind::UnexpectedEof))
    );
}

#[test]
fn data_descriptor_end_to_end() {
    let flag = UTF8_FLAG | DESCRIPTOR_FLAG;
    let data = archive(&[("test.txt", b"Hello", HELLO_CRC, flag)], &[0]);
    let (mut a, _) = open_and_list(&data);
    let r = a.get_range("test.txt".to_string()).unwrap();
    assert_eq!(r, Range { offset: 0, size: 54 });
    let bytes = slice(&data, r, 1);
    assert_eq!(a.get_data("test.txt".to_string(), bytes).unwrap(), b"Hello");
}

#[test]
fn data_descriptor_with_wrong_crc_is_refused() {
    let flag = UTF8_FLAG | DESCRIPTOR_FLAG;
    let mut lfh = local_entry(b"test.txt", b"Hello", HELLO_CRC, COMPRESSION_METHOD_STORED, flag);
    let n = lfh.len();
    lfh[n - 12] ^= 1;
    let h = cdh("test.txt", flag, 5, HELLO_CRC, COMPRESSION_METHOD_STORED);
    assert_eq!(load_file(&lfh, &h), Err(LoadFileError::UnmatchHeader));
}

#[test]
fn eocd_and_cd_ranges_from_fields() {
    let a = LSZR::new(eocd(1, 46, 100, 0, 0)).unwrap();
    assert_eq!(a.eocd_range(), Range { offset: 0, size: 22 });
    assert_eq!(a.cd_range(), Range { offset: 100, size: 46 });
}

#[test]
fn eocd_offset_is_relative_to_the_tail() {
    let mut tail = vec![7u8; 9];
    tail.extend(eocd(1, 46, 100, 0, 0));
    let a = LSZR::new(tail).unwrap();
    assert_eq!(a.eocd_range(), Range { offset: 9, size: 22 });
}

#[test]
fn multi_disk_archives_are_refused() {
    assert!(matches!(LSZR::new(eocd(1, 46, 100, 1, 0)), Err(ParseEOCDError::DiskSplitNotSupported)));
    assert!(matches!(LSZR::new(eocd(1, 46, 100, 0, 2)), Err(ParseEOCDError::DiskSplitNotSupported)));
    assert!(matches!(LSZR::new(eocd(1, 46, 100, 0xFFFF, 0)), Err(ParseEOCDError::Zip64NotSupported)));
    assert!(matches!(LSZR::new(eocd(1, 46, 100, 0, 0xFFFF)), Err(ParseEOCDError::Zip64NotSupported)));
}

#[test]
fn open_refuses_short_input() {
    assert!(matches!(LSZR::new(vec![0u8; 21]), Err(ParseEOCDError::TooShortDataLength)));
}

#[test]
fn eocd_signature_not_found() {
    assert!(matches!(parse_eocd(&vec![0u8; 22]), Err(ParseEOCDError::InvalidSignature)));
}

#[test]
fn eocd_search_is_bounded_by_the_longest_comment() {
    let mut data = eocd(0, 0, 0, 0, 0);
    data[20] = 0xFF;
    data[21] = 0xFF;
    data.extend(vec![0u8; 65535]);
    let e = parse_eocd(&data).unwrap();
    assert_eq!(e.eocd_offset, 0);
    assert_eq!(e.eocd_size, 22 + 65535);
    assert_eq!(e.comment.len(), 65535);

    let mut further = eocd(0, 0, 0, 0, 0);
    further.extend(vec![0u8; 65536]);
    assert!(matches!(parse_eocd(&further), Err(ParseEOCDError::InvalidSignature)));
}

#[test]
fn eocd_comment_past_the_end() {
    let mut data = eocd(0, 0, 0, 0, 0);
    data[20] = 3;
    assert!(matches!(
        parse_eocd(&data),
        Err(ParseEOCDError::IOError(IoErrorKind::UnexpectedEof))
    ));
}

#[test]
fn absent_name_is_not_found() {
    let data = archive(&[("a.txt", b"Hello", HELLO_CRC, UTF8_FLAG)], &[0]);
    let mut fresh = LSZR::new(data[data.len() - 22..].to_vec()).unwrap();
    assert_eq!(fresh.get_range("a.txt".to_string()), Err(LookupError::NotFound));
    let (mut a, _) = open_and_list(&data);
    assert_eq!(a.get_range("b.txt".to_string()), Err(LookupError::NotFound));
    assert_eq!(a.get_data("b.txt".to_string(), data.clone()), Err(LoadFileError::NotFound));
}

#[test]
fn duplicate_names_resolve_to_the_last() {
    let data = archive(
        &[("a.txt", b"first", 1, UTF8_FLAG), ("a.txt", b"second", 2, UTF8_FLAG)],
        &[0, 1],
    );
    let (mut a, names) = open_and_list(&data);
    assert_eq!(names, vec!["a.txt".to_string(), "a.txt".to_string()]);
    let r = a.get_range("a.txt".to_string()).unwrap();
    assert_eq!(r.offset, 40);
    let bytes = slice(&data, r, 1);
    assert_eq!(a.get_data("a.txt".to_string(), bytes).unwrap(), b"second");
}

#[test]
fn names_in_cd_order_each_resolvable() {
    let files: [(&str, &[u8], u32, u16); 3] = [
        ("a", b"0123456789", 1, UTF8_FLAG),
        ("c", b"abc", 2, UTF8_FLAG),
        ("b", b"xy", 3, UTF8_FLAG),
    ];
    let data = archive(&files, &[2, 0, 1]);
    let (mut a, names) = open_and_list(&data);
    assert_eq!(names, vec!["b".to_string(), "a".to_string(), "c".to_string()]);
    assert_eq!(a.get_range("a".to_string()).unwrap(), Range { offset: 0, size: 40 });
    assert_eq!(a.get_range("c".to_string()).unwrap(), Range { offset: 41, size: 33 });
    assert_eq!(a.get_range("b".to_string()).unwrap(), Range { offset: 75, size: 32 });
    for (name, content, _, _) in files {
        let r = a.get_range(name.to_string()).unwrap();
        assert_eq!(a.get_data(name.to_string(), slice(&data, r, 1)).unwrap(), content);
    }
}

#[test]
fn parsing_twice_gives_the_same_index() {
    let files: [(&str, &[u8], u32, u16); 2] =
        [("x", b"12", 1, UTF8_FLAG), ("y", b"345", 2, UTF8_FLAG)];
    let data = archive(&files, &[1, 0]);
    let (mut a, first) = open_and_list(&data);
    let ranges: Vec<Range> =
        first.iter().map(|n| a.get_range(n.clone()).unwrap()).collect();
    let cd = slice(&data, a.cd_range(), 0);
    let second = a.parse_cd(cd).unwrap();
    assert_eq!(first, second);
    let again: Vec<Range> = second.iter().map(|n| a.get_range(n.clone()).unwrap()).collect();
    assert_eq!(ranges, again);
}

#[test]
fn failed_parse_keeps_the_index() {
    let data = archive(&[("a.txt", b"Hello", HELLO_CRC, UTF8_FLAG)], &[0]);
    let (mut a, _) = open_and_list(&data);
    let before = a.get_range("a.txt".to_string()).unwrap();
    let mut cd = slice(&data, a.cd_range(), 0);
    cd[0] = 0;
    assert_eq!(a.parse_cd(cd), Err(ParseCDError::InvalidSignature));
    assert_eq!(a.get_range("a.txt".to_string()).unwrap(), before);
}

#[test]
fn truncated_cd_is_an_io_error() {
    let data = archive(&[("a.txt", b"Hello", HELLO_CRC, UTF8_FLAG)], &[0]);
    let tail = data[data.len() - 22..].to_vec();
    let mut a = LSZR::new(tail).unwrap();
    let mut cd = slice(&data, a.cd_range(), 0);
    cd.pop();
    assert_eq!(a.parse_cd(cd), Err(ParseCDError::IOError(IoErrorKind::UnexpectedEof)));
}

#[test]
fn malformed_shift_jis_name_is_refused() {
    assert_eq!(decode_file_name(&vec![0x82], false), Err(FileNameError::FromSJISError));
    assert_eq!(decode_file_name(&vec![0x81, 0x20], false), Err(FileNameError::FromSJISError));
    let mut tail = cd_entry(&[0x81, 0x20], 0, 0, 0, COMPRESSION_METHOD_STORED, 0);
    let cd_size = tail.len() as u32;
    tail.extend(eocd(1, cd_size, 0, 0, 0));
    let mut a = LSZR::new(tail.clone()).unwrap();
    let cd = tail[..cd_size as usize].to_vec();
    assert_eq!(a.parse_cd(cd), Err(ParseCDError::FileNameConversionError));
}

#[test]
fn shift_jis_name_is_decoded() {
    let name = vec![0x83, 0x65, 0x83, 0x58, 0x83, 0x67, b'.', b't', b'x', b't'];
    assert_eq!(decode_file_name(&name, false).unwrap(), "テスト.txt");
}

#[test]
fn malformed_utf8_name_is_refused() {
    assert_eq!(decode_file_name(&vec![0xC0, 0x80], true), Err(FileNameError::FromUtf8Error));
    let lfh = local_entry(&[0xFF], b"x", 0, COMPRESSION_METHOD_STORED, UTF8_FLAG);
    let h = cdh("x", UTF8_FLAG, 1, 0, COMPRESSION_METHOD_STORED);
    assert_eq!(load_file(&lfh, &h), Err(LoadFileError::FileNameConversionError));
}

#[test]
fn encrypted_entry_is_refused() {
    let flag = UTF8_FLAG | 1;
    let lfh = local_entry(b"s.txt", b"Hello", HELLO_CRC, COMPRESSION_METHOD_STORED, flag);
    let h = cdh("s.txt", flag, 5, HELLO_CRC, COMPRESSION_METHOD_STORED);
    assert_eq!(load_file(&lfh, &h), Err(LoadFileError::Encrypted));
}

#[test]
fn header_mismatch_is_refused() {
    let lfh = local_entry(b"s.txt", b"Hello", HELLO_CRC, COMPRESSION_METHOD_STORED, UTF8_FLAG);
    let other_name = cdh("t.txt", UTF8_FLAG, 5, HELLO_CRC, COMPRESSION_METHOD_STORED);
    assert_eq!(load_file(&lfh, &other_name), Err(LoadFileError::UnmatchHeader));
    let other_size = cdh("s.txt", UTF8_FLAG, 4, HELLO_CRC, COMPRESSION_METHOD_STORED);
    assert_eq!(load_file(&lfh, &other_size), Err(LoadFileError::UnmatchHeader));
}

#[test]
fn truncated_local_entry_is_an_io_error() {
    let lfh = local_entry(b"s.txt", b"Hello", HELLO_CRC, COMPRESSION_METHOD_STORED, UTF8_FLAG);
    let h = cdh("s.txt", UTF8_FLAG, 5, HELLO_CRC, COMPRESSION_METHOD_STORED);
    assert_eq!(
        load_file(&lfh[..3].to_vec(), &h),
        Err(LoadFileError::IOError(IoErrorKind::UnexpectedEof))
    );
    assert_eq!(
        load_file(&lfh[..20].to_vec(), &h),
        Err(LoadFileError::IOError(IoErrorKind::UnexpectedEof))
    );
}

#[test]
fn corrupt_deflate_stream_is_an_io_error() {
    let stream = [0xFFu8, 0xFF, 0xFF];
    let lfh = local_entry(b"d", &stream, 9, COMPRESSION_METHOD_DEFLATED, UTF8_FLAG);
    let h = cdh("d", UTF8_FLAG, 3, 9, COMPRESSION_METHOD_DEFLATED);
    assert_eq!(load_file(&lfh, &h), Err(LoadFileError::IOError(IoErrorKind::InvalidData)));
}

#[test]
fn range_size_wraps_when_cd_precedes_the_entry() {
    let mut tail = cd_entry(b"z", 100, 0, 0, COMPRESSION_METHOD_STORED, UTF8_FLAG);
    let cd_size = tail.len() as u32;
    tail.extend(eocd(1, cd_size, 100, 0, 0));
    let mut a = LSZR::new(tail.clone()).unwrap();
    a.parse_cd(tail[..cd_size as usize].to_vec()).unwrap();
    assert_eq!(a.get_range("z".to_string()).unwrap(), Range { offset: 100, size: 0xFFFF_FFFF });
}

#[test]
fn extract_checked_compares_the_given_name() {
    let lfh = local_entry(b"s.txt", b"Hello", HELLO_CRC, COMPRESSION_METHOD_STORED, UTF8_FLAG);
    let h = cdh("s.txt", UTF8_FLAG, 5, HELLO_CRC, COMPRESSION_METHOD_STORED);
    assert_eq!(extract_checked(&lfh, &h, &"s.txt".to_string()).unwrap(), b"Hello");
    assert_eq!(
        extract_checked(&lfh, &h, &"t.txt".to_string()),
        Err(LoadFileError::UnmatchHeader)
    );
}
