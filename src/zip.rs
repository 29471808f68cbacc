//! The ZIP records this reader understands: the End-Of-Central-Directory
//! record, Central Directory headers and Local File Headers.
use vstd::prelude::*;

use crate::bytes::{copy_range, le16, le32, read_u16, read_u32};
use crate::codec::{decoded_name, inflate, inflated, shift_jis_string, utf8_string};

verus! {

/// The End-Of-Central-Directory record, with its own place in the buffer it
/// was read from.
#[derive(Debug)]
pub struct EOCD {
    pub signature: u32,
    pub number_of_this_disk: u16,
    pub number_of_disk_start_eocd: u16,
    pub total_number_of_entries_on_disk: u16,
    pub total_number_of_entries_in_cd: u16,
    pub cd_size: u32,
    pub cd_offset: u32,
    pub comment: Vec<u8>,
    pub eocd_offset: u32,
    pub eocd_size: u32,
}

/// One Central Directory header: the metadata of one archive member.
#[derive(Debug)]
pub struct CDHeader {
    pub signature: u32,
    pub version_made_by: u16,
    pub version_needed_to_extract: u16,
    pub general_purpose_bit_flag: u16,
    pub compression_method: u16,
    pub last_mod_file_time: u16,
    pub last_mod_file_date: u16,
    pub crc32: u32,
    pub compressed_size: u32,
    pub uncompressed_size: u32,
    pub file_name_length: u16,
    pub extra_field_length: u16,
    pub file_comment_length: u16,
    pub disk_number_start: u16,
    pub internal_file_attributes: u16,
    pub external_file_attributes: u32,
    pub relative_offset_of_local_header: u32,
    pub file_name: String,
    pub extra_field: Vec<u8>,
    pub file_comment: Vec<u8>,
    pub is_utf8: bool,
    pub is_encrypted: bool,
}

pub const LFH_SIGNATURE: u32 = 0x04034b50;

pub const CD_SIGNATURE: u32 = 0x02014b50;

pub const EOCD_SIGNATURE: u32 = 0x06054b50;

pub const COMPRESSION_METHOD_STORED: u16 = 0;

pub const COMPRESSION_METHOD_DEFLATED: u16 = 8;

/// Size of an EOCD record without its comment.
pub const EOCD_MIN_SIZE: usize = 22;

/// The longest comment an EOCD record can carry.
pub const MAX_COMMENT_LENGTH: usize = 65535;

/// Size of the fixed part of a Central Directory header.
pub const CD_HEADER_SIZE: usize = 46;

/// Size of the fixed part of a Local File Header.
pub const LFH_SIZE: usize = 30;

/// The bounds faults that reading a record can meet.
#[derive(Debug, Clone, Copy, PartialEq, Eq, Structural)]
pub enum IoErrorKind {
    /// A field or block reaches past the end of the supplied bytes.
    UnexpectedEof,
    /// The DEFLATE stream of an entry is corrupt or truncated.
    InvalidData,
}

#[derive(Debug, Clone, Copy, PartialEq, Eq, Structural)]
pub enum ParseEOCDError {
    TooShortDataLength,
    /// No EOCD signature within the longest possible comment of the tail.
    InvalidSignature,
    /// The archive spans several disks.
    DiskSplitNotSupported,
    /// A disk number of `0xFFFF` marks a ZIP64 archive.
    Zip64NotSupported,
    IOError(IoErrorKind),
}

#[derive(Debug, Clone, Copy, PartialEq, Eq, Structural)]
pub enum ParseCDError {
    InvalidSignature,
    FileNameConversionError,
    IOError(IoErrorKind),
}

#[derive(Debug, Clone, Copy, PartialEq, Eq, Structural)]
pub enum LoadFileError {
    InvalidSignature,
    FileNameConversionError,
    /// The Local File Header is missing or disagrees with the Central Directory.
    UnmatchHeader,
    UnsupportedCompressionMethod(u16),
    /// The entry is encrypted; it is not decrypted here.
    Encrypted,
    /// No entry of the archive has that name.
    NotFound,
    IOError(IoErrorKind),
}

#[derive(Debug, Clone, Copy, PartialEq, Eq, Structural)]
pub enum FileNameError {
    FromUtf8Error,
    FromSJISError,
}

/// Decodes a raw file name: strict UTF-8 when `is_utf8`, strict Shift-JIS
/// otherwise. Nothing is ever replaced: malformed bytes are an error.
pub fn decode_file_name(buf: &Vec<u8>, is_utf8: bool) -> (r: Result<String, FileNameError>)
    ensures
        match r {
            Ok(s) => decoded_name(buf@, is_utf8) == Some(s@),
            Err(e) => decoded_name(buf@, is_utf8) is None && e == (if is_utf8 {
                FileNameError::FromUtf8Error
            } else {
                FileNameError::FromSJISError
            }),
        },
{
    if is_utf8 {
        match utf8_string(buf) {
            Some(s) => Ok(s),
            None => Err(FileNameError::FromUtf8Error),
        }
    } else {
        match shift_jis_string(buf) {
            Some(s) => Ok(s),
            None => Err(FileNameError::FromSJISError),
        }
    }
}

/// The lowest position at which the EOCD search looks, in a buffer of `len`
/// bytes: the longest possible comment below the last possible start.
pub open spec fn eocd_search_floor(len: int) -> int {
    if len - 22 > 65535 {
        len - 22 - 65535
    } else {
        0
    }
}

/// The highest position in `floor ..= pos` that holds the EOCD signature, or
/// -1 where none does.
pub open spec fn last_eocd_signature(b: Seq<u8>, pos: int, floor: int) -> int
    decreases pos - floor + 1,
{
    if pos < floor {
        -1
    } else if le32(b, pos) == EOCD_SIGNATURE {
        pos
    } else {
        last_eocd_signature(b, pos - 1, floor)
    }
}

/// Where the EOCD record of the tail `b` starts (-1: nowhere).
pub open spec fn eocd_position(b: Seq<u8>) -> int {
    last_eocd_signature(b, b.len() - 22, eocd_search_floor(b.len() as int))
}

/// Why the EOCD record cannot be read from `b`, or `None` where it can.
pub open spec fn eocd_error(b: Seq<u8>) -> Option<ParseEOCDError> {
    let pos = eocd_position(b);
    if b.len() < 22 {
        Some(ParseEOCDError::TooShortDataLength)
    } else if pos < 0 {
        Some(ParseEOCDError::InvalidSignature)
    } else if pos + 22 + le16(b, pos + 20) > b.len() {
        Some(ParseEOCDError::IOError(IoErrorKind::UnexpectedEof))
    } else {
        None
    }
}

/// `e` holds the fields of the EOCD record that starts at `eocd_position(b)`.
pub open spec fn eocd_read_from(e: EOCD, b: Seq<u8>) -> bool {
    let pos = eocd_position(b);
    let comment_length = le16(b, pos + 20);
    &&& e.signature == EOCD_SIGNATURE
    &&& e.number_of_this_disk == le16(b, pos + 4)
    &&& e.number_of_disk_start_eocd == le16(b, pos + 6)
    &&& e.total_number_of_entries_on_disk == le16(b, pos + 8)
    &&& e.total_number_of_entries_in_cd == le16(b, pos + 10)
    &&& e.cd_size == le32(b, pos + 12)
    &&& e.cd_offset == le32(b, pos + 16)
    &&& e.comment@ == b.subrange(pos + 22, pos + 22 + comment_length)
    &&& e.eocd_offset == pos as u32
    &&& e.eocd_size == 22 + comment_length
}

/// Locates and reads the EOCD record in `data`, which must end where the
/// archive ends. The search goes back one byte at a time from the last
/// possible start, and never further than the longest possible comment.
pub fn parse_eocd(data: &Vec<u8>) -> (r: Result<EOCD, ParseEOCDError>)
    ensures
        match r {
            Ok(e) => eocd_error(data@) is None && eocd_read_from(e, data@),
            Err(err) => eocd_error(data@) == Some(err),
        },
{
    let length = data.len();
    if length < EOCD_MIN_SIZE {
        return Err(ParseEOCDError::TooShortDataLength);
    }
    let top = length - EOCD_MIN_SIZE;
    let floor = if top > MAX_COMMENT_LENGTH {
        top - MAX_COMMENT_LENGTH
    } else {
        0
    };
    let mut pos = top;
    loop
        invariant
            floor <= pos <= top,
            top + 22 == length == data@.len(),
            floor == eocd_search_floor(length as int),
            eocd_position(data@) == last_eocd_signature(data@, pos as int, floor as int),
        ensures
            le32(data@, pos as int) == EOCD_SIGNATURE,
        decreases pos,
    {
        if read_u32(data, pos) == EOCD_SIGNATURE {
            break;
        }
        if pos == floor {
            assert(last_eocd_signature(data@, pos - 1, floor as int) == -1);
            return Err(ParseEOCDError::InvalidSignature);
        }
        pos = pos - 1;
    }
    let comment_length = read_u16(data, pos + 20);
    if comment_length as usize > length - pos - 22 {
        return Err(ParseEOCDError::IOError(IoErrorKind::UnexpectedEof));
    }
    let comment = copy_range(data, pos + 22, comment_length as usize);
    Ok(EOCD {
        signature: EOCD_SIGNATURE,
        number_of_this_disk: read_u16(data, pos + 4),
        number_of_disk_start_eocd: read_u16(data, pos + 6),
        total_number_of_entries_on_disk: read_u16(data, pos + 8),
        total_number_of_entries_in_cd: read_u16(data, pos + 10),
        cd_size: read_u32(data, pos + 12),
        cd_offset: read_u32(data, pos + 16),
        comment,
        eocd_offset: #[verifier::truncate] (pos as u32),
        eocd_size: 22 + comment_length as u32,
    })
}

/// Where the Central Directory header that starts at `p` ends: after its fixed
/// part, its file name, its extra field and its comment.
pub open spec fn cd_header_end(b: Seq<u8>, p: int) -> int {
    p + 46 + le16(b, p + 28) + le16(b, p + 30) + le16(b, p + 32)
}

/// Where the `k`-th header of the Central Directory `b` starts.
pub open spec fn cd_header_start(b: Seq<u8>, k: nat) -> int
    decreases k,
{
    if k == 0 {
        0
    } else {
        cd_header_end(b, cd_header_start(b, (k - 1) as nat))
    }
}

/// The raw file name of the Central Directory header at `p`.
pub open spec fn cd_name_bytes(b: Seq<u8>, p: int) -> Seq<u8> {
    b.subrange(p + 46, p + 46 + le16(b, p + 28))
}

/// Why the Central Directory header at `p` cannot be read, or `None`.
pub open spec fn cd_header_error(b: Seq<u8>, p: int) -> Option<ParseCDError> {
    if p + 4 > b.len() {
        Some(ParseCDError::IOError(IoErrorKind::UnexpectedEof))
    } else if le32(b, p) != CD_SIGNATURE {
        Some(ParseCDError::InvalidSignature)
    } else if cd_header_end(b, p) > b.len() {
        Some(ParseCDError::IOError(IoErrorKind::UnexpectedEof))
    } else if decoded_name(cd_name_bytes(b, p), le16(b, p + 8) & 0x800 != 0) is None {
        Some(ParseCDError::FileNameConversionError)
    } else {
        None
    }
}

/// Why `remaining` consecutive headers from `p` on cannot be read, or `None`.
pub open spec fn cd_error_from(b: Seq<u8>, p: int, remaining: nat) -> Option<ParseCDError>
    decreases remaining,
{
    if remaining == 0 {
        None
    } else if cd_header_error(b, p) is Some {
        cd_header_error(b, p)
    } else {
        cd_error_from(b, cd_header_end(b, p), (remaining - 1) as nat)
    }
}

/// Why a Central Directory `b` of `count` headers cannot be read, or `None`.
pub open spec fn cd_error(b: Seq<u8>, count: nat) -> Option<ParseCDError> {
    cd_error_from(b, 0, count)
}

/// `h` holds the fields of the Central Directory header that starts at `p`.
pub open spec fn cd_header_read_at(h: CDHeader, b: Seq<u8>, p: int) -> bool {
    let name_length = le16(b, p + 28);
    let extra_length = le16(b, p + 30);
    let comment_length = le16(b, p + 32);
    let extra_start = p + 46 + name_length;
    let comment_start = extra_start + extra_length;
    let flag = le16(b, p + 8);
    &&& h.signature == CD_SIGNATURE
    &&& h.version_made_by == le16(b, p + 4)
    &&& h.version_needed_to_extract == le16(b, p + 6)
    &&& h.general_purpose_bit_flag == flag
    &&& h.compression_method == le16(b, p + 10)
    &&& h.last_mod_file_time == le16(b, p + 12)
    &&& h.last_mod_file_date == le16(b, p + 14)
    &&& h.crc32 == le32(b, p + 16)
    &&& h.compressed_size == le32(b, p + 20)
    &&& h.uncompressed_size == le32(b, p + 24)
    &&& h.file_name_length == name_length
    &&& h.extra_field_length == extra_length
    &&& h.file_comment_length == comment_length
    &&& h.disk_number_start == le16(b, p + 34)
    &&& h.internal_file_attributes == le16(b, p + 36)
    &&& h.external_file_attributes == le32(b, p + 38)
    &&& h.relative_offset_of_local_header == le32(b, p + 42)
    &&& h.is_utf8 == (flag & 0x800 != 0)
    &&& h.is_encrypted == (flag & 1 == 1)
    &&& Some(h.file_name@) == decoded_name(cd_name_bytes(b, p), h.is_utf8)
    &&& h.extra_field@ == b.subrange(extra_start, comment_start)
    &&& h.file_comment@ == b.subrange(comment_start, comment_start + comment_length)
}

/// Reads the Central Directory header that starts at `p`.
fn read_cd_header(data: &Vec<u8>, p: usize) -> (r: Result<CDHeader, ParseCDError>)
    requires
        p <= data.len(),
    ensures
        match r {
            Ok(h) => cd_header_error(data@, p as int) is None && cd_header_read_at(h, data@, p as int),
            Err(e) => cd_header_error(data@, p as int) == Some(e),
        },
{
    let length = data.len();
    if length - p < 4 {
        return Err(ParseCDError::IOError(IoErrorKind::UnexpectedEof));
    }
    let signature = read_u32(data, p);
    if signature != CD_SIGNATURE {
        return Err(ParseCDError::InvalidSignature);
    }
    if length - p < CD_HEADER_SIZE {
        return Err(ParseCDError::IOError(IoErrorKind::UnexpectedEof));
    }
    let file_name_length = read_u16(data, p + 28);
    let extra_field_length = read_u16(data, p + 30);
    let file_comment_length = read_u16(data, p + 32);
    let blocks = file_name_length as usize + extra_field_length as usize
        + file_comment_length as usize;
    if length - p - CD_HEADER_SIZE < blocks {
        return Err(ParseCDError::IOError(IoErrorKind::UnexpectedEof));
    }
    let name_start = p + CD_HEADER_SIZE;
    let extra_start = name_start + file_name_length as usize;
    let comment_start = extra_start + extra_field_length as usize;
    let file_name_bytes = copy_range(data, name_start, file_name_length as usize);
    let extra_field = copy_range(data, extra_start, extra_field_length as usize);
    let file_comment = copy_range(data, comment_start, file_comment_length as usize);
    let general_purpose_bit_flag = read_u16(data, p + 8);
    let is_utf8 = general_purpose_bit_flag & 0x800 != 0;
    let is_encrypted = general_purpose_bit_flag & 1 == 1;
    let file_name = match decode_file_name(&file_name_bytes, is_utf8) {
        Ok(s) => s,
        Err(_) => {
            return Err(ParseCDError::FileNameConversionError);
        },
    };
    Ok(CDHeader {
        signature,
        version_made_by: read_u16(data, p + 4),
        version_needed_to_extract: read_u16(data, p + 6),
        general_purpose_bit_flag,
        compression_method: read_u16(data, p + 10),
        last_mod_file_time: read_u16(data, p + 12),
        last_mod_file_date: read_u16(data, p + 14),
        crc32: read_u32(data, p + 16),
        compressed_size: read_u32(data, p + 20),
        uncompressed_size: read_u32(data, p + 24),
        file_name_length,
        extra_field_length,
        file_comment_length,
        disk_number_start: read_u16(data, p + 34),
        internal_file_attributes: read_u16(data, p + 36),
        external_file_attributes: read_u32(data, p + 38),
        relative_offset_of_local_header: read_u32(data, p + 42),
        file_name,
        extra_field,
        file_comment,
        is_utf8,
        is_encrypted,
    })
}

/// Reads `count` consecutive Central Directory headers from `data`, in the
/// order they are stored. The first header that cannot be read fails the
/// whole parse.
pub fn parse_cd(data: &Vec<u8>, count: usize) -> (r: Result<Vec<CDHeader>, ParseCDError>)
    ensures
        match r {
            Ok(v) => {
                &&& cd_error(data@, count as nat) is None
                &&& v.len() == count
                &&& forall|k: int|
                    0 <= k < count ==> cd_header_read_at(
                        #[trigger] v@[k],
                        data@,
                        cd_header_start(data@, k as nat),
                    )
            },
            Err(e) => cd_error(data@, count as nat) == Some(e),
        },
{
    let mut cdhs: Vec<CDHeader> = Vec::with_capacity(count);
    let mut p: usize = 0;
    while cdhs.len() < count
        invariant
            cdhs.len() <= count,
            p <= data.len(),
            p == cd_header_start(data@, cdhs.len() as nat),
            cd_error(data@, count as nat) == cd_error_from(
                data@,
                p as int,
                (count - cdhs.len()) as nat,
            ),
            forall|k: int|
                0 <= k < cdhs.len() ==> cd_header_read_at(
                    #[trigger] cdhs@[k],
                    data@,
                    cd_header_start(data@, k as nat),
                ),
        decreases count - cdhs.len(),
    {
        let h = match read_cd_header(data, p) {
            Ok(h) => h,
            Err(e) => {
                return Err(e);
            },
        };
        let ghost k = cdhs.len() as nat;
        p = p + CD_HEADER_SIZE + h.file_name_length as usize + h.extra_field_length as usize
            + h.file_comment_length as usize;
        cdhs.push(h);
        assert(cd_header_start(data@, k + 1) == p);
    }
    Ok(cdhs)
}

/// Where the (possibly compressed) data of the local entry `b` starts: after
/// the fixed Local File Header, the file name and the extra field.
pub open spec fn local_data_start(b: Seq<u8>) -> int {
    30 + le16(b, 26) + le16(b, 28)
}

/// Whether the Local File Header at the start of `b` says that a data
/// descriptor follows the data (general-purpose flag bit 3).
pub open spec fn has_data_descriptor(b: Seq<u8>) -> bool {
    le16(b, 6) & 8 != 0
}

/// The CRC-32 that the local entry `b` declares: from its header, or from the
/// data descriptor that ends `b`.
pub open spec fn local_crc32(b: Seq<u8>) -> u32 {
    if has_data_descriptor(b) {
        le32(b, b.len() - 12)
    } else {
        le32(b, 14)
    }
}

/// The compressed size that the local entry `b` declares.
pub open spec fn local_compressed_size(b: Seq<u8>) -> u32 {
    if has_data_descriptor(b) {
        le32(b, b.len() - 8)
    } else {
        le32(b, 18)
    }
}

/// The uncompressed size that the local entry `b` declares.
pub open spec fn local_uncompressed_size(b: Seq<u8>) -> u32 {
    if has_data_descriptor(b) {
        le32(b, b.len() - 4)
    } else {
        le32(b, 22)
    }
}

/// The file name that the Local File Header of `b` holds, decoded.
pub open spec fn local_name(b: Seq<u8>) -> Option<Seq<char>> {
    decoded_name(b.subrange(30, 30 + le16(b, 26)), le16(b, 6) & 0x800 != 0)
}

/// Whether the Local File Header of `b`, whose file name decodes to `name`,
/// agrees with the Central Directory header `cdh` on name, CRC-32,
/// encryption and both sizes.
pub open spec fn local_header_agrees(b: Seq<u8>, cdh: CDHeader, name: Seq<char>) -> bool {
    &&& name == cdh.file_name@
    &&& local_crc32(b) == cdh.crc32
    &&& (le16(b, 6) & 1 == 1) == cdh.is_encrypted
    &&& local_compressed_size(b) == cdh.compressed_size
    &&& local_uncompressed_size(b) == cdh.uncompressed_size
}

/// What extracting the local entry `b`, whose file name decodes to `name`,
/// gives once its header has been read: its decompressed bytes, or the first
/// error met.
pub open spec fn extract_outcome(b: Seq<u8>, cdh: CDHeader, name: Seq<char>) -> Result<
    Seq<u8>,
    LoadFileError,
> {
    let method = le16(b, 8);
    let start = local_data_start(b);
    let data = b.subrange(start, start + local_compressed_size(b));
    if !local_header_agrees(b, cdh, name) {
        Err(LoadFileError::UnmatchHeader)
    } else if cdh.is_encrypted {
        Err(LoadFileError::Encrypted)
    } else if start + local_compressed_size(b) > b.len() {
        Err(LoadFileError::IOError(IoErrorKind::UnexpectedEof))
    } else if method == COMPRESSION_METHOD_STORED {
        Ok(data)
    } else if method == COMPRESSION_METHOD_DEFLATED {
        match inflated(data) {
            Some(v) => Ok(v),
            None => Err(LoadFileError::IOError(IoErrorKind::InvalidData)),
        }
    } else {
        Err(LoadFileError::UnsupportedCompressionMethod(method))
    }
}

/// What extracting the local entry `b` described by `cdh` gives: its
/// decompressed bytes, or the first error met.
pub open spec fn load_outcome(b: Seq<u8>, cdh: CDHeader) -> Result<Seq<u8>, LoadFileError> {
    if b.len() < 4 {
        Err(LoadFileError::IOError(IoErrorKind::UnexpectedEof))
    } else if le32(b, 0) != LFH_SIGNATURE {
        Err(LoadFileError::UnmatchHeader)
    } else if b.len() < 30 + le16(b, 26) {
        Err(LoadFileError::IOError(IoErrorKind::UnexpectedEof))
    } else if local_name(b) is None {
        Err(LoadFileError::FileNameConversionError)
    } else {
        extract_outcome(b, cdh, local_name(b)->Some_0)
    }
}

/// Checks the Local File Header at the start of `data`, whose file name has
/// been decoded to `file_name`, against the Central Directory header `cdh`,
/// then returns the entry's data, decompressed. Where flag bit 3 is set the
/// CRC-32 and sizes come from the data descriptor in the last 12 bytes.
pub fn extract_checked(data: &Vec<u8>, cdh: &CDHeader, file_name: &String) -> (r: Result<
    Vec<u8>,
    LoadFileError,
>)
    requires
        LFH_SIZE <= data.len(),
    ensures
        match r {
            Ok(v) => extract_outcome(data@, *cdh, file_name@) == Ok::<Seq<u8>, LoadFileError>(v@),
            Err(e) => extract_outcome(data@, *cdh, file_name@) == Err::<Seq<u8>, LoadFileError>(e),
        },
{
    let length = data.len();
    let general_purpose_bit_flag = read_u16(data, 6);
    let compression_method = read_u16(data, 8);
    let file_name_length = read_u16(data, 26) as usize;
    let extra_field_length = read_u16(data, 28) as usize;
    let is_encrypted = general_purpose_bit_flag & 1 == 1;
    let use_fd = general_purpose_bit_flag & 8 != 0;
    let (crc32, compressed_size, uncompressed_size) = if use_fd {
        (read_u32(data, length - 12), read_u32(data, length - 8), read_u32(data, length - 4))
    } else {
        (read_u32(data, 14), read_u32(data, 18), read_u32(data, 22))
    };
    if !(*file_name == cdh.file_name) || crc32 != cdh.crc32 || is_encrypted != cdh.is_encrypted
        || compressed_size != cdh.compressed_size || uncompressed_size
        != cdh.uncompressed_size {
        return Err(LoadFileError::UnmatchHeader);
    }
    if cdh.is_encrypted {
        return Err(LoadFileError::Encrypted);
    }
    let start = LFH_SIZE + file_name_length + extra_field_length;
    if start > length || compressed_size as usize > length - start {
        return Err(LoadFileError::IOError(IoErrorKind::UnexpectedEof));
    }
    let stored = copy_range(data, start, compressed_size as usize);
    if compression_method == COMPRESSION_METHOD_STORED {
        Ok(stored)
    } else if compression_method == COMPRESSION_METHOD_DEFLATED {
        match inflate(&stored) {
            Some(v) => Ok(v),
            None => Err(LoadFileError::IOError(IoErrorKind::InvalidData)),
        }
    } else {
        Err(LoadFileError::UnsupportedCompressionMethod(compression_method))
    }
}

/// Extracts one entry from `data`, its Local File Header followed by its
/// data (and data descriptor, where flag bit 3 is set), after checking the
/// header against the entry's Central Directory header `cdh`.
pub fn load_file(data: &Vec<u8>, cdh: &CDHeader) -> (r: Result<Vec<u8>, LoadFileError>)
    ensures
        match r {
            Ok(v) => load_outcome(data@, *cdh) == Ok::<Seq<u8>, LoadFileError>(v@),
            Err(e) => load_outcome(data@, *cdh) == Err::<Seq<u8>, LoadFileError>(e),
        },
{
    let length = data.len();
    if length < 4 {
        return Err(LoadFileError::IOError(IoErrorKind::UnexpectedEof));
    }
    if read_u32(data, 0) != LFH_SIGNATURE {
        return Err(LoadFileError::UnmatchHeader);
    }
    if length < LFH_SIZE {
        return Err(LoadFileError::IOError(IoErrorKind::UnexpectedEof));
    }
    let general_purpose_bit_flag = read_u16(data, 6);
    let file_name_length = read_u16(data, 26) as usize;
    if length - LFH_SIZE < file_name_length {
        return Err(LoadFileError::IOError(IoErrorKind::UnexpectedEof));
    }
    let file_name_bytes = copy_range(data, LFH_SIZE, file_name_length);
    let is_utf8 = general_purpose_bit_flag & 0x800 != 0;
    let file_name = match decode_file_name(&file_name_bytes, is_utf8) {
        Ok(s) => s,
        Err(_) => {
            return Err(LoadFileError::FileNameConversionError);
        },
    };
    extract_checked(data, cdh, &file_name)
}

} // verus!
