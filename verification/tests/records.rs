use makecab::le::{overwrite, push_bytes, push_le16, push_le32};
use makecab::records::{CfData, CfFile, CfFolder, CfHeader};

#[test]
fn header_layout() {
    let header = CfHeader::new(0x0403_0201, 0x0807_0605);
    assert_eq!(header.c_folders, 1);
    assert_eq!(header.c_files, 1);
    assert_eq!((header.version_major, header.version_minor), (1, 3));
    assert_eq!(
        header.to_bytes(),
        [
            b'M', b'S', b'C', b'F', 0, 0, 0, 0, 1, 2, 3, 4, 0, 0, 0, 0, 5, 6, 7, 8, 0, 0, 0, 0, 3,
            1, 1, 0, 1, 0, 0, 0, 0, 0, 0, 0
        ]
    );
}

#[test]
fn header_fields_are_packed_in_order() {
    let header = CfHeader {
        reserved1: 0x0101_0101,
        cb_cabinet: 0x0202_0202,
        reserved2: 0x0303_0303,
        coff_files: 0x0404_0404,
        reserved3: 0x0505_0505,
        version_minor: 6,
        version_major: 7,
        c_folders: 0x0808,
        c_files: 0x0909,
        flags: 0x0a0a,
        set_id: 0x0b0b,
        i_cabinet: 0x0c0c,
    };
    let mut expected = b"MSCF".to_vec();
    for (value, count) in [(1, 4), (2, 4), (3, 4), (4, 4), (5, 4), (6, 1), (7, 1), (8, 2), (9, 2), (10, 2), (11, 2), (12, 2)] {
        expected.extend(std::iter::repeat(value as u8).take(count));
    }
    assert_eq!(header.to_bytes(), expected);
}

#[test]
fn folder_layout() {
    let folder = CfFolder { coff_cab_start: 0x1234_5678, c_cf_data: 0xabcd, type_compress: 1 };
    assert_eq!(folder.to_bytes(), [0x78, 0x56, 0x34, 0x12, 0xcd, 0xab, 1, 0]);
}

#[test]
fn file_layout() {
    let file = CfFile {
        cb_file: 0x0102_0304,
        uoff_folder_start: 0x0506_0708,
        i_folder: 0x090a,
        date: 0x4c26,
        time: 0x7a75,
        attribs: 0x20,
    };
    assert_eq!(
        file.to_bytes(),
        [4, 3, 2, 1, 8, 7, 6, 5, 0x0a, 0x09, 0x26, 0x4c, 0x75, 0x7a, 0x20, 0]
    );
}

#[test]
fn data_layout() {
    let data = CfData { csum: 0, cb_data: 32780, cb_uncomp: 32768 };
    assert_eq!(data.to_bytes(), [0, 0, 0, 0, 0x0c, 0x80, 0x00, 0x80]);
}

#[test]
fn numbers_are_little_endian() {
    let mut out = vec![0xee];
    push_le16(&mut out, 0x1234);
    push_le32(&mut out, 0x89ab_cdef);
    push_bytes(&mut out, &[1, 2]);
    assert_eq!(out, [0xee, 0x34, 0x12, 0xef, 0xcd, 0xab, 0x89, 1, 2]);
}

#[test]
fn overwrite_keeps_the_rest() {
    let mut out = vec![0, 1, 2, 3, 4, 5];
    overwrite(&mut out, 2, &[9, 8, 7]);
    assert_eq!(out, [0, 1, 9, 8, 7, 5]);
    overwrite(&mut out, 0, &[]);
    overwrite(&mut out, 6, &[]);
    assert_eq!(out, [0, 1, 9, 8, 7, 5]);
}
