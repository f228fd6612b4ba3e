//! The four fixed records of a cabinet file and their layout in bytes.
//!
//! Every number is little-endian and the records are packed: a field follows
//! the one before it with no padding. This module only says where each field
//! stands; it writes to no file.

use vstd::prelude::*;
use crate::le::{
    le16, le32, lemma_le16_at, lemma_le32_at, push_le16, push_le32, read_le16, read_le32,
};

verus! {

/// The size of a `CFHEADER` in bytes.
pub const HEADER_SIZE: usize = 36;

/// The size of a `CFFOLDER` in bytes.
pub const FOLDER_SIZE: usize = 8;

/// The size of a `CFFILE` in bytes, without the file name that follows it.
pub const FILE_SIZE: usize = 16;

/// The size of a `CFDATA` in bytes, without the payload that follows it.
pub const DATA_SIZE: usize = 8;

/// The compression type of a folder whose data is MS-ZIP.
pub const COMPRESS_MSZIP: u16 = 1;

/// The attribute bit of a file that is to be archived.
pub const ATTRIB_ARCHIVE: u16 = 0x20;

/// The four bytes `MSCF` that a cabinet begins with.
pub open spec fn cabinet_signature() -> Seq<u8> {
    seq![0x4Du8, 0x53u8, 0x43u8, 0x46u8]
}

/// The cabinet header, `CFHEADER`.
#[derive(Clone, Copy, Debug, PartialEq, Eq, Structural)]
pub struct CfHeader {
    /// Reserved, zero.
    pub reserved1: u32,
    /// The size of the whole cabinet file in bytes.
    pub cb_cabinet: u32,
    /// Reserved, zero.
    pub reserved2: u32,
    /// The offset of the first `CFFILE` from the start of the file.
    pub coff_files: u32,
    /// Reserved, zero.
    pub reserved3: u32,
    /// The minor version of the format, 3.
    pub version_minor: u8,
    /// The major version of the format, 1.
    pub version_major: u8,
    /// The number of folders.
    pub c_folders: u16,
    /// The number of files.
    pub c_files: u16,
    /// Option flags; none is set.
    pub flags: u16,
    /// The identifier of the cabinet set.
    pub set_id: u16,
    /// The number of this cabinet in its set.
    pub i_cabinet: u16,
}

impl CfHeader {
    /// The header of a cabinet of the given size with one folder and one
    /// file, whose file entry stands at `coff_files`.
    pub open spec fn single(cb_cabinet: u32, coff_files: u32) -> CfHeader {
        CfHeader {
            reserved1: 0,
            cb_cabinet,
            reserved2: 0,
            coff_files,
            reserved3: 0,
            version_minor: 3,
            version_major: 1,
            c_folders: 1,
            c_files: 1,
            flags: 0,
            set_id: 0,
            i_cabinet: 0,
        }
    }

    /// The 36 bytes of the header.
    pub open spec fn bytes(self) -> Seq<u8> {
        cabinet_signature() + le32(self.reserved1) + le32(self.cb_cabinet) + le32(self.reserved2)
            + le32(self.coff_files) + le32(self.reserved3) + seq![
            self.version_minor,
            self.version_major,
        ] + le16(self.c_folders) + le16(self.c_files) + le16(self.flags) + le16(self.set_id)
            + le16(self.i_cabinet)
    }

    /// The header of a cabinet of the given size with one folder and one
    /// file, whose file entry stands at `coff_files`.
    pub fn new(cb_cabinet: u32, coff_files: u32) -> (header: CfHeader)
        ensures
            header == CfHeader::single(cb_cabinet, coff_files),
    {
        CfHeader {
            reserved1: 0,
            cb_cabinet,
            reserved2: 0,
            coff_files,
            reserved3: 0,
            version_minor: 3,
            version_major: 1,
            c_folders: 1,
            c_files: 1,
            flags: 0,
            set_id: 0,
            i_cabinet: 0,
        }
    }

    /// Where each field of the header stands in its bytes.
    #[verifier::rlimit(30)]
    pub proof fn lemma_layout(self)
        ensures
            self.bytes().len() == HEADER_SIZE,
            self.bytes().subrange(0, 4) == cabinet_signature(),
            read_le32(self.bytes(), 4) == self.reserved1,
            read_le32(self.bytes(), 8) == self.cb_cabinet,
            read_le32(self.bytes(), 12) == self.reserved2,
            read_le32(self.bytes(), 16) == self.coff_files,
            read_le32(self.bytes(), 20) == self.reserved3,
            self.bytes()[24] == self.version_minor,
            self.bytes()[25] == self.version_major,
            read_le16(self.bytes(), 26) == self.c_folders,
            read_le16(self.bytes(), 28) == self.c_files,
            read_le16(self.bytes(), 30) == self.flags,
            read_le16(self.bytes(), 32) == self.set_id,
            read_le16(self.bytes(), 34) == self.i_cabinet,
    {
        let bytes = self.bytes();
        assert(bytes.len() == 36);
        assert(bytes.subrange(0, 4) =~= cabinet_signature());
        assert(bytes.subrange(4, 8) =~= le32(self.reserved1));
        assert(bytes.subrange(8, 12) =~= le32(self.cb_cabinet));
        assert(bytes.subrange(12, 16) =~= le32(self.reserved2));
        assert(bytes.subrange(16, 20) =~= le32(self.coff_files));
        assert(bytes.subrange(20, 24) =~= le32(self.reserved3));
        assert(bytes.subrange(26, 28) =~= le16(self.c_folders));
        assert(bytes.subrange(28, 30) =~= le16(self.c_files));
        assert(bytes.subrange(30, 32) =~= le16(self.flags));
        assert(bytes.subrange(32, 34) =~= le16(self.set_id));
        assert(bytes.subrange(34, 36) =~= le16(self.i_cabinet));
        lemma_le32_at(bytes, 4, self.reserved1);
        lemma_le32_at(bytes, 8, self.cb_cabinet);
        lemma_le32_at(bytes, 12, self.reserved2);
        lemma_le32_at(bytes, 16, self.coff_files);
        lemma_le32_at(bytes, 20, self.reserved3);
        lemma_le16_at(bytes, 26, self.c_folders);
        lemma_le16_at(bytes, 28, self.c_files);
        lemma_le16_at(bytes, 30, self.flags);
        lemma_le16_at(bytes, 32, self.set_id);
        lemma_le16_at(bytes, 34, self.i_cabinet);
    }

    /// The header as it stands in the file.
    pub fn to_bytes(&self) -> (out: Vec<u8>)
        ensures
            out@ == self.bytes(),
            out@.len() == HEADER_SIZE,
    {
        let mut out: Vec<u8> = Vec::new();
        out.push(0x4D);
        out.push(0x53);
        out.push(0x43);
        out.push(0x46);
        assert(out@ =~= cabinet_signature());
        push_le32(&mut out, self.reserved1);
        push_le32(&mut out, self.cb_cabinet);
        push_le32(&mut out, self.reserved2);
        push_le32(&mut out, self.coff_files);
        push_le32(&mut out, self.reserved3);
        let ghost before = out@;
        out.push(self.version_minor);
        out.push(self.version_major);
        assert(out@ =~= before + seq![self.version_minor, self.version_major]);
        push_le16(&mut out, self.c_folders);
        push_le16(&mut out, self.c_files);
        push_le16(&mut out, self.flags);
        push_le16(&mut out, self.set_id);
        push_le16(&mut out, self.i_cabinet);
        out
    }
}

/// The folder record, `CFFOLDER`.
#[derive(Clone, Copy, Debug, PartialEq, Eq, Structural)]
pub struct CfFolder {
    /// The offset of the first `CFDATA` of the folder from the start of the file.
    pub coff_cab_start: u32,
    /// The number of `CFDATA` records in the folder.
    pub c_cf_data: u16,
    /// How the data of the folder is compressed.
    pub type_compress: u16,
}

impl CfFolder {
    /// The 8 bytes of the record.
    pub open spec fn bytes(self) -> Seq<u8> {
        le32(self.coff_cab_start) + le16(self.c_cf_data) + le16(self.type_compress)
    }

    /// Where each field of the record stands in its bytes.
    pub proof fn lemma_layout(self)
        ensures
            self.bytes().len() == FOLDER_SIZE,
            read_le32(self.bytes(), 0) == self.coff_cab_start,
            read_le16(self.bytes(), 4) == self.c_cf_data,
            read_le16(self.bytes(), 6) == self.type_compress,
    {
    }

    /// The record as it stands in the file.
    pub fn to_bytes(&self) -> (out: Vec<u8>)
        ensures
            out@ == self.bytes(),
            out@.len() == FOLDER_SIZE,
    {
        let mut out: Vec<u8> = Vec::new();
        push_le32(&mut out, self.coff_cab_start);
        push_le16(&mut out, self.c_cf_data);
        push_le16(&mut out, self.type_compress);
        assert(out@ =~= self.bytes());
        out
    }
}

/// The file entry, `CFFILE`, which the name of the file and a zero byte follow.
#[derive(Clone, Copy, Debug, PartialEq, Eq, Structural)]
pub struct CfFile {
    /// The size of the file, uncompressed.
    pub cb_file: u32,
    /// Where the file starts in the uncompressed data of its folder.
    pub uoff_folder_start: u32,
    /// The number of the folder that holds the file.
    pub i_folder: u16,
    /// The date word of the modification time.
    pub date: u16,
    /// The time word of the modification time.
    pub time: u16,
    /// The attribute bits.
    pub attribs: u16,
}

impl CfFile {
    /// The 16 bytes of the record.
    pub open spec fn bytes(self) -> Seq<u8> {
        le32(self.cb_file) + le32(self.uoff_folder_start) + le16(self.i_folder) + le16(self.date)
            + le16(self.time) + le16(self.attribs)
    }

    /// Where each field of the record stands in its bytes.
    pub proof fn lemma_layout(self)
        ensures
            self.bytes().len() == FILE_SIZE,
            read_le32(self.bytes(), 0) == self.cb_file,
            read_le32(self.bytes(), 4) == self.uoff_folder_start,
            read_le16(self.bytes(), 8) == self.i_folder,
            read_le16(self.bytes(), 10) == self.date,
            read_le16(self.bytes(), 12) == self.time,
            read_le16(self.bytes(), 14) == self.attribs,
    {
    }

    /// The record as it stands in the file.
    pub fn to_bytes(&self) -> (out: Vec<u8>)
        ensures
            out@ == self.bytes(),
            out@.len() == FILE_SIZE,
    {
        let mut out: Vec<u8> = Vec::new();
        push_le32(&mut out, self.cb_file);
        push_le32(&mut out, self.uoff_folder_start);
        push_le16(&mut out, self.i_folder);
        push_le16(&mut out, self.date);
        push_le16(&mut out, self.time);
        push_le16(&mut out, self.attribs);
        assert(out@ =~= self.bytes());
        out
    }
}

/// The head of a data record, `CFDATA`, which the payload follows.
#[derive(Clone, Copy, Debug, PartialEq, Eq, Structural)]
pub struct CfData {
    /// The checksum of the record; zero, which stands for none.
    pub csum: u32,
    /// The number of bytes of payload that follow.
    pub cb_data: u16,
    /// The number of bytes that the payload decompresses to.
    pub cb_uncomp: u16,
}

impl CfData {
    /// The 8 bytes of the record head.
    pub open spec fn bytes(self) -> Seq<u8> {
        le32(self.csum) + le16(self.cb_data) + le16(self.cb_uncomp)
    }

    /// Where each field of the record head stands in its bytes.
    pub proof fn lemma_layout(self)
        ensures
            self.bytes().len() == DATA_SIZE,
            read_le32(self.bytes(), 0) == self.csum,
            read_le16(self.bytes(), 4) == self.cb_data,
            read_le16(self.bytes(), 6) == self.cb_uncomp,
    {
    }

    /// The record head as it stands in the file.
    pub fn to_bytes(&self) -> (out: Vec<u8>)
        ensures
            out@ == self.bytes(),
            out@.len() == DATA_SIZE,
    {
        let mut out: Vec<u8> = Vec::new();
        push_le32(&mut out, self.csum);
        push_le16(&mut out, self.cb_data);
        push_le16(&mut out, self.cb_uncomp);
        assert(out@ =~= self.bytes());
        out
    }
}

} // verus!
