use std::io::Cursor;
use std::io::Write;

use editwheel::elf::get_rpath;
use editwheel::elf::modify_elf;
use editwheel::elf::parse_elf;
use editwheel::hash_content;
use editwheel::ElfError;
use editwheel::ElfModification;
use editwheel::WheelEditor;
use zip::write::SimpleFileOptions;
use zip::ZipWriter;

/// A small shared object for x86-64 with the name `libtiny.so`, a few
/// functions and no library search path.
fn tiny_shared_object() -> Vec<u8> {
    let mut image = vec![0u8; 4856];
    let parts: Vec<(usize, Vec<u8>)> = vec![
        (
            0,
            vec![
                0x7f, 0x45, 0x4c, 0x46, 0x02, 0x01, 0x01, 0x00, 0x00, 0x00, 0x00, 0x00,
                0x00, 0x00, 0x00, 0x00, 0x03, 0x00, 0x3e, 0x00, 0x01, 0x00, 0x00, 0x00,
                0x00, 0x00, 0x00, 0x00, 0x00, 0x00, 0x00, 0x00, 0x40, 0x00, 0x00, 0x00,
                0x00, 0x00, 0x00, 0x00, 0x78, 0x10, 0x00, 0x00, 0x00, 0x00, 0x00, 0x00,
                0x00, 0x00, 0x00, 0x00, 0x40, 0x00, 0x38, 0x00, 0x06, 0x00, 0x40, 0x00,
                0x0a, 0x00, 0x09, 0x00, 0x01, 0x00, 0x00, 0x00, 0x05,
            ],
        ),
        (
            96,
            vec![
                0x80, 0x08, 0x00, 0x00, 0x00, 0x00, 0x00, 0x00, 0x80, 0x08, 0x00, 0x00,
                0x00, 0x00, 0x00, 0x00, 0x00, 0x10, 0x00, 0x00, 0x00, 0x00, 0x00, 0x00,
                0x01, 0x00, 0x00, 0x00, 0x06, 0x00, 0x00, 0x00, 0x40, 0x0f, 0x00, 0x00,
                0x00, 0x00, 0x00, 0x00, 0x40, 0x1f, 0x00, 0x00, 0x00, 0x00, 0x00, 0x00,
                0x40, 0x1f, 0x00, 0x00, 0x00, 0x00, 0x00, 0x00, 0xc0, 0x00, 0x00, 0x00,
                0x00, 0x00, 0x00, 0x00, 0xc0, 0x00, 0x00, 0x00, 0x00, 0x00, 0x00, 0x00,
                0x00, 0x10, 0x00, 0x00, 0x00, 0x00, 0x00, 0x00, 0x02, 0x00, 0x00, 0x00,
                0x06, 0x00, 0x00, 0x00, 0x40, 0x0f, 0x00, 0x00, 0x00, 0x00, 0x00, 0x00,
                0x40, 0x1f, 0x00, 0x00, 0x00, 0x00, 0x00, 0x00, 0x40, 0x1f, 0x00, 0x00,
                0x00, 0x00, 0x00, 0x00, 0xc0, 0x00, 0x00, 0x00, 0x00, 0x00, 0x00, 0x00,
                0xc0, 0x00, 0x00, 0x00, 0x00, 0x00, 0x00, 0x00, 0x08, 0x00, 0x00, 0x00,
                0x00, 0x00, 0x00, 0x00, 0x50, 0xe5, 0x74, 0x64, 0x04, 0x00, 0x00, 0x00,
                0xd4, 0x06, 0x00, 0x00, 0x00, 0x00, 0x00, 0x00, 0xd4, 0x06, 0x00, 0x00,
                0x00, 0x00, 0x00, 0x00, 0xd4, 0x06, 0x00, 0x00, 0x00, 0x00, 0x00, 0x00,
                0x7c, 0x00, 0x00, 0x00, 0x00, 0x00, 0x00, 0x00, 0x7c, 0x00, 0x00, 0x00,
                0x00, 0x00, 0x00, 0x00, 0x04, 0x00, 0x00, 0x00, 0x00, 0x00, 0x00, 0x00,
                0x51, 0xe5, 0x74, 0x64, 0x06,
            ],
        ),
        (
            336,
            vec![
                0x10, 0x00, 0x00, 0x00, 0x00, 0x00, 0x00, 0x00, 0x52, 0xe5, 0x74, 0x64,
                0x04, 0x00, 0x00, 0x00, 0x40, 0x0f, 0x00, 0x00, 0x00, 0x00, 0x00, 0x00,
                0x40, 0x1f, 0x00, 0x00, 0x00, 0x00, 0x00, 0x00, 0x40, 0x1f, 0x00, 0x00,
                0x00, 0x00, 0x00, 0x00, 0xc0, 0x00, 0x00, 0x00, 0x00, 0x00, 0x00, 0x00,
                0xc0, 0x00, 0x00, 0x00, 0x00, 0x00, 0x00, 0x00, 0x01, 0x00, 0x00, 0x00,
                0x00, 0x00, 0x00, 0x00, 0x03, 0x00, 0x00, 0x00, 0x0f, 0x00, 0x00, 0x00,
                0x0b, 0x00, 0x00, 0x00, 0x0d, 0x00, 0x00, 0x00, 0x0e, 0x00, 0x00, 0x00,
                0x00, 0x00, 0x00, 0x00, 0x00, 0x00, 0x00, 0x00, 0x01, 0x00, 0x00, 0x00,
                0x00, 0x00, 0x00, 0x00, 0x03, 0x00, 0x00, 0x00, 0x00, 0x00, 0x00, 0x00,
                0x04, 0x00, 0x00, 0x00, 0x02, 0x00, 0x00, 0x00, 0x05, 0x00, 0x00, 0x00,
                0x08, 0x00, 0x00, 0x00, 0x07, 0x00, 0x00, 0x00, 0x0a, 0x00, 0x00, 0x00,
                0x09, 0x00, 0x00, 0x00, 0x06, 0x00, 0x00, 0x00, 0x0c,
            ],
        ),
        (
            504,
            vec![
                0x5d, 0x01, 0x00, 0x00, 0x12, 0x00, 0x04, 0x00, 0xa1, 0x06, 0x00, 0x00,
                0x00, 0x00, 0x00, 0x00, 0x06, 0x00, 0x00, 0x00, 0x00, 0x00, 0x00, 0x00,
                0x7f, 0x02, 0x00, 0x00, 0x12, 0x00, 0x04, 0x00, 0xbf, 0x06, 0x00, 0x00,
                0x00, 0x00, 0x00, 0x00, 0x06, 0x00, 0x00, 0x00, 0x00, 0x00, 0x00, 0x00,
                0x3b, 0x00, 0x00, 0x00, 0x12, 0x00, 0x04, 0x00, 0x83, 0x06, 0x00, 0x00,
                0x00, 0x00, 0x00, 0x00, 0x06, 0x00, 0x00, 0x00, 0x00, 0x00, 0x00, 0x00,
                0xb9, 0x02, 0x00, 0x00, 0x12, 0x00, 0x04, 0x00, 0xc5, 0x06, 0x00, 0x00,
                0x00, 0x00, 0x00, 0x00, 0x06, 0x00, 0x00, 0x00, 0x00, 0x00, 0x00, 0x00,
                0xf3, 0x02, 0x00, 0x00, 0x12, 0x00, 0x04, 0x00, 0xcb, 0x06, 0x00, 0x00,
                0x00, 0x00, 0x00, 0x00, 0x06, 0x00, 0x00, 0x00, 0x00, 0x00, 0x00, 0x00,
                0x97, 0x01, 0x00, 0x00, 0x12, 0x00, 0x04, 0x00, 0xa7, 0x06, 0x00, 0x00,
                0x00, 0x00, 0x00, 0x00, 0x06, 0x00, 0x00, 0x00, 0x00, 0x00, 0x00, 0x00,
                0x01, 0x00, 0x00, 0x00, 0x12, 0x00, 0x04, 0x00, 0x80, 0x06, 0x00, 0x00,
                0x00, 0x00, 0x00, 0x00, 0x03, 0x00, 0x00, 0x00, 0x00, 0x00, 0x00, 0x00,
                0x75, 0x00, 0x00, 0x00, 0x12, 0x00, 0x04, 0x00, 0x89, 0x06, 0x00, 0x00,
                0x00, 0x00, 0x00, 0x00, 0x06, 0x00, 0x00, 0x00, 0x00, 0x00, 0x00, 0x00,
                0x45, 0x02, 0x00, 0x00, 0x12, 0x00, 0x04, 0x00, 0xb9, 0x06, 0x00, 0x00,
                0x00, 0x00, 0x00, 0x00, 0x06, 0x00, 0x00, 0x00, 0x00, 0x00, 0x00, 0x00,
                0xaf, 0x00, 0x00, 0x00, 0x12, 0x00, 0x04, 0x00, 0x8f, 0x06, 0x00, 0x00,
                0x00, 0x00, 0x00, 0x00, 0x06, 0x00, 0x00, 0x00, 0x00, 0x00, 0x00, 0x00,
                0x0b, 0x02, 0x00, 0x00, 0x12, 0x00, 0x04, 0x00, 0xb3, 0x06, 0x00, 0x00,
                0x00, 0x00, 0x00, 0x00, 0x06, 0x00, 0x00, 0x00, 0x00, 0x00, 0x00, 0x00,
                0x23, 0x01, 0x00, 0x00, 0x12, 0x00, 0x04, 0x00, 0x9b, 0x06, 0x00, 0x00,
                0x00, 0x00, 0x00, 0x00, 0x06, 0x00, 0x00, 0x00, 0x00, 0x00, 0x00, 0x00,
                0xe9, 0x00, 0x00, 0x00, 0x12, 0x00, 0x04, 0x00, 0x95, 0x06, 0x00, 0x00,
                0x00, 0x00, 0x00, 0x00, 0x06, 0x00, 0x00, 0x00, 0x00, 0x00, 0x00, 0x00,
                0xd1, 0x01, 0x00, 0x00, 0x12, 0x00, 0x04, 0x00, 0xad, 0x06, 0x00, 0x00,
                0x00, 0x00, 0x00, 0x00, 0x06, 0x00, 0x00, 0x00, 0x00, 0x00, 0x00, 0x00,
                0x00, 0x74, 0x69, 0x6e, 0x79, 0x5f, 0x6c, 0x69, 0x62, 0x72, 0x61, 0x72,
                0x79, 0x5f, 0x65, 0x78, 0x70, 0x6f, 0x72, 0x74, 0x65, 0x64, 0x5f, 0x66,
                0x75, 0x6e, 0x63, 0x74, 0x69, 0x6f, 0x6e, 0x5f, 0x77, 0x69, 0x74, 0x68,
                0x5f, 0x61, 0x5f, 0x72, 0x61, 0x74, 0x68, 0x65, 0x72, 0x5f, 0x6c, 0x6f,
                0x6e, 0x67, 0x5f, 0x6e, 0x61, 0x6d, 0x65, 0x5f, 0x30, 0x30, 0x00, 0x74,
                0x69, 0x6e, 0x79, 0x5f, 0x6c, 0x69, 0x62, 0x72, 0x61, 0x72, 0x79, 0x5f,
                0x65, 0x78, 0x70, 0x6f, 0x72, 0x74, 0x65, 0x64, 0x5f, 0x66, 0x75, 0x6e,
                0x63, 0x74, 0x69, 0x6f, 0x6e, 0x5f, 0x77, 0x69, 0x74, 0x68, 0x5f, 0x61,
                0x5f, 0x72, 0x61, 0x74, 0x68, 0x65, 0x72, 0x5f, 0x6c, 0x6f, 0x6e, 0x67,
                0x5f, 0x6e, 0x61, 0x6d, 0x65, 0x5f, 0x30, 0x31, 0x00, 0x74, 0x69, 0x6e,
                0x79, 0x5f, 0x6c, 0x69, 0x62, 0x72, 0x61, 0x72, 0x79, 0x5f, 0x65, 0x78,
                0x70, 0x6f, 0x72, 0x74, 0x65, 0x64, 0x5f, 0x66, 0x75, 0x6e, 0x63, 0x74,
                0x69, 0x6f, 0x6e, 0x5f, 0x77, 0x69, 0x74, 0x68, 0x5f, 0x61, 0x5f, 0x72,
                0x61, 0x74, 0x68, 0x65, 0x72, 0x5f, 0x6c, 0x6f, 0x6e, 0x67, 0x5f, 0x6e,
                0x61, 0x6d, 0x65, 0x5f, 0x30, 0x32, 0x00, 0x74, 0x69, 0x6e, 0x79, 0x5f,
                0x6c, 0x69, 0x62, 0x72, 0x61, 0x72, 0x79, 0x5f, 0x65, 0x78, 0x70, 0x6f,
                0x72, 0x74, 0x65, 0x64, 0x5f, 0x66, 0x75, 0x6e, 0x63, 0x74, 0x69, 0x6f,
                0x6e, 0x5f, 0x77, 0x69, 0x74, 0x68, 0x5f, 0x61, 0x5f, 0x72, 0x61, 0x74,
                0x68, 0x65, 0x72, 0x5f, 0x6c, 0x6f, 0x6e, 0x67, 0x5f, 0x6e, 0x61, 0x6d,
                0x65, 0x5f, 0x30, 0x33, 0x00, 0x74, 0x69, 0x6e, 0x79, 0x5f, 0x6c, 0x69,
                0x62, 0x72, 0x61, 0x72, 0x79, 0x5f, 0x65, 0x78, 0x70, 0x6f, 0x72, 0x74,
                0x65, 0x64, 0x5f, 0x66, 0x75, 0x6e, 0x63, 0x74, 0x69, 0x6f, 0x6e, 0x5f,
                0x77, 0x69, 0x74, 0x68, 0x5f, 0x61, 0x5f, 0x72, 0x61, 0x74, 0x68, 0x65,
                0x72, 0x5f, 0x6c, 0x6f, 0x6e, 0x67, 0x5f, 0x6e, 0x61, 0x6d, 0x65, 0x5f,
                0x30, 0x34, 0x00, 0x74, 0x69, 0x6e, 0x79, 0x5f, 0x6c, 0x69, 0x62, 0x72,
                0x61, 0x72, 0x79, 0x5f, 0x65, 0x78, 0x70, 0x6f, 0x72, 0x74, 0x65, 0x64,
                0x5f, 0x66, 0x75, 0x6e, 0x63, 0x74, 0x69, 0x6f, 0x6e, 0x5f, 0x77, 0x69,
                0x74, 0x68, 0x5f, 0x61, 0x5f, 0x72, 0x61, 0x74, 0x68, 0x65, 0x72, 0x5f,
                0x6c, 0x6f, 0x6e, 0x67, 0x5f, 0x6e, 0x61, 0x6d, 0x65, 0x5f, 0x30, 0x35,
                0x00, 0x74, 0x69, 0x6e, 0x79, 0x5f, 0x6c, 0x69, 0x62, 0x72, 0x61, 0x72,
                0x79, 0x5f, 0x65, 0x78, 0x70, 0x6f, 0x72, 0x74, 0x65, 0x64, 0x5f, 0x66,
                0x75, 0x6e, 0x63, 0x74, 0x69, 0x6f, 0x6e, 0x5f, 0x77, 0x69, 0x74, 0x68,
                0x5f, 0x61, 0x5f, 0x72, 0x61, 0x74, 0x68, 0x65, 0x72, 0x5f, 0x6c, 0x6f,
                0x6e, 0x67, 0x5f, 0x6e, 0x61, 0x6d, 0x65, 0x5f, 0x30, 0x36, 0x00, 0x74,
                0x69, 0x6e, 0x79, 0x5f, 0x6c, 0x69, 0x62, 0x72, 0x61, 0x72, 0x79, 0x5f,
                0x65, 0x78, 0x70, 0x6f, 0x72, 0x74, 0x65, 0x64, 0x5f, 0x66, 0x75, 0x6e,
                0x63, 0x74, 0x69, 0x6f, 0x6e, 0x5f, 0x77, 0x69, 0x74, 0x68, 0x5f, 0x61,
                0x5f, 0x72, 0x61, 0x74, 0x68, 0x65, 0x72, 0x5f, 0x6c, 0x6f, 0x6e, 0x67,
                0x5f, 0x6e, 0x61, 0x6d, 0x65, 0x5f, 0x30, 0x37, 0x00, 0x74, 0x69, 0x6e,
                0x79, 0x5f, 0x6c, 0x69, 0x62, 0x72, 0x61, 0x72, 0x79, 0x5f, 0x65, 0x78,
                0x70, 0x6f, 0x72, 0x74, 0x65, 0x64, 0x5f, 0x66, 0x75, 0x6e, 0x63, 0x74,
                0x69, 0x6f, 0x6e, 0x5f, 0x77, 0x69, 0x74, 0x68, 0x5f, 0x61, 0x5f, 0x72,
                0x61, 0x74, 0x68, 0x65, 0x72, 0x5f, 0x6c, 0x6f, 0x6e, 0x67, 0x5f, 0x6e,
                0x61, 0x6d, 0x65, 0x5f, 0x30, 0x38, 0x00, 0x74, 0x69, 0x6e, 0x79, 0x5f,
                0x6c, 0x69, 0x62, 0x72, 0x61, 0x72, 0x79, 0x5f, 0x65, 0x78, 0x70, 0x6f,
                0x72, 0x74, 0x65, 0x64, 0x5f, 0x66, 0x75, 0x6e, 0x63, 0x74, 0x69, 0x6f,
                0x6e, 0x5f, 0x77, 0x69, 0x74, 0x68, 0x5f, 0x61, 0x5f, 0x72, 0x61, 0x74,
                0x68, 0x65, 0x72, 0x5f, 0x6c, 0x6f, 0x6e, 0x67, 0x5f, 0x6e, 0x61, 0x6d,
                0x65, 0x5f, 0x30, 0x39, 0x00, 0x74, 0x69, 0x6e, 0x79, 0x5f, 0x6c, 0x69,
                0x62, 0x72, 0x61, 0x72, 0x79, 0x5f, 0x65, 0x78, 0x70, 0x6f, 0x72, 0x74,
                0x65, 0x64, 0x5f, 0x66, 0x75, 0x6e, 0x63, 0x74, 0x69, 0x6f, 0x6e, 0x5f,
                0x77, 0x69, 0x74, 0x68, 0x5f, 0x61, 0x5f, 0x72, 0x61, 0x74, 0x68, 0x65,
                0x72, 0x5f, 0x6c, 0x6f, 0x6e, 0x67, 0x5f, 0x6e, 0x61, 0x6d, 0x65, 0x5f,
                0x31, 0x30, 0x00, 0x74, 0x69, 0x6e, 0x79, 0x5f, 0x6c, 0x69, 0x62, 0x72,
                0x61, 0x72, 0x79, 0x5f, 0x65, 0x78, 0x70, 0x6f, 0x72, 0x74, 0x65, 0x64,
                0x5f, 0x66, 0x75, 0x6e, 0x63, 0x74, 0x69, 0x6f, 0x6e, 0x5f, 0x77, 0x69,
                0x74, 0x68, 0x5f, 0x61, 0x5f, 0x72, 0x61, 0x74, 0x68, 0x65, 0x72, 0x5f,
                0x6c, 0x6f, 0x6e, 0x67, 0x5f, 0x6e, 0x61, 0x6d, 0x65, 0x5f, 0x31, 0x31,
                0x00, 0x74, 0x69, 0x6e, 0x79, 0x5f, 0x6c, 0x69, 0x62, 0x72, 0x61, 0x72,
                0x79, 0x5f, 0x65, 0x78, 0x70, 0x6f, 0x72, 0x74, 0x65, 0x64, 0x5f, 0x66,
                0x75, 0x6e, 0x63, 0x74, 0x69, 0x6f, 0x6e, 0x5f, 0x77, 0x69, 0x74, 0x68,
                0x5f, 0x61, 0x5f, 0x72, 0x61, 0x74, 0x68, 0x65, 0x72, 0x5f, 0x6c, 0x6f,
                0x6e, 0x67, 0x5f, 0x6e, 0x61, 0x6d, 0x65, 0x5f, 0x31, 0x32, 0x00, 0x74,
                0x69, 0x6e, 0x79, 0x5f, 0x6c, 0x69, 0x62, 0x72, 0x61, 0x72, 0x79, 0x5f,
                0x65, 0x78, 0x70, 0x6f, 0x72, 0x74, 0x65, 0x64, 0x5f, 0x66, 0x75, 0x6e,
                0x63, 0x74, 0x69, 0x6f, 0x6e, 0x5f, 0x77, 0x69, 0x74, 0x68, 0x5f, 0x61,
                0x5f, 0x72, 0x61, 0x74, 0x68, 0x65, 0x72, 0x5f, 0x6c, 0x6f, 0x6e, 0x67,
                0x5f, 0x6e, 0x61, 0x6d, 0x65, 0x5f, 0x31, 0x33, 0x00, 0x6c, 0x69, 0x62,
                0x74, 0x69, 0x6e, 0x79, 0x2e, 0x73, 0x6f, 0x00, 0x31, 0xc0, 0xc3, 0xb8,
                0x01, 0x00, 0x00, 0x00, 0xc3, 0xb8, 0x02, 0x00, 0x00, 0x00, 0xc3, 0xb8,
                0x03, 0x00, 0x00, 0x00, 0xc3, 0xb8, 0x04, 0x00, 0x00, 0x00, 0xc3, 0xb8,
                0x05, 0x00, 0x00, 0x00, 0xc3, 0xb8, 0x06, 0x00, 0x00, 0x00, 0xc3, 0xb8,
                0x07, 0x00, 0x00, 0x00, 0xc3, 0xb8, 0x08, 0x00, 0x00, 0x00, 0xc3, 0xb8,
                0x09, 0x00, 0x00, 0x00, 0xc3, 0xb8, 0x0a, 0x00, 0x00, 0x00, 0xc3, 0xb8,
                0x0b, 0x00, 0x00, 0x00, 0xc3, 0xb8, 0x0c, 0x00, 0x00, 0x00, 0xc3, 0xb8,
                0x0d, 0x00, 0x00, 0x00, 0xc3, 0x00, 0x00, 0x00, 0x01, 0x1b, 0x03, 0x3b,
                0x78, 0x00, 0x00, 0x00, 0x0e, 0x00, 0x00, 0x00, 0xac, 0xff, 0xff, 0xff,
                0x94, 0x00, 0x00, 0x00, 0xaf, 0xff, 0xff, 0xff, 0xa8, 0x00, 0x00, 0x00,
                0xb5, 0xff, 0xff, 0xff, 0xbc, 0x00, 0x00, 0x00, 0xbb, 0xff, 0xff, 0xff,
                0xd0, 0x00, 0x00, 0x00, 0xc1, 0xff, 0xff, 0xff, 0xe4, 0x00, 0x00, 0x00,
                0xc7, 0xff, 0xff, 0xff, 0xf8, 0x00, 0x00, 0x00, 0xcd, 0xff, 0xff, 0xff,
                0x0c, 0x01, 0x00, 0x00, 0xd3, 0xff, 0xff, 0xff, 0x20, 0x01, 0x00, 0x00,
                0xd9, 0xff, 0xff, 0xff, 0x34, 0x01, 0x00, 0x00, 0xdf, 0xff, 0xff, 0xff,
                0x48, 0x01, 0x00, 0x00, 0xe5, 0xff, 0xff, 0xff, 0x5c, 0x01, 0x00, 0x00,
                0xeb, 0xff, 0xff, 0xff, 0x70, 0x01, 0x00, 0x00, 0xf1, 0xff, 0xff, 0xff,
                0x84, 0x01, 0x00, 0x00, 0xf7, 0xff, 0xff, 0xff, 0x98, 0x01, 0x00, 0x00,
                0x14, 0x00, 0x00, 0x00, 0x00, 0x00, 0x00, 0x00, 0x01, 0x7a, 0x52, 0x00,
                0x01, 0x78, 0x10, 0x01, 0x1b, 0x0c, 0x07, 0x08, 0x90, 0x01, 0x00, 0x00,
                0x10, 0x00, 0x00, 0x00, 0x1c, 0x00, 0x00, 0x00, 0x10, 0xff, 0xff, 0xff,
                0x03, 0x00, 0x00, 0x00, 0x00, 0x00, 0x00, 0x00, 0x10, 0x00, 0x00, 0x00,
                0x30, 0x00, 0x00, 0x00, 0xff, 0xfe, 0xff, 0xff, 0x06, 0x00, 0x00, 0x00,
                0x00, 0x00, 0x00, 0x00, 0x10, 0x00, 0x00, 0x00, 0x44, 0x00, 0x00, 0x00,
                0xf1, 0xfe, 0xff, 0xff, 0x06, 0x00, 0x00, 0x00, 0x00, 0x00, 0x00, 0x00,
                0x10, 0x00, 0x00, 0x00, 0x58, 0x00, 0x00, 0x00, 0xe3, 0xfe, 0xff, 0xff,
                0x06, 0x00, 0x00, 0x00, 0x00, 0x00, 0x00, 0x00, 0x10, 0x00, 0x00, 0x00,
                0x6c, 0x00, 0x00, 0x00, 0xd5, 0xfe, 0xff, 0xff, 0x06, 0x00, 0x00, 0x00,
                0x00, 0x00, 0x00, 0x00, 0x10, 0x00, 0x00, 0x00, 0x80, 0x00, 0x00, 0x00,
                0xc7, 0xfe, 0xff, 0xff, 0x06, 0x00, 0x00, 0x00, 0x00, 0x00, 0x00, 0x00,
                0x10, 0x00, 0x00, 0x00, 0x94, 0x00, 0x00, 0x00, 0xb9, 0xfe, 0xff, 0xff,
                0x06, 0x00, 0x00, 0x00, 0x00, 0x00, 0x00, 0x00, 0x10, 0x00, 0x00, 0x00,
                0xa8, 0x00, 0x00, 0x00, 0xab, 0xfe, 0xff, 0xff, 0x06, 0x00, 0x00, 0x00,
                0x00, 0x00, 0x00, 0x00, 0x10, 0x00, 0x00, 0x00, 0xbc, 0x00, 0x00, 0x00,
                0x9d, 0xfe, 0xff, 0xff, 0x06, 0x00, 0x00, 0x00, 0x00, 0x00, 0x00, 0x00,
                0x10, 0x00, 0x00, 0x00, 0xd0, 0x00, 0x00, 0x00, 0x8f, 0xfe, 0xff, 0xff,
                0x06, 0x00, 0x00, 0x00, 0x00, 0x00, 0x00, 0x00, 0x10, 0x00, 0x00, 0x00,
                0xe4, 0x00, 0x00, 0x00, 0x81, 0xfe, 0xff, 0xff, 0x06, 0x00, 0x00, 0x00,
                0x00, 0x00, 0x00, 0x00, 0x10, 0x00, 0x00, 0x00, 0xf8, 0x00, 0x00, 0x00,
                0x73, 0xfe, 0xff, 0xff, 0x06, 0x00, 0x00, 0x00, 0x00, 0x00, 0x00, 0x00,
                0x10, 0x00, 0x00, 0x00, 0x0c, 0x01, 0x00, 0x00, 0x65, 0xfe, 0xff, 0xff,
                0x06, 0x00, 0x00, 0x00, 0x00, 0x00, 0x00, 0x00, 0x10, 0x00, 0x00, 0x00,
                0x20, 0x01, 0x00, 0x00, 0x57, 0xfe, 0xff, 0xff, 0x06,
            ],
        ),
        (
            3904,
            vec![
                0x0e, 0x00, 0x00, 0x00, 0x00, 0x00, 0x00, 0x00, 0x2d, 0x03, 0x00, 0x00,
                0x00, 0x00, 0x00, 0x00, 0x04, 0x00, 0x00, 0x00, 0x00, 0x00, 0x00, 0x00,
                0x90, 0x01, 0x00, 0x00, 0x00, 0x00, 0x00, 0x00, 0x05, 0x00, 0x00, 0x00,
                0x00, 0x00, 0x00, 0x00, 0x48, 0x03, 0x00, 0x00, 0x00, 0x00, 0x00, 0x00,
                0x06, 0x00, 0x00, 0x00, 0x00, 0x00, 0x00, 0x00, 0xe0, 0x01, 0x00, 0x00,
                0x00, 0x00, 0x00, 0x00, 0x0a, 0x00, 0x00, 0x00, 0x00, 0x00, 0x00, 0x00,
                0x38, 0x03, 0x00, 0x00, 0x00, 0x00, 0x00, 0x00, 0x0b, 0x00, 0x00, 0x00,
                0x00, 0x00, 0x00, 0x00, 0x18,
            ],
        ),
        (
            4096,
            vec![
                0x47, 0x43, 0x43, 0x3a, 0x20, 0x28, 0x44, 0x65, 0x62, 0x69, 0x61, 0x6e,
                0x20, 0x31, 0x32, 0x2e, 0x32, 0x2e, 0x30, 0x2d, 0x31, 0x34, 0x2b, 0x64,
                0x65, 0x62, 0x31, 0x32, 0x75, 0x31, 0x29, 0x20, 0x31, 0x32, 0x2e, 0x32,
                0x2e, 0x30, 0x00, 0x00, 0x2e, 0x73, 0x68, 0x73, 0x74, 0x72, 0x74, 0x61,
                0x62, 0x00, 0x2e, 0x68, 0x61, 0x73, 0x68, 0x00, 0x2e, 0x64, 0x79, 0x6e,
                0x73, 0x79, 0x6d, 0x00, 0x2e, 0x64, 0x79, 0x6e, 0x73, 0x74, 0x72, 0x00,
                0x2e, 0x74, 0x65, 0x78, 0x74, 0x00, 0x2e, 0x65, 0x68, 0x5f, 0x66, 0x72,
                0x61, 0x6d, 0x65, 0x5f, 0x68, 0x64, 0x72, 0x00, 0x2e, 0x65, 0x68, 0x5f,
                0x66, 0x72, 0x61, 0x6d, 0x65, 0x00, 0x2e, 0x64, 0x79, 0x6e, 0x61, 0x6d,
                0x69, 0x63, 0x00, 0x2e, 0x63, 0x6f, 0x6d, 0x6d, 0x65, 0x6e, 0x74,
            ],
        ),
        (
            4280,
            vec![
                0x0b, 0x00, 0x00, 0x00, 0x05, 0x00, 0x00, 0x00, 0x02, 0x00, 0x00, 0x00,
                0x00, 0x00, 0x00, 0x00, 0x90, 0x01, 0x00, 0x00, 0x00, 0x00, 0x00, 0x00,
                0x90, 0x01, 0x00, 0x00, 0x00, 0x00, 0x00, 0x00, 0x50, 0x00, 0x00, 0x00,
                0x00, 0x00, 0x00, 0x00, 0x02, 0x00, 0x00, 0x00, 0x00, 0x00, 0x00, 0x00,
                0x08, 0x00, 0x00, 0x00, 0x00, 0x00, 0x00, 0x00, 0x04, 0x00, 0x00, 0x00,
                0x00, 0x00, 0x00, 0x00, 0x11, 0x00, 0x00, 0x00, 0x0b, 0x00, 0x00, 0x00,
                0x02, 0x00, 0x00, 0x00, 0x00, 0x00, 0x00, 0x00, 0xe0, 0x01, 0x00, 0x00,
                0x00, 0x00, 0x00, 0x00, 0xe0, 0x01, 0x00, 0x00, 0x00, 0x00, 0x00, 0x00,
                0x68, 0x01, 0x00, 0x00, 0x00, 0x00, 0x00, 0x00, 0x03, 0x00, 0x00, 0x00,
                0x01, 0x00, 0x00, 0x00, 0x08, 0x00, 0x00, 0x00, 0x00, 0x00, 0x00, 0x00,
                0x18, 0x00, 0x00, 0x00, 0x00, 0x00, 0x00, 0x00, 0x19, 0x00, 0x00, 0x00,
                0x03, 0x00, 0x00, 0x00, 0x02, 0x00, 0x00, 0x00, 0x00, 0x00, 0x00, 0x00,
                0x48, 0x03, 0x00, 0x00, 0x00, 0x00, 0x00, 0x00, 0x48, 0x03, 0x00, 0x00,
                0x00, 0x00, 0x00, 0x00, 0x38, 0x03,
            ],
        ),
        (
            4456,
            vec![
                0x01,
            ],
        ),
        (
            4472,
            vec![
                0x21, 0x00, 0x00, 0x00, 0x01, 0x00, 0x00, 0x00, 0x06, 0x00, 0x00, 0x00,
                0x00, 0x00, 0x00, 0x00, 0x80, 0x06, 0x00, 0x00, 0x00, 0x00, 0x00, 0x00,
                0x80, 0x06, 0x00, 0x00, 0x00, 0x00, 0x00, 0x00, 0x51,
            ],
        ),
        (
            4520,
            vec![
                0x01,
            ],
        ),
        (
            4536,
            vec![
                0x27, 0x00, 0x00, 0x00, 0x01, 0x00, 0x00, 0x00, 0x02, 0x00, 0x00, 0x00,
                0x00, 0x00, 0x00, 0x00, 0xd4, 0x06, 0x00, 0x00, 0x00, 0x00, 0x00, 0x00,
                0xd4, 0x06, 0x00, 0x00, 0x00, 0x00, 0x00, 0x00, 0x7c,
            ],
        ),
        (
            4584,
            vec![
                0x04,
            ],
        ),
        (
            4600,
            vec![
                0x35, 0x00, 0x00, 0x00, 0x01, 0x00, 0x00, 0x00, 0x02, 0x00, 0x00, 0x00,
                0x00, 0x00, 0x00, 0x00, 0x50, 0x07, 0x00, 0x00, 0x00, 0x00, 0x00, 0x00,
                0x50, 0x07, 0x00, 0x00, 0x00, 0x00, 0x00, 0x00, 0x30, 0x01,
            ],
        ),
        (
            4648,
            vec![
                0x08,
            ],
        ),
        (
            4664,
            vec![
                0x3f, 0x00, 0x00, 0x00, 0x06, 0x00, 0x00, 0x00, 0x03, 0x00, 0x00, 0x00,
                0x00, 0x00, 0x00, 0x00, 0x40, 0x1f, 0x00, 0x00, 0x00, 0x00, 0x00, 0x00,
                0x40, 0x0f, 0x00, 0x00, 0x00, 0x00, 0x00, 0x00, 0xc0, 0x00, 0x00, 0x00,
                0x00, 0x00, 0x00, 0x00, 0x03, 0x00, 0x00, 0x00, 0x00, 0x00, 0x00, 0x00,
                0x08, 0x00, 0x00, 0x00, 0x00, 0x00, 0x00, 0x00, 0x10, 0x00, 0x00, 0x00,
                0x00, 0x00, 0x00, 0x00, 0x48, 0x00, 0x00, 0x00, 0x01, 0x00, 0x00, 0x00, 0x30,
            ],
        ),
        (
            4753,
            vec![
                0x10, 0x00, 0x00, 0x00, 0x00, 0x00, 0x00, 0x27,
            ],
        ),
        (
            4776,
            vec![
                0x01, 0x00, 0x00, 0x00, 0x00, 0x00, 0x00, 0x00, 0x01, 0x00, 0x00, 0x00,
                0x00, 0x00, 0x00, 0x00, 0x01, 0x00, 0x00, 0x00, 0x03,
            ],
        ),
        (
            4816,
            vec![
                0x27, 0x10, 0x00, 0x00, 0x00, 0x00, 0x00, 0x00, 0x51,
            ],
        ),
        (
            4840,
            vec![
                0x01,
            ],
        ),
    ];
    for (at, bytes) in parts {
        image[at..at + bytes.len()].copy_from_slice(&bytes);
    }
    image
}

/// A shared object like the one above, but with one function only: its
/// string table is so small that a patched table finds room before the
/// first section of the image, where it does not survive.
fn cramped_shared_object() -> Vec<u8> {
    let mut image = vec![0u8; 4856];
    let parts: Vec<(usize, Vec<u8>)> = vec![
        (
            0,
            vec![
                0x7f, 0x45, 0x4c, 0x46, 0x02, 0x01, 0x01, 0x00, 0x00, 0x00, 0x00, 0x00,
                0x00, 0x00, 0x00, 0x00, 0x03, 0x00, 0x3e, 0x00, 0x01, 0x00, 0x00, 0x00,
                0x00, 0x00, 0x00, 0x00, 0x00, 0x00, 0x00, 0x00, 0x40, 0x00, 0x00, 0x00,
                0x00, 0x00, 0x00, 0x00, 0x78, 0x10, 0x00, 0x00, 0x00, 0x00, 0x00, 0x00,
                0x00, 0x00, 0x00, 0x00, 0x40, 0x00, 0x38, 0x00, 0x06, 0x00, 0x40, 0x00,
                0x0a, 0x00, 0x09, 0x00, 0x01, 0x00, 0x00, 0x00, 0x05,
            ],
        ),
        (
            96,
            vec![
                0x34, 0x02, 0x00, 0x00, 0x00, 0x00, 0x00, 0x00, 0x34, 0x02, 0x00, 0x00,
                0x00, 0x00, 0x00, 0x00, 0x00, 0x10, 0x00, 0x00, 0x00, 0x00, 0x00, 0x00,
                0x01, 0x00, 0x00, 0x00, 0x06, 0x00, 0x00, 0x00, 0x40, 0x0f, 0x00, 0x00,
                0x00, 0x00, 0x00, 0x00, 0x40, 0x1f, 0x00, 0x00, 0x00, 0x00, 0x00, 0x00,
                0x40, 0x1f, 0x00, 0x00, 0x00, 0x00, 0x00, 0x00, 0xc0, 0x00, 0x00, 0x00,
                0x00, 0x00, 0x00, 0x00, 0xc0, 0x00, 0x00, 0x00, 0x00, 0x00, 0x00, 0x00,
                0x00, 0x10, 0x00, 0x00, 0x00, 0x00, 0x00, 0x00, 0x02, 0x00, 0x00, 0x00,
                0x06, 0x00, 0x00, 0x00, 0x40, 0x0f, 0x00, 0x00, 0x00, 0x00, 0x00, 0x00,
                0x40, 0x1f, 0x00, 0x00, 0x00, 0x00, 0x00, 0x00, 0x40, 0x1f, 0x00, 0x00,
                0x00, 0x00, 0x00, 0x00, 0xc0, 0x00, 0x00, 0x00, 0x00, 0x00, 0x00, 0x00,
                0xc0, 0x00, 0x00, 0x00, 0x00, 0x00, 0x00, 0x00, 0x08, 0x00, 0x00, 0x00,
                0x00, 0x00, 0x00, 0x00, 0x50, 0xe5, 0x74, 0x64, 0x04, 0x00, 0x00, 0x00,
                0xf4, 0x01, 0x00, 0x00, 0x00, 0x00, 0x00, 0x00, 0xf4, 0x01, 0x00, 0x00,
                0x00, 0x00, 0x00, 0x00, 0xf4, 0x01, 0x00, 0x00, 0x00, 0x00, 0x00, 0x00,
                0x14, 0x00, 0x00, 0x00, 0x00, 0x00, 0x00, 0x00, 0x14, 0x00, 0x00, 0x00,
                0x00, 0x00, 0x00, 0x00, 0x04, 0x00, 0x00, 0x00, 0x00, 0x00, 0x00, 0x00,
                0x51, 0xe5, 0x74, 0x64, 0x06,
            ],
        ),
        (
            336,
            vec![
                0x10, 0x00, 0x00, 0x00, 0x00, 0x00, 0x00, 0x00, 0x52, 0xe5, 0x74, 0x64,
                0x04, 0x00, 0x00, 0x00, 0x40, 0x0f, 0x00, 0x00, 0x00, 0x00, 0x00, 0x00,
                0x40, 0x1f, 0x00, 0x00, 0x00, 0x00, 0x00, 0x00, 0x40, 0x1f, 0x00, 0x00,
                0x00, 0x00, 0x00, 0x00, 0xc0, 0x00, 0x00, 0x00, 0x00, 0x00, 0x00, 0x00,
                0xc0, 0x00, 0x00, 0x00, 0x00, 0x00, 0x00, 0x00, 0x01, 0x00, 0x00, 0x00,
                0x00, 0x00, 0x00, 0x00, 0x01, 0x00, 0x00, 0x00, 0x02, 0x00, 0x00, 0x00, 0x01,
            ],
        ),
        (
            448,
            vec![
                0x01, 0x00, 0x00, 0x00, 0x12, 0x00, 0x04, 0x00, 0xeb, 0x01, 0x00, 0x00,
                0x00, 0x00, 0x00, 0x00, 0x06, 0x00, 0x00, 0x00, 0x00, 0x00, 0x00, 0x00,
                0x00, 0x61, 0x6e, 0x73, 0x77, 0x65, 0x72, 0x00, 0x6c, 0x69, 0x62, 0x74,
                0x69, 0x6e, 0x79, 0x2e, 0x73, 0x6f, 0x00, 0xb8, 0x2a, 0x00, 0x00, 0x00,
                0xc3, 0x00, 0x00, 0x00, 0x01, 0x1b, 0x03, 0x3b, 0x10, 0x00, 0x00, 0x00,
                0x01, 0x00, 0x00, 0x00, 0xf7, 0xff, 0xff, 0xff, 0x2c, 0x00, 0x00, 0x00,
                0x14, 0x00, 0x00, 0x00, 0x00, 0x00, 0x00, 0x00, 0x01, 0x7a, 0x52, 0x00,
                0x01, 0x78, 0x10, 0x01, 0x1b, 0x0c, 0x07, 0x08, 0x90, 0x01, 0x00, 0x00,
                0x10, 0x00, 0x00, 0x00, 0x1c, 0x00, 0x00, 0x00, 0xc3, 0xff, 0xff, 0xff, 0x06,
            ],
        ),
        (
            3904,
            vec![
                0x0e, 0x00, 0x00, 0x00, 0x00, 0x00, 0x00, 0x00, 0x08, 0x00, 0x00, 0x00,
                0x00, 0x00, 0x00, 0x00, 0x04, 0x00, 0x00, 0x00, 0x00, 0x00, 0x00, 0x00,
                0x90, 0x01, 0x00, 0x00, 0x00, 0x00, 0x00, 0x00, 0x05, 0x00, 0x00, 0x00,
                0x00, 0x00, 0x00, 0x00, 0xd8, 0x01, 0x00, 0x00, 0x00, 0x00, 0x00, 0x00,
                0x06, 0x00, 0x00, 0x00, 0x00, 0x00, 0x00, 0x00, 0xa8, 0x01, 0x00, 0x00,
                0x00, 0x00, 0x00, 0x00, 0x0a, 0x00, 0x00, 0x00, 0x00, 0x00, 0x00, 0x00,
                0x13, 0x00, 0x00, 0x00, 0x00, 0x00, 0x00, 0x00, 0x0b, 0x00, 0x00, 0x00,
                0x00, 0x00, 0x00, 0x00, 0x18,
            ],
        ),
        (
            4096,
            vec![
                0x47, 0x43, 0x43, 0x3a, 0x20, 0x28, 0x44, 0x65, 0x62, 0x69, 0x61, 0x6e,
                0x20, 0x31, 0x32, 0x2e, 0x32, 0x2e, 0x30, 0x2d, 0x31, 0x34, 0x2b, 0x64,
                0x65, 0x62, 0x31, 0x32, 0x75, 0x31, 0x29, 0x20, 0x31, 0x32, 0x2e, 0x32,
                0x2e, 0x30, 0x00, 0x00, 0x2e, 0x73, 0x68, 0x73, 0x74, 0x72, 0x74, 0x61,
                0x62, 0x00, 0x2e, 0x68, 0x61, 0x73, 0x68, 0x00, 0x2e, 0x64, 0x79, 0x6e,
                0x73, 0x79, 0x6d, 0x00, 0x2e, 0x64, 0x79, 0x6e, 0x73, 0x74, 0x72, 0x00,
                0x2e, 0x74, 0x65, 0x78, 0x74, 0x00, 0x2e, 0x65, 0x68, 0x5f, 0x66, 0x72,
                0x61, 0x6d, 0x65, 0x5f, 0x68, 0x64, 0x72, 0x00, 0x2e, 0x65, 0x68, 0x5f,
                0x66, 0x72, 0x61, 0x6d, 0x65, 0x00, 0x2e, 0x64, 0x79, 0x6e, 0x61, 0x6d,
                0x69, 0x63, 0x00, 0x2e, 0x63, 0x6f, 0x6d, 0x6d, 0x65, 0x6e, 0x74,
            ],
        ),
        (
            4280,
            vec![
                0x0b, 0x00, 0x00, 0x00, 0x05, 0x00, 0x00, 0x00, 0x02, 0x00, 0x00, 0x00,
                0x00, 0x00, 0x00, 0x00, 0x90, 0x01, 0x00, 0x00, 0x00, 0x00, 0x00, 0x00,
                0x90, 0x01, 0x00, 0x00, 0x00, 0x00, 0x00, 0x00, 0x14, 0x00, 0x00, 0x00,
                0x00, 0x00, 0x00, 0x00, 0x02, 0x00, 0x00, 0x00, 0x00, 0x00, 0x00, 0x00,
                0x08, 0x00, 0x00, 0x00, 0x00, 0x00, 0x00, 0x00, 0x04, 0x00, 0x00, 0x00,
                0x00, 0x00, 0x00, 0x00, 0x11, 0x00, 0x00, 0x00, 0x0b, 0x00, 0x00, 0x00,
                0x02, 0x00, 0x00, 0x00, 0x00, 0x00, 0x00, 0x00, 0xa8, 0x01, 0x00, 0x00,
                0x00, 0x00, 0x00, 0x00, 0xa8, 0x01, 0x00, 0x00, 0x00, 0x00, 0x00, 0x00,
                0x30, 0x00, 0x00, 0x00, 0x00, 0x00, 0x00, 0x00, 0x03, 0x00, 0x00, 0x00,
                0x01, 0x00, 0x00, 0x00, 0x08, 0x00, 0x00, 0x00, 0x00, 0x00, 0x00, 0x00,
                0x18, 0x00, 0x00, 0x00, 0x00, 0x00, 0x00, 0x00, 0x19, 0x00, 0x00, 0x00,
                0x03, 0x00, 0x00, 0x00, 0x02, 0x00, 0x00, 0x00, 0x00, 0x00, 0x00, 0x00,
                0xd8, 0x01, 0x00, 0x00, 0x00, 0x00, 0x00, 0x00, 0xd8, 0x01, 0x00, 0x00,
                0x00, 0x00, 0x00, 0x00, 0x13,
            ],
        ),
        (
            4456,
            vec![
                0x01,
            ],
        ),
        (
            4472,
            vec![
                0x21, 0x00, 0x00, 0x00, 0x01, 0x00, 0x00, 0x00, 0x06, 0x00, 0x00, 0x00,
                0x00, 0x00, 0x00, 0x00, 0xeb, 0x01, 0x00, 0x00, 0x00, 0x00, 0x00, 0x00,
                0xeb, 0x01, 0x00, 0x00, 0x00, 0x00, 0x00, 0x00, 0x06,
            ],
        ),
        (
            4520,
            vec![
                0x01,
            ],
        ),
        (
            4536,
            vec![
                0x27, 0x00, 0x00, 0x00, 0x01, 0x00, 0x00, 0x00, 0x02, 0x00, 0x00, 0x00,
                0x00, 0x00, 0x00, 0x00, 0xf4, 0x01, 0x00, 0x00, 0x00, 0x00, 0x00, 0x00,
                0xf4, 0x01, 0x00, 0x00, 0x00, 0x00, 0x00, 0x00, 0x14,
            ],
        ),
        (
            4584,
            vec![
                0x04,
            ],
        ),
        (
            4600,
            vec![
                0x35, 0x00, 0x00, 0x00, 0x01, 0x00, 0x00, 0x00, 0x02, 0x00, 0x00, 0x00,
                0x00, 0x00, 0x00, 0x00, 0x08, 0x02, 0x00, 0x00, 0x00, 0x00, 0x00, 0x00,
                0x08, 0x02, 0x00, 0x00, 0x00, 0x00, 0x00, 0x00, 0x2c,
            ],
        ),
        (
            4648,
            vec![
                0x08,
            ],
        ),
        (
            4664,
            vec![
                0x3f, 0x00, 0x00, 0x00, 0x06, 0x00, 0x00, 0x00, 0x03, 0x00, 0x00, 0x00,
                0x00, 0x00, 0x00, 0x00, 0x40, 0x1f, 0x00, 0x00, 0x00, 0x00, 0x00, 0x00,
                0x40, 0x0f, 0x00, 0x00, 0x00, 0x00, 0x00, 0x00, 0xc0, 0x00, 0x00, 0x00,
                0x00, 0x00, 0x00, 0x00, 0x03, 0x00, 0x00, 0x00, 0x00, 0x00, 0x00, 0x00,
                0x08, 0x00, 0x00, 0x00, 0x00, 0x00, 0x00, 0x00, 0x10, 0x00, 0x00, 0x00,
                0x00, 0x00, 0x00, 0x00, 0x48, 0x00, 0x00, 0x00, 0x01, 0x00, 0x00, 0x00, 0x30,
            ],
        ),
        (
            4753,
            vec![
                0x10, 0x00, 0x00, 0x00, 0x00, 0x00, 0x00, 0x27,
            ],
        ),
        (
            4776,
            vec![
                0x01, 0x00, 0x00, 0x00, 0x00, 0x00, 0x00, 0x00, 0x01, 0x00, 0x00, 0x00,
                0x00, 0x00, 0x00, 0x00, 0x01, 0x00, 0x00, 0x00, 0x03,
            ],
        ),
        (
            4816,
            vec![
                0x27, 0x10, 0x00, 0x00, 0x00, 0x00, 0x00, 0x00, 0x51,
            ],
        ),
        (
            4840,
            vec![
                0x01,
            ],
        ),
    ];
    for (at, bytes) in parts {
        image[at..at + bytes.len()].copy_from_slice(&bytes);
    }
    image
}

fn wheel_with_library(library: &[u8]) -> Vec<u8> {
    let mut buf = Cursor::new(Vec::new());
    {
        let mut zip = ZipWriter::new(&mut buf);
        let options = SimpleFileOptions::default();
        let metadata = "Metadata-Version: 2.1\nName: ext\nVersion: 1.0\n";
        let wheel = "Wheel-Version: 1.0\nGenerator: test\nRoot-Is-Purelib: false\nTag: cp311-cp311-linux_x86_64\n";
        let script = b"import ext\n";
        zip.start_file("ext/lib/libtiny.so", options).unwrap();
        zip.write_all(library).unwrap();
        zip.start_file("ext/lib/notes.so", options).unwrap();
        zip.write_all(script).unwrap();
        zip.start_file("ext/deep/down/libtiny.so", options).unwrap();
        zip.write_all(library).unwrap();
        zip.start_file("ext-1.0.dist-info/METADATA", options).unwrap();
        zip.write_all(metadata.as_bytes()).unwrap();
        zip.start_file("ext-1.0.dist-info/WHEEL", options).unwrap();
        zip.write_all(wheel.as_bytes()).unwrap();
        let record = format!(
            "ext/lib/libtiny.so,{},{}\next/lib/notes.so,{},{}\next/deep/down/libtiny.so,{},{}\next-1.0.dist-info/METADATA,{},{}\next-1.0.dist-info/WHEEL,{},{}\next-1.0.dist-info/RECORD,,\n",
            hash_content(library),
            library.len(),
            hash_content(script),
            script.len(),
            hash_content(library),
            library.len(),
            hash_content(metadata.as_bytes()),
            metadata.len(),
            hash_content(wheel.as_bytes()),
            wheel.len()
        );
        zip.start_file("ext-1.0.dist-info/RECORD", options).unwrap();
        zip.write_all(record.as_bytes()).unwrap();
        zip.finish().unwrap();
    }
    buf.into_inner()
}

#[test]
fn a_shared_object_states_its_name() {
    let info = parse_elf(&tiny_shared_object()).unwrap();
    assert_eq!(info.soname, Some("libtiny.so".to_string()));
    assert_eq!(info.rpath, None);
    assert_eq!(info.runpath, None);
    assert!(info.needed.is_empty());
    assert_eq!(get_rpath(&tiny_shared_object()).unwrap(), None);
}

#[test]
fn a_new_runpath_is_read_back() {
    let image = tiny_shared_object();
    let path = "$ORIGIN:$ORIGIN/../lib";
    let patched = modify_elf(&image, &[ElfModification::SetRunpath(path.to_string())]).unwrap();
    assert_ne!(patched, image);
    assert_eq!(get_rpath(&patched).unwrap(), Some(path.to_string()));
    assert_eq!(&patched[0..4], b"\x7fELF");
    assert_eq!(patched[4], image[4]);
    assert_eq!(patched[5], image[5]);
    assert_eq!(&patched[16..20], &image[16..20]);
    let info = parse_elf(&patched).unwrap();
    assert_eq!(info.runpath, Some(path.to_string()));
    assert_eq!(info.rpath, None);
    assert_eq!(info.soname, Some("libtiny.so".to_string()));
}

#[test]
fn a_new_rpath_is_read_back() {
    let image = tiny_shared_object();
    let patched = modify_elf(&image, &[ElfModification::SetRpath("/opt/lib".to_string())]).unwrap();
    let info = parse_elf(&patched).unwrap();
    assert_eq!(info.rpath, Some("/opt/lib".to_string()));
    assert_eq!(info.runpath, None);
    assert_eq!(get_rpath(&patched).unwrap(), Some("/opt/lib".to_string()));
}

#[test]
fn the_last_search_path_wins() {
    let image = tiny_shared_object();
    let patched = modify_elf(
        &image,
        &[
            ElfModification::SetRpath("/first".to_string()),
            ElfModification::SetRunpath("/second".to_string()),
        ],
    )
    .unwrap();
    assert_eq!(get_rpath(&patched).unwrap(), Some("/second".to_string()));
    let again = modify_elf(&patched, &[ElfModification::SetRunpath("/third".to_string())]).unwrap();
    assert_eq!(get_rpath(&again).unwrap(), Some("/third".to_string()));
}

#[test]
fn no_change_leaves_a_readable_image() {
    let image = tiny_shared_object();
    let patched = modify_elf(&image, &[]).unwrap();
    assert_eq!(get_rpath(&patched).unwrap(), None);
    assert_eq!(parse_elf(&patched).unwrap().soname, Some("libtiny.so".to_string()));
}

#[test]
fn bytes_that_are_no_image_are_refused() {
    match parse_elf(b"not an image") {
        Err(ElfError::InvalidElf(message)) => assert!(message.starts_with("Failed to parse ELF: ")),
        other => panic!("unexpected: {:?}", other),
    }
    match get_rpath(b"") {
        Err(ElfError::InvalidElf(_)) => {}
        other => panic!("unexpected: {:?}", other),
    }
    match modify_elf(b"\x7fELF", &[ElfModification::SetRunpath("/x".to_string())]) {
        Err(ElfError::InvalidElf(message)) => assert!(message.starts_with("Failed to parse ELF: ")),
        other => panic!("unexpected: {:?}", other),
    }
}

#[test]
fn a_search_path_with_a_nul_character_is_refused() {
    match modify_elf(&tiny_shared_object(), &[ElfModification::SetRunpath("a\0b".to_string())]) {
        Err(ElfError::Lief(message)) => assert_eq!(message, "Invalid search path: NUL character"),
        other => panic!("unexpected: {:?}", other),
    }
}

#[test]
fn the_editor_patches_the_members_that_a_pattern_matches() {
    let library = tiny_shared_object();
    let wheel = wheel_with_library(&library);
    let mut editor = WheelEditor::open("ext-1.0-cp311-cp311-linux_x86_64.whl", wheel.clone()).unwrap();
    assert_eq!(editor.get_rpath(wheel.clone(), "ext/lib/libtiny.so").unwrap(), None);
    let count = editor.set_rpath(wheel.clone(), "ext/lib/*.so", "$ORIGIN").unwrap();
    assert_eq!(count, 1);
    assert!(editor.has_modified_files());
    assert_eq!(editor.modified_file_paths(), vec!["ext/lib/libtiny.so"]);
    let output = editor.save(wheel.clone()).unwrap();
    let saved = WheelEditor::open("out.whl", output.clone()).unwrap();
    assert_eq!(
        saved.get_rpath(output.clone(), "ext/lib/libtiny.so").unwrap(),
        Some("$ORIGIN".to_string())
    );
    assert_eq!(saved.get_rpath(output.clone(), "ext/deep/down/libtiny.so").unwrap(), None);
    assert!(saved.validate(output).unwrap().is_valid());
}

#[test]
fn a_star_does_not_cross_a_directory_but_two_stars_do() {
    let wheel = wheel_with_library(&tiny_shared_object());
    let mut editor = WheelEditor::open("ext.whl", wheel.clone()).unwrap();
    assert_eq!(editor.set_rpath(wheel.clone(), "ext/*.so", "$ORIGIN").unwrap(), 0);
    assert_eq!(editor.set_rpath(wheel.clone(), "ext/*/*.so", "$ORIGIN").unwrap(), 1);
    assert_eq!(editor.set_rpath(wheel.clone(), "ext/**/*.so", "$ORIGIN/..").unwrap(), 2);
    assert_eq!(editor.set_rpath(wheel.clone(), "ext/lib/libtin?.so", "/a").unwrap(), 1);
    assert_eq!(editor.set_rpath(wheel.clone(), "ext/lib/[a-m]*.so", "/b").unwrap(), 1);
    let mut paths = editor.modified_file_paths();
    paths.sort();
    assert_eq!(paths, vec!["ext/deep/down/libtiny.so", "ext/lib/libtiny.so"]);
    let output = editor.save(wheel).unwrap();
    let saved = WheelEditor::open("out.whl", output.clone()).unwrap();
    assert_eq!(saved.get_rpath(output.clone(), "ext/lib/libtiny.so").unwrap(), Some("/b".to_string()));
    assert_eq!(
        saved.get_rpath(output, "ext/deep/down/libtiny.so").unwrap(),
        Some("$ORIGIN/..".to_string())
    );
}

#[test]
fn a_patch_that_does_not_take_is_a_failure() {
    let image = cramped_shared_object();
    assert_eq!(parse_elf(&image).unwrap().soname, Some("libtiny.so".to_string()));
    match modify_elf(&image, &[ElfModification::SetRunpath("$ORIGIN".to_string())]) {
        Err(ElfError::Lief(message)) => assert_eq!(message, "Search path was not set"),
        other => panic!("unexpected: {:?}", other.map(|bytes| bytes.len())),
    }
    let wheel = wheel_with_library(&image);
    let mut editor = WheelEditor::open("ext.whl", wheel.clone()).unwrap();
    assert_eq!(editor.set_rpath(wheel, "ext/lib/*.so", "$ORIGIN").unwrap(), 0);
    assert!(!editor.has_modified_files());
}

#[test]
fn an_image_with_an_unsound_layout_is_refused() {
    let mut header = vec![0u8; 64];
    header[0..4].copy_from_slice(b"\x7fELF");
    header[4] = 2;
    header[5] = 1;
    header[6] = 1;
    header[16] = 3;
    header[18] = 62;
    header[20] = 1;
    header[52] = 64;
    header[60] = 1;
    match parse_elf(&header) {
        Err(ElfError::InvalidElf(message)) => {
            assert_eq!(message, "Failed to parse ELF: The layout of the image is not sound")
        }
        other => panic!("unexpected: {:?}", other),
    }
    assert!(modify_elf(&header, &[ElfModification::SetRunpath("/x".to_string())]).is_err());
    let mut image = tiny_shared_object();
    let table = u64::from_le_bytes(image[40..48].try_into().unwrap()) as usize;
    let dynamic = (1..10).find(|i| image[table + i * 64 + 4] == 6).unwrap();
    image[table + dynamic * 64 + 32 + 7] = 0x80;
    assert!(matches!(parse_elf(&image), Err(ElfError::InvalidElf(_))));
    assert!(get_rpath(&image).is_err());
}

#[test]
fn a_patched_image_keeps_class_byte_order_and_machine() {
    let image = tiny_shared_object();
    let patched = modify_elf(&image, &[ElfModification::SetRpath("/opt".to_string())]).unwrap();
    assert_eq!(&patched[0..6], &image[0..6]);
    assert_eq!(&patched[18..20], &image[18..20]);
    let before = parse_elf(&image).unwrap();
    let after = parse_elf(&patched).unwrap();
    assert_eq!(after.needed, before.needed);
    assert_eq!(after.soname, before.soname);
}

fn dynamic_entries_of(image: &[u8]) -> Vec<(u32, u64)> {
    let mut file = std::io::Cursor::new(image);
    let elf = elb::Elf::read(&mut file, 4096).unwrap();
    let table = elf.read_dynamic_table(&mut file).unwrap().unwrap();
    table.into_inner().into_iter().map(|(tag, value)| (tag.as_u32(), value)).collect()
}

fn entries_that_stay(entries: &[(u32, u64)]) -> Vec<(u32, u64)> {
    entries.iter().copied().filter(|(tag, _)| ![15, 29, 5, 10].contains(tag)).collect()
}

#[test]
fn a_patch_keeps_the_other_dynamic_entries() {
    for path in ["$ORIGIN:$ORIGIN/../lib", "/usr/lib"] {
        let image = tiny_shared_object();
        let before = dynamic_entries_of(&image);
        let patched = modify_elf(
            &image,
            &[ElfModification::SetRunpath(path.to_string())],
        )
        .unwrap();
        let after = dynamic_entries_of(&patched);
        assert_eq!(entries_that_stay(&after), entries_that_stay(&before));
        assert!(!entries_that_stay(&before).is_empty());
        assert_eq!(after.iter().filter(|(tag, _)| *tag == 29).count(), 1);
        let again =
            modify_elf(&patched, &[ElfModification::SetRunpath("/opt/lib".to_string())]).unwrap();
        let last = dynamic_entries_of(&again);
        assert_eq!(entries_that_stay(&last), entries_that_stay(&before));
        assert_eq!(last.iter().filter(|(tag, _)| *tag == 29).count(), 1);
        assert_eq!(get_rpath(&again).unwrap(), Some("/opt/lib".to_string()));
    }
}

#[test]
fn a_new_rpath_stands_in_one_entry() {
    let image = tiny_shared_object();
    let patched = modify_elf(
        &image,
        &[
            ElfModification::SetRunpath("/first".to_string()),
            ElfModification::SetRpath("/second".to_string()),
        ],
    )
    .unwrap();
    let after = dynamic_entries_of(&patched);
    assert_eq!(after.iter().filter(|(tag, _)| *tag == 15).count(), 1);
    assert_eq!(parse_elf(&patched).unwrap().rpath, Some("/second".to_string()));
    assert_eq!(entries_that_stay(&after), entries_that_stay(&dynamic_entries_of(&image)));
}

#[test]
fn an_image_whose_names_index_is_past_its_sections_is_read_but_not_patched() {
    let mut image = tiny_shared_object();
    let sections = [image[60], image[61]];
    image[62..64].copy_from_slice(&sections);
    assert!(parse_elf(&image).is_ok());
    match modify_elf(&image, &[ElfModification::SetRunpath("/x".to_string())]) {
        Err(ElfError::InvalidElf(message)) => {
            assert_eq!(message, "The image does not allow a patch")
        }
        other => panic!("unexpected: {:?}", other),
    }
}

#[test]
fn an_image_whose_names_take_no_room_is_read_but_not_patched() {
    let mut image = tiny_shared_object();
    let table = u64::from_le_bytes(image[40..48].try_into().unwrap()) as usize;
    let names = u16::from_le_bytes([image[62], image[63]]) as usize;
    let entry = table + names * 64;
    image[entry + 4..entry + 8].copy_from_slice(&8u32.to_le_bytes());
    image[entry + 32..entry + 40].copy_from_slice(&(1u64 << 40).to_le_bytes());
    assert!(parse_elf(&image).is_ok());
    match modify_elf(&image, &[ElfModification::SetRunpath("/x".to_string())]) {
        Err(ElfError::InvalidElf(message)) => {
            assert_eq!(message, "The image does not allow a patch")
        }
        other => panic!("unexpected: {:?}", other),
    }
    match modify_elf(&image, &[]) {
        Err(ElfError::InvalidElf(message)) => {
            assert_eq!(message, "The image does not allow a patch")
        }
        other => panic!("unexpected: {:?}", other),
    }
}

#[test]
fn an_image_without_segments_is_read_but_not_patched() {
    let mut header = vec![0u8; 64];
    header[0..4].copy_from_slice(b"\x7fELF");
    header[4] = 2;
    header[5] = 1;
    header[6] = 1;
    header[16] = 1;
    header[18] = 62;
    header[20] = 1;
    header[52] = 64;
    let info = parse_elf(&header).unwrap();
    assert_eq!(info.rpath, None);
    assert_eq!(info.runpath, None);
    assert!(info.needed.is_empty());
    assert_eq!(get_rpath(&header).unwrap(), None);
    match modify_elf(&header, &[ElfModification::SetRunpath("/x".to_string())]) {
        Err(ElfError::InvalidElf(message)) => {
            assert_eq!(message, "The image does not allow a patch")
        }
        other => panic!("unexpected: {:?}", other),
    }
}

#[test]
fn an_image_with_a_segment_past_its_end_is_read_but_not_patched() {
    let mut image = tiny_shared_object();
    let table = u64::from_le_bytes(image[32..40].try_into().unwrap()) as usize;
    let count = u16::from_le_bytes([image[56], image[57]]) as usize;
    let dynamic = (0..count).find(|i| image[table + i * 56] == 2).unwrap();
    let length = image.len() as u64;
    let entry = table + dynamic * 56;
    let offset = u64::from_le_bytes(image[entry + 8..entry + 16].try_into().unwrap());
    image[entry + 32..entry + 40].copy_from_slice(&(length - offset + 1).to_le_bytes());
    assert_eq!(parse_elf(&image).unwrap().soname, parse_elf(&tiny_shared_object()).unwrap().soname);
    match modify_elf(&image, &[ElfModification::SetRunpath("/x".to_string())]) {
        Err(ElfError::InvalidElf(message)) => {
            assert_eq!(message, "The image does not allow a patch")
        }
        other => panic!("unexpected: {:?}", other),
    }
}

#[test]
fn an_image_with_an_address_past_the_limit_is_refused() {
    let mut image = tiny_shared_object();
    let table = u64::from_le_bytes(image[32..40].try_into().unwrap()) as usize;
    image[table + 16..table + 24].copy_from_slice(&(1u64 << 62).to_le_bytes());
    match parse_elf(&image) {
        Err(ElfError::InvalidElf(message)) => {
            assert_eq!(message, "Failed to parse ELF: The layout of the image is not sound")
        }
        other => panic!("unexpected: {:?}", other),
    }
}

/// The next number of a fixed sequence.
fn next_number(state: &mut u64) -> u64 {
    *state = state.wrapping_mul(6364136223846793005).wrapping_add(1442695040888963407);
    *state >> 33
}

/// The places of an image that say where its parts lie: the header, the
/// segment table, the section table and the dynamic section.
fn places_of_layout(image: &[u8]) -> Vec<usize> {
    let segments = u64::from_le_bytes(image[32..40].try_into().unwrap()) as usize;
    let segment_count = u16::from_le_bytes([image[56], image[57]]) as usize;
    let sections = u64::from_le_bytes(image[40..48].try_into().unwrap()) as usize;
    let section_count = u16::from_le_bytes([image[60], image[61]]) as usize;
    let mut places: Vec<usize> = (4..64).collect();
    places.extend(segments..segments + segment_count * 56);
    places.extend(sections..sections + section_count * 64);
    for i in 0..section_count {
        let entry = sections + i * 64;
        if image[entry + 4] == 6 {
            let start = u64::from_le_bytes(image[entry + 24..entry + 32].try_into().unwrap());
            let size = u64::from_le_bytes(image[entry + 32..entry + 40].try_into().unwrap());
            places.extend(start as usize..(start + size) as usize);
        }
    }
    places
}

/// A copy of `image` with a few of the bytes at `places` changed, or with
/// one word at one of them set to a number of note.
fn crafted_from(image: &[u8], places: &[usize], state: &mut u64) -> Vec<u8> {
    let values = [0u8, 1, 2, 3, 6, 8, 0x40, 0x7f, 0x80, 0xff];
    let words = [
        0u64,
        1,
        8,
        4095,
        4096,
        image.len() as u64 - 1,
        image.len() as u64,
        image.len() as u64 + 1,
        1 << 31,
        1 << 40,
        (1 << 62) - 1,
        1 << 62,
        1 << 63,
        u64::MAX - 4095,
        u64::MAX,
    ];
    let mut crafted = image.to_vec();
    let changes = 1 + next_number(state) % 3;
    for _ in 0..changes {
        let place = places[(next_number(state) % places.len() as u64) as usize];
        match next_number(state) % 3 {
            0 => crafted[place] = values[(next_number(state) % values.len() as u64) as usize],
            1 => crafted[place] = next_number(state) as u8,
            _ => {
                let at = place - place % 8;
                let word = words[(next_number(state) % words.len() as u64) as usize];
                if at + 8 <= crafted.len() {
                    crafted[at..at + 8].copy_from_slice(&word.to_le_bytes());
                }
            }
        }
    }
    crafted
}

#[test]
fn crafted_images_are_refused_or_patched() {
    let tiny = tiny_shared_object();
    let again = modify_elf(&tiny, &[ElfModification::SetRunpath("/first".to_string())]).unwrap();
    let mut state = 7u64;
    let mut patched = 0;
    let mut refused = 0;
    for image in [tiny, again, cramped_shared_object()] {
        let places = places_of_layout(&image);
        for _ in 0..4000 {
            let crafted = crafted_from(&image, &places, &mut state);
            let read = parse_elf(&crafted);
            assert_eq!(get_rpath(&crafted).is_ok(), read.is_ok());
            let change = if next_number(&mut state) % 4 == 0 {
                ElfModification::SetRpath("/opt/lib".to_string())
            } else {
                ElfModification::SetRunpath("$ORIGIN/lib".to_string())
            };
            match modify_elf(&crafted, &[change]) {
                Ok(bytes) => {
                    patched += 1;
                    assert!(read.is_ok());
                    assert!(get_rpath(&bytes).unwrap().is_some());
                }
                Err(_) => refused += 1,
            }
            let _ = modify_elf(&crafted, &[]);
        }
    }
    assert!(patched > 0);
    assert!(refused > 0);
}
