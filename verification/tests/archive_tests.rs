//! Tests for whole archives, the exact wire format, and malformed input.

use cpio::newc::{Builder, Error, ModeFileType, Reader};
use cpio::stream::ByteStream;
use cpio::{write_cpio, NewcBuilder};

/// One encoded entry: "./hello_world" with 12 payload bytes, no trailer.
fn hello_world_entry() -> Vec<u8> {
    let b = Builder::new("./hello_world")
        .ino(1)
        .uid(1000)
        .gid(1000)
        .mode(0o100644);
    let mut writer = b.write(vec![], 12);
    writer.write(b"Hello, World").unwrap();
    writer.finish().unwrap()
}

#[test]
fn lib_test_multi_file() {
    // Set up our input files
    let input = vec![
        (
            NewcBuilder::new("./hello_world")
                .uid(1000)
                .gid(1000)
                .mode(0o100644),
            "Hello, World".to_string().into_bytes(),
        ),
        (
            NewcBuilder::new("./hello_world2")
                .uid(1000)
                .gid(1000)
                .mode(0o100644),
            "Hello, World 2".to_string().into_bytes(),
        ),
    ];

    // Set up our output file
    let output = vec![];

    // Write out the CPIO archive
    let _ = write_cpio(input, output).unwrap();
}

#[test]
fn test_write_cpio_read_back() {
    let input = vec![
        (
            NewcBuilder::new("./hello_world").uid(1000).mode(0o100644),
            b"Hello, World".to_vec(),
        ),
        (
            NewcBuilder::new("./hello_world2").uid(1000).mode(0o100644),
            b"Hello, World 2".to_vec(),
        ),
    ];
    let archive = write_cpio(input, vec![]).unwrap();

    let mut reader = Reader::new(ByteStream::new(archive)).unwrap();
    assert_eq!(reader.entry().name(), "./hello_world");
    assert_eq!(reader.entry().ino(), 0); // inode numbers come from the index
    assert_eq!(reader.entry().file_size(), 12);
    assert_eq!(reader.read(4096), b"Hello, World");

    let mut reader = Reader::new(reader.finish().unwrap()).unwrap();
    assert_eq!(reader.entry().name(), "./hello_world2");
    assert_eq!(reader.entry().ino(), 1);
    assert_eq!(reader.read(4096), b"Hello, World 2");

    let reader = Reader::new(reader.finish().unwrap()).unwrap();
    assert!(reader.entry().is_trailer());
}

#[test]
fn test_exact_header_bytes() {
    let output = hello_world_entry();
    let expected: Vec<u8> = [
        &b"070701"[..],        // magic, "new ascii" variant
        b"00000001",           // ino
        b"000081a4",           // mode 0o100644
        b"000003e8",           // uid 1000
        b"000003e8",           // gid 1000
        b"00000001",           // nlink
        b"00000000",           // mtime
        b"0000000c",           // filesize 12
        b"00000000",           // devmajor
        b"00000000",           // devminor
        b"00000000",           // rdevmajor
        b"00000000",           // rdevminor
        b"0000000e",           // namesize 14, NUL included
        b"00000000",           // check
        b"./hello_world\0",    // name; 110 + 14 is already 4-byte aligned
        b"Hello, World",       // payload; 124 + 12 is already aligned
    ]
    .concat();
    assert_eq!(output, expected);
}

#[test]
fn test_exact_trailer_bytes() {
    let output = cpio::newc::trailer(vec![]).unwrap();
    let expected: Vec<u8> = [
        &b"070701"[..],
        b"00000000",     // ino
        b"00000000",     // mode
        b"00000000",     // uid
        b"00000000",     // gid
        b"00000001",     // nlink
        b"00000000",     // mtime
        b"00000000",     // filesize
        b"00000000",     // devmajor
        b"00000000",     // devminor
        b"00000000",     // rdevmajor
        b"00000000",     // rdevminor
        b"0000000b",     // namesize 11
        b"00000000",     // check
        b"TRAILER!!!\0", // sentinel name
        b"\0\0\0",       // padding: 110 + 11 rounds up to 124
    ]
    .concat();
    assert_eq!(output, expected);
}

#[test]
fn test_exact_crc_header_bytes() {
    let b = Builder::new("./c").mtime(0x5f000000);
    let mut writer = b.write_crc(vec![], 3, 0xdeadbeef);
    writer.write(b"abc").unwrap();
    writer.flush().unwrap();
    let output = writer.finish().unwrap();
    let expected: Vec<u8> = [
        &b"070702"[..], // magic, "new crc" variant
        b"00000000",    // ino
        b"00000000",    // mode
        b"00000000",    // uid
        b"00000000",    // gid
        b"00000001",    // nlink
        b"5f000000",    // mtime
        b"00000003",    // filesize
        b"00000000",    // devmajor
        b"00000000",    // devminor
        b"00000000",    // rdevmajor
        b"00000000",    // rdevminor
        b"00000004",    // namesize 4
        b"deadbeef",    // check
        b"./c\0",       // name
        b"\0\0",        // padding: 110 + 4 rounds up to 116
        b"abc",         // payload
        b"\0",          // padding: 116 + 3 rounds up to 120
    ]
    .concat();
    assert_eq!(output, expected);
}

#[test]
fn test_padding_after_name_and_payload() {
    // namesize 5: header+name is 115 bytes, so one zero byte of padding;
    // payload 3: 116 + 3 is 119, so one more zero byte at the end.
    let b = Builder::new("./ab");
    let mut writer = b.write(vec![], 3);
    writer.write(b"xyz").unwrap();
    let output = writer.finish().unwrap();
    assert_eq!(output.len(), 120);
    assert_eq!(&output[110..116], b"./ab\0\0");
    assert_eq!(&output[116..119], b"xyz");
    assert_eq!(output[119], 0);
}

#[test]
fn test_write_more_than_declared_fails() {
    let b = Builder::new("./five");
    let mut writer = b.write(vec![], 5);
    assert!(matches!(writer.write(b"123456"), Err(Error::ExceedsDeclaredSize)));
    assert_eq!(writer.write(b"123").unwrap(), 3);
    assert!(matches!(writer.write(b"456"), Err(Error::ExceedsDeclaredSize)));
    assert_eq!(writer.write(b"45").unwrap(), 2);
    assert!(matches!(writer.write(b"x"), Err(Error::ExceedsDeclaredSize)));
    let output = writer.finish().unwrap();
    // 110 + 7 name bytes rounds up to 120; 120 + 5 payload bytes rounds up
    // to 128 with three zero bytes of padding.
    assert_eq!(output.len(), 128);
    assert_eq!(&output[117..125], b"\0\0\012345");
    assert_eq!(&output[125..128], b"\0\0\0");
}

#[test]
fn test_skip_lands_on_next_header() {
    let mut writer = Builder::new("./hello_world").write(vec![], 12);
    writer.write(b"Hello, World").unwrap();
    let output = writer.finish().unwrap();
    let first_len = output.len(); // 124 header + 12 payload, already aligned
    assert_eq!(first_len, 136);

    let mut writer = Builder::new("./hello_world2").write(output, 14);
    writer.write(b"Hello, World 2").unwrap();
    let output = writer.finish().unwrap();
    let output = cpio::newc::trailer(output).unwrap();

    let reader = Reader::new(ByteStream::new(output)).unwrap();
    assert_eq!(reader.entry().name(), "./hello_world");
    let stream = reader.skip().unwrap();
    assert_eq!(stream.offset(), first_len);

    let reader = Reader::new(stream).unwrap();
    assert_eq!(reader.entry().name(), "./hello_world2");
    assert_eq!(reader.entry().file_size(), 14);
}

#[test]
fn test_reader_offset_reports_position() {
    let output = hello_world_entry();
    let mut reader = Reader::new(ByteStream::new(output)).unwrap();
    assert_eq!(reader.offset(), 124); // positioned right after header + name
    let _ = reader.read(6);
    assert_eq!(reader.offset(), 130);
}

#[test]
fn test_malformed_magic_fails() {
    let mut data = hello_world_entry();
    data[0] = b'Z';
    assert!(matches!(
        Reader::new(ByteStream::new(data)),
        Err(Error::InvalidFormat)
    ));

    let junk = b"ABCDEF and then some more bytes, none of them a header".to_vec();
    assert!(matches!(
        Reader::new(ByteStream::new(junk)),
        Err(Error::InvalidFormat)
    ));
}

#[test]
fn test_name_without_nul_fails() {
    let mut data = hello_world_entry();
    // The name field is bytes 110..124; its last byte must be NUL.
    assert_eq!(data[123], 0);
    data[123] = b'x';
    assert!(matches!(
        Reader::new(ByteStream::new(data)),
        Err(Error::InvalidFormat)
    ));
}

#[test]
fn test_non_hex_field_fails() {
    let mut data = hello_world_entry();
    data[10] = b'z'; // inside the ino field
    assert!(matches!(
        Reader::new(ByteStream::new(data)),
        Err(Error::InvalidFormat)
    ));
}

#[test]
fn test_truncated_header_fails() {
    let data = b"0707".to_vec();
    assert!(matches!(
        Reader::new(ByteStream::new(data)),
        Err(Error::Truncated)
    ));

    let mut data = hello_world_entry();
    data.truncate(50); // stream ends inside the numeric fields
    assert!(matches!(
        Reader::new(ByteStream::new(data)),
        Err(Error::Truncated)
    ));

    let mut data = hello_world_entry();
    data.truncate(115); // stream ends inside the name
    assert!(matches!(
        Reader::new(ByteStream::new(data)),
        Err(Error::Truncated)
    ));
}

#[test]
fn test_finish_truncated_padding_fails() {
    // A header declaring 99 payload bytes, none of which are present: the
    // payload remainder is discarded silently, but the missing pad byte
    // (99 rounds up to 100) is an error.
    let header: Vec<u8> = [
        &b"070701"[..],
        b"00000000", // ino
        b"00000000", // mode
        b"00000000", // uid
        b"00000000", // gid
        b"00000001", // nlink
        b"00000000", // mtime
        b"00000063", // filesize 99
        b"00000000",
        b"00000000",
        b"00000000",
        b"00000000",
        b"00000002", // namesize 2
        b"00000000", // check
        b"a\0",      // name; 110 + 2 is already 4-byte aligned
    ]
    .concat();
    let reader = Reader::new(ByteStream::new(header)).unwrap();
    assert_eq!(reader.entry().file_size(), 99);
    assert!(matches!(reader.finish(), Err(Error::Truncated)));
}

#[test]
fn test_overpadded_name_is_tolerated() {
    // Some producers pad the name with extra NUL bytes beyond the
    // mandatory terminator; the reader strips them.
    let data: Vec<u8> = [
        &b"070701"[..],
        b"00000000",
        b"00000000",
        b"00000000",
        b"00000000",
        b"00000001",
        b"00000000",
        b"00000000", // filesize 0
        b"00000000",
        b"00000000",
        b"00000000",
        b"00000000",
        b"00000008", // namesize 8: "ab" plus six NULs
        b"00000000",
        b"ab\0\0\0\0\0\0",
        b"\0\0", // padding: 110 + 8 rounds up to 120
    ]
    .concat();
    let reader = Reader::new(ByteStream::new(data)).unwrap();
    assert_eq!(reader.entry().name(), "ab");
}

#[test]
fn test_uppercase_hex_is_accepted() {
    let data: Vec<u8> = [
        &b"070701"[..],
        b"0000000A", // ino 10
        b"00000000",
        b"00000000",
        b"00000000",
        b"00000001",
        b"00000000",
        b"0000000C", // filesize 12
        b"00000000",
        b"00000000",
        b"00000000",
        b"00000000",
        b"00000002", // namesize 2
        b"00000000",
        b"a\0", // name; 110 + 2 is already 4-byte aligned
    ]
    .concat();
    let reader = Reader::new(ByteStream::new(data)).unwrap();
    assert_eq!(reader.entry().ino(), 10);
    assert_eq!(reader.entry().file_size(), 12);
}

#[test]
fn test_zero_namesize_fails() {
    // A namesize of zero leaves no room for the mandatory NUL terminator.
    let data: Vec<u8> = [
        &b"070701"[..],
        b"00000000",
        b"00000000",
        b"00000000",
        b"00000000",
        b"00000001",
        b"00000000",
        b"00000000",
        b"00000000",
        b"00000000",
        b"00000000",
        b"00000000",
        b"00000000", // namesize 0
        b"00000000",
        b"\0\0", // padding: 110 + 0 rounds up to 112
    ]
    .concat();
    assert!(matches!(
        Reader::new(ByteStream::new(data)),
        Err(Error::InvalidFormat)
    ));
}

#[test]
fn test_invalid_utf8_name_fails() {
    let data: Vec<u8> = [
        &b"070701"[..],
        b"00000000",
        b"00000000",
        b"00000000",
        b"00000000",
        b"00000001",
        b"00000000",
        b"00000000",
        b"00000000",
        b"00000000",
        b"00000000",
        b"00000000",
        b"00000004", // namesize 4
        b"00000000",
        b"\xff\xfe\xff\0",
        b"\0\0", // padding: 110 + 4 rounds up to 116
    ]
    .concat();
    assert!(matches!(
        Reader::new(ByteStream::new(data)),
        Err(Error::InvalidFormat)
    ));
}

#[test]
fn test_mode_file_type_bits() {
    assert_eq!(ModeFileType::Fifo.bits(), 0o010000);
    assert_eq!(ModeFileType::Char.bits(), 0o020000);
    assert_eq!(ModeFileType::Directory.bits(), 0o040000);
    assert_eq!(ModeFileType::Block.bits(), 0o060000);
    assert_eq!(ModeFileType::Regular.bits(), 0o100000);
    assert_eq!(ModeFileType::NetworkSpecial.bits(), 0o110000);
    assert_eq!(ModeFileType::Symlink.bits(), 0o120000);
    assert_eq!(ModeFileType::Socket.bits(), 0o140000);

    // The type setter clears old type bits and keeps the permission bits.
    let b = Builder::new("./dev")
        .mode(0o100644)
        .set_mode_file_type(ModeFileType::Block);
    let writer = b.write(vec![], 0);
    let output = writer.finish().unwrap();
    let reader = Reader::new(ByteStream::new(output)).unwrap();
    assert_eq!(reader.entry().mode(), 0o060644);
}
