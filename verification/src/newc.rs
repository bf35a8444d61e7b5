//! Read/write `newc` (SVR4) format archives.
//!
//! An archive is a sequence of entries, each a 110-byte ASCII-hex header,
//! a NUL-terminated name padded to 4-byte alignment, and a payload padded to
//! 4-byte alignment, followed by one trailer entry whose name is the sentinel
//! `"TRAILER!!!"`.

use vstd::prelude::*;
use vstd::utf8::{decode_utf8, encode_utf8, is_ascii_chars, is_ascii_chars_encode_utf8, valid_utf8};

use crate::hex::{hex8, hex8_value, valid_hex8};
use crate::stream::ByteStream;

verus! {

/// Length of the fixed part of a header: 6 byte magic number plus 13 fields
/// of 8 hex digits each.
pub const HEADER_LEN: usize = 110;

/// Name of the sentinel entry that ends an archive.
pub const TRAILER_NAME: &'static str = "TRAILER!!!";

/// What can go wrong while encoding or decoding an archive.
#[derive(Clone, Copy, Debug, PartialEq, Eq, Structural)]
pub enum Error {
    /// A header is malformed: bad magic number, a field that is not hex,
    /// a name that is not NUL-terminated, or a name that is not UTF-8.
    InvalidFormat,
    /// The stream ended in the middle of a header, a payload, or padding.
    Truncated,
    /// More payload bytes were written than the size declared to the writer.
    ExceedsDeclaredSize,
}

/// The magic number that opens a header without a checksum: `"070701"`.
pub open spec fn magic_newc() -> Seq<u8> {
    seq![0x30u8, 0x37u8, 0x30u8, 0x37u8, 0x30u8, 0x31u8]
}

/// The magic number that opens a header with a checksum: `"070702"`.
pub open spec fn magic_crc() -> Seq<u8> {
    seq![0x30u8, 0x37u8, 0x30u8, 0x37u8, 0x30u8, 0x32u8]
}

/// How many zero bytes follow a region of `l` bytes to reach a multiple of 4.
pub open spec fn pad_len(l: int) -> int {
    (4 - l % 4) % 4
}

/// The zero bytes that pad a region of `l` bytes to a multiple of 4.
pub open spec fn zero_pad(l: int) -> Seq<u8> {
    Seq::new(pad_len(l) as nat, |i: int| 0u8)
}

/// Padding law: after a region of `l` bytes, exactly `(4 - l % 4) % 4` zero
/// bytes are written, and they complete the region to a multiple of 4.
pub proof fn lemma_pad_aligns(l: int)
    requires
        l >= 0,
    ensures
        0 <= pad_len(l) < 4,
        (l + pad_len(l)) % 4 == 0,
{
}

/// Metadata of one archive entry, as parsed from a header.
pub ghost struct EntryV {
    /// True when the header carried the `"070702"` magic and so a checksum.
    pub crc: bool,
    pub name: Seq<char>,
    pub ino: u32,
    pub mode: u32,
    pub uid: u32,
    pub gid: u32,
    pub nlink: u32,
    pub mtime: u32,
    pub file_size: u32,
    pub dev_major: u32,
    pub dev_minor: u32,
    pub rdev_major: u32,
    pub rdev_minor: u32,
    pub checksum: u32,
}

/// Metadata of one entry about to be written.
pub ghost struct BuilderV {
    pub name: Seq<char>,
    pub ino: u32,
    pub mode: u32,
    pub uid: u32,
    pub gid: u32,
    pub nlink: u32,
    pub mtime: u32,
    pub dev_major: u32,
    pub dev_minor: u32,
    pub rdev_major: u32,
    pub rdev_minor: u32,
}

/// The value stored in the `namesize` field: the name's UTF-8 byte length
/// plus one for the mandatory NUL terminator.
pub open spec fn name_size(name: Seq<char>) -> int {
    encode_utf8(name).len() as int + 1
}

/// The header region for entry metadata `b`: magic, 13 hex fields, the name
/// with its NUL terminator, and zero padding to 4-byte alignment.
pub open spec fn header_bytes(b: BuilderV, file_size: u32, checksum: Option<u32>) -> Seq<u8> {
    let name_bytes = encode_utf8(b.name);
    let ns = name_size(b.name);
    (if checksum is Some {
        magic_crc()
    } else {
        magic_newc()
    }) + hex8(b.ino) + hex8(b.mode) + hex8(b.uid) + hex8(b.gid) + hex8(b.nlink) + hex8(b.mtime)
        + hex8(file_size) + hex8(b.dev_major) + hex8(b.dev_minor) + hex8(b.rdev_major) + hex8(
        b.rdev_minor,
    ) + hex8(ns as u32) + hex8(
        match checksum {
            Some(c) => c,
            None => 0u32,
        },
    ) + name_bytes + seq![0u8] + zero_pad(HEADER_LEN + ns)
}

/// The whole header+name region is a multiple of 4 bytes long.
pub proof fn lemma_header_bytes_aligned(b: BuilderV, file_size: u32, checksum: Option<u32>)
    requires
        0 <= name_size(b.name),
    ensures
        header_bytes(b, file_size, checksum).len() == HEADER_LEN + name_size(b.name) + pad_len(
            HEADER_LEN + name_size(b.name),
        ),
        header_bytes(b, file_size, checksum).len() % 4 == 0,
{
    lemma_pad_aligns(HEADER_LEN + name_size(b.name));
}

/// What one attempt to parse a header from the front of `d` yields.
pub ghost enum HeaderParse {
    /// A complete well-formed header occupying the first `len` bytes of `d`.
    Parsed { entry: EntryV, len: int },
    /// The bytes at hand are not a `newc` header.
    Invalid,
    /// `d` ends before the header does.
    Short,
}

/// The bytes of numeric field `i` (0 through 12) of a header at the front of `d`.
pub open spec fn field_bytes(d: Seq<u8>, i: int) -> Seq<u8> {
    d.subrange(6 + 8 * i, 14 + 8 * i)
}

/// The value of numeric field `i` of a header at the front of `d`.
pub open spec fn field_value(d: Seq<u8>, i: int) -> u32 {
    hex8_value(field_bytes(d, i)) as u32
}

/// Scans the numeric fields from `i` upward, in the order a reader meets
/// them, for one that is cut short or is not hex.
pub open spec fn scan_fields(d: Seq<u8>, i: int) -> HeaderParse
    decreases 13 - i,
{
    if i >= 13 {
        HeaderParse::Parsed { entry: arbitrary_entry(), len: 0 }
    } else if d.len() < 14 + 8 * i {
        HeaderParse::Short
    } else if !valid_hex8(field_bytes(d, i)) {
        HeaderParse::Invalid
    } else {
        scan_fields(d, i + 1)
    }
}

/// A placeholder entry; `scan_fields` only reports which outcome was met.
pub open spec fn arbitrary_entry() -> EntryV {
    EntryV {
        crc: false,
        name: Seq::empty(),
        ino: 0,
        mode: 0,
        uid: 0,
        gid: 0,
        nlink: 0,
        mtime: 0,
        file_size: 0,
        dev_major: 0,
        dev_minor: 0,
        rdev_major: 0,
        rdev_minor: 0,
        checksum: 0,
    }
}

/// `s` without any trailing NUL bytes.
pub open spec fn strip_trailing_nuls(s: Seq<u8>) -> Seq<u8>
    decreases s.len(),
{
    if s.len() > 0 && s.last() == 0 {
        strip_trailing_nuls(s.drop_last())
    } else {
        s
    }
}

/// Parses one header from the front of `d`, step for step in the order a
/// sequential reader meets the data: the magic number, the 13 numeric
/// fields, the NUL-terminated name (tolerating names over-padded with extra
/// NULs), and the alignment padding after the name.
pub open spec fn parse_header(d: Seq<u8>) -> HeaderParse {
    if d.len() < 6 {
        HeaderParse::Short
    } else if d.take(6) != magic_newc() && d.take(6) != magic_crc() {
        HeaderParse::Invalid
    } else {
        match scan_fields(d, 0) {
            HeaderParse::Short => HeaderParse::Short,
            HeaderParse::Invalid => HeaderParse::Invalid,
            HeaderParse::Parsed { .. } => {
                let ns = field_value(d, 11) as int;
                if d.len() < 110 + ns {
                    HeaderParse::Short
                } else {
                    let name_field = d.subrange(110, 110 + ns);
                    if ns == 0 || name_field.last() != 0 {
                        HeaderParse::Invalid
                    } else {
                        let stripped = strip_trailing_nuls(name_field.drop_last());
                        if !valid_utf8(stripped) {
                            HeaderParse::Invalid
                        } else if d.len() < 110 + ns + pad_len(110 + ns) {
                            HeaderParse::Short
                        } else {
                            HeaderParse::Parsed {
                                entry: EntryV {
                                    crc: d.take(6) == magic_crc(),
                                    name: decode_utf8(stripped),
                                    ino: field_value(d, 0),
                                    mode: field_value(d, 1),
                                    uid: field_value(d, 2),
                                    gid: field_value(d, 3),
                                    nlink: field_value(d, 4),
                                    mtime: field_value(d, 5),
                                    file_size: field_value(d, 6),
                                    dev_major: field_value(d, 7),
                                    dev_minor: field_value(d, 8),
                                    rdev_major: field_value(d, 9),
                                    rdev_minor: field_value(d, 10),
                                    checksum: field_value(d, 12),
                                },
                                len: 110 + ns + pad_len(110 + ns),
                            }
                        }
                    }
                }
            },
        }
    }
}

/// Round-trip law: parsing an encoded header yields exactly the metadata it
/// was encoded from — the same name, every numeric field, and the checksum
/// exactly when the checksum variant was used — and consumes exactly the
/// header region, leaving whatever follows it untouched.
///
/// The one family of names left out: a name whose UTF-8 form ends in a NUL
/// byte, which decoding would mistake for name padding and strip.
pub proof fn lemma_header_roundtrip(
    b: BuilderV,
    file_size: u32,
    checksum: Option<u32>,
    rest: Seq<u8>,
)
    requires
        name_size(b.name) <= 0xffff_ffff,
        encode_utf8(b.name).len() == 0 || encode_utf8(b.name).last() != 0,
    ensures
        parse_header(header_bytes(b, file_size, checksum) + rest) == (HeaderParse::Parsed {
            entry: EntryV {
                crc: checksum is Some,
                name: b.name,
                ino: b.ino,
                mode: b.mode,
                uid: b.uid,
                gid: b.gid,
                nlink: b.nlink,
                mtime: b.mtime,
                file_size,
                dev_major: b.dev_major,
                dev_minor: b.dev_minor,
                rdev_major: b.rdev_major,
                rdev_minor: b.rdev_minor,
                checksum: match checksum {
                    Some(c) => c,
                    None => 0u32,
                },
            },
            len: header_bytes(b, file_size, checksum).len() as int,
        }),
{
    let h = header_bytes(b, file_size, checksum);
    let d = h + rest;
    let nb = encode_utf8(b.name);
    let ns = name_size(b.name);
    let check = match checksum {
        Some(c) => c,
        None => 0u32,
    };
    lemma_header_bytes_aligned(b, file_size, checksum);
    lemma_pad_aligns(HEADER_LEN + ns);

    // the magic number
    if checksum is Some {
        assert(d.take(6) =~= magic_crc());
    } else {
        assert(d.take(6) =~= magic_newc());
    }
    assert(magic_newc()[5] == 0x31 && magic_crc()[5] == 0x32);
    assert(magic_newc() != magic_crc());

    // the 13 numeric fields hold the hex digits of the encoded values
    assert(field_bytes(d, 0) =~= hex8(b.ino));
    assert(field_bytes(d, 1) =~= hex8(b.mode));
    assert(field_bytes(d, 2) =~= hex8(b.uid));
    assert(field_bytes(d, 3) =~= hex8(b.gid));
    assert(field_bytes(d, 4) =~= hex8(b.nlink));
    assert(field_bytes(d, 5) =~= hex8(b.mtime));
    assert(field_bytes(d, 6) =~= hex8(file_size));
    assert(field_bytes(d, 7) =~= hex8(b.dev_major));
    assert(field_bytes(d, 8) =~= hex8(b.dev_minor));
    assert(field_bytes(d, 9) =~= hex8(b.rdev_major));
    assert(field_bytes(d, 10) =~= hex8(b.rdev_minor));
    assert(field_bytes(d, 11) =~= hex8(ns as u32));
    assert(field_bytes(d, 12) =~= hex8(check));
    crate::hex::lemma_hex8_roundtrip(b.ino);
    crate::hex::lemma_hex8_roundtrip(b.mode);
    crate::hex::lemma_hex8_roundtrip(b.uid);
    crate::hex::lemma_hex8_roundtrip(b.gid);
    crate::hex::lemma_hex8_roundtrip(b.nlink);
    crate::hex::lemma_hex8_roundtrip(b.mtime);
    crate::hex::lemma_hex8_roundtrip(file_size);
    crate::hex::lemma_hex8_roundtrip(b.dev_major);
    crate::hex::lemma_hex8_roundtrip(b.dev_minor);
    crate::hex::lemma_hex8_roundtrip(b.rdev_major);
    crate::hex::lemma_hex8_roundtrip(b.rdev_minor);
    crate::hex::lemma_hex8_roundtrip(ns as u32);
    crate::hex::lemma_hex8_roundtrip(check);
    assert(scan_fields(d, 0) is Parsed) by {
        reveal_with_fuel(scan_fields, 14);
    }
    assert(field_value(d, 11) == ns as u32);

    // the name region: the name bytes, the NUL terminator, and nothing else
    assert(d.subrange(110, 110 + ns) =~= nb + seq![0u8]);
    let name_field = d.subrange(110, 110 + ns);
    assert(ns > 0 && name_field.last() == 0);
    assert(name_field.drop_last() =~= nb);
    assert(strip_trailing_nuls(nb) == nb);
    vstd::utf8::encode_utf8_valid_utf8(b.name);
    vstd::utf8::encode_utf8_decode_utf8(b.name);

    assert(d.len() >= 110 + ns + pad_len(110 + ns));
    assert(parse_header(d) == HeaderParse::Parsed {
        entry: EntryV {
            crc: checksum is Some,
            name: b.name,
            ino: b.ino,
            mode: b.mode,
            uid: b.uid,
            gid: b.gid,
            nlink: b.nlink,
            mtime: b.mtime,
            file_size,
            dev_major: b.dev_major,
            dev_minor: b.dev_minor,
            rdev_major: b.rdev_major,
            rdev_minor: b.rdev_minor,
            checksum: check,
        },
        len: h.len() as int,
    });
}

/// Round-trip law for a whole entry: parsing the bytes of an encoded entry
/// yields its metadata with the payload's length as file size, and the
/// payload bytes sit unchanged right after the parsed header region.
pub proof fn lemma_entry_roundtrip(b: BuilderV, data: Seq<u8>, rest: Seq<u8>)
    requires
        name_size(b.name) <= 0xffff_ffff,
        encode_utf8(b.name).len() == 0 || encode_utf8(b.name).last() != 0,
        data.len() <= 0xffff_ffff,
    ensures
        ({
            let h = header_bytes(b, data.len() as u32, None);
            let d = entry_bytes(b, data) + rest;
            &&& parse_header(d) matches HeaderParse::Parsed { entry, len } && entry == (EntryV {
                crc: false,
                name: b.name,
                ino: b.ino,
                mode: b.mode,
                uid: b.uid,
                gid: b.gid,
                nlink: b.nlink,
                mtime: b.mtime,
                file_size: data.len() as u32,
                dev_major: b.dev_major,
                dev_minor: b.dev_minor,
                rdev_major: b.rdev_major,
                rdev_minor: b.rdev_minor,
                checksum: 0u32,
            }) && len == h.len() as int
            &&& d.subrange(h.len() as int, h.len() + data.len() as int) == data
        }),
{
    let h = header_bytes(b, data.len() as u32, None);
    let d = entry_bytes(b, data) + rest;
    lemma_header_roundtrip(b, data.len() as u32, None, data + zero_pad(
        h.len() + data.len() as int,
    ) + rest);
    assert(d =~= h + (data + zero_pad(h.len() + data.len() as int) + rest));
    assert(d.subrange(h.len() as int, h.len() + data.len() as int) =~= data);
}

/// Relies on `String::from_utf8`: it succeeds exactly on valid UTF-8 input
/// and returns the string of the characters that input encodes.
#[verifier::external_body]
fn bytes_to_string(bytes: Vec<u8>) -> (r: Option<String>)
    ensures
        r is Some <==> valid_utf8(bytes@),
        r is Some ==> r->0@ == decode_utf8(bytes@),
{
    match String::from_utf8(bytes) {
        Ok(s) => Some(s),
        Err(_) => None,
    }
}

/// Reads one 8-hex-digit header field and returns the number it denotes.
fn read_hex_u32(reader: &mut ByteStream) -> (r: Result<u32, Error>)
    requires
        old(reader).wf(),
    ensures
        final(reader).wf(),
        final(reader).bytes() == old(reader).bytes(),
        old(reader).remaining().len() < 8 ==> r == Err::<u32, Error>(Error::Truncated)
            && *final(reader) == *old(reader),
        old(reader).remaining().len() >= 8 && !valid_hex8(old(reader).remaining().take(8)) ==> r
            == Err::<u32, Error>(Error::InvalidFormat),
        old(reader).remaining().len() >= 8 && valid_hex8(old(reader).remaining().take(8)) ==> r
            == Ok::<u32, Error>(hex8_value(old(reader).remaining().take(8)) as u32)
            && final(reader).position() == old(reader).position() + 8,
{
    match reader.read_exact(8) {
        Some(bytes) => match crate::hex::parse_hex8(bytes.as_slice()) {
            Some(v) => Ok(v),
            None => Err(Error::InvalidFormat),
        },
        None => Err(Error::Truncated),
    }
}

/// Metadata about one entry read from an archive.
#[derive(Clone)]
pub struct Entry {
    crc: bool,
    name: String,
    ino: u32,
    mode: u32,
    uid: u32,
    gid: u32,
    nlink: u32,
    mtime: u32,
    file_size: u32,
    dev_major: u32,
    dev_minor: u32,
    rdev_major: u32,
    rdev_minor: u32,
    checksum: u32,
}

impl View for Entry {
    type V = EntryV;

    closed spec fn view(&self) -> EntryV {
        EntryV {
            crc: self.crc,
            name: self.name@,
            ino: self.ino,
            mode: self.mode,
            uid: self.uid,
            gid: self.gid,
            nlink: self.nlink,
            mtime: self.mtime,
            file_size: self.file_size,
            dev_major: self.dev_major,
            dev_minor: self.dev_minor,
            rdev_major: self.rdev_major,
            rdev_minor: self.rdev_minor,
            checksum: self.checksum,
        }
    }
}

impl Entry {
    /// Returns the name of the file.
    pub fn name(&self) -> (r: &str)
        ensures
            r@ == self@.name,
    {
        self.name.as_str()
    }

    /// Returns the inode number of the file. Sometimes this is just an index.
    pub fn ino(&self) -> (r: u32)
        ensures
            r == self@.ino,
    {
        self.ino
    }

    /// Returns the file's "mode" - the same as an inode "mode" field -
    /// containing permission bits and a bit of metadata about the type of
    /// file represented.
    pub fn mode(&self) -> (r: u32)
        ensures
            r == self@.mode,
    {
        self.mode
    }

    /// Returns the UID for this file's owner.
    pub fn uid(&self) -> (r: u32)
        ensures
            r == self@.uid,
    {
        self.uid
    }

    /// Returns the GID for this file's group.
    pub fn gid(&self) -> (r: u32)
        ensures
            r == self@.gid,
    {
        self.gid
    }

    /// Returns the number of links associated with this file.
    pub fn nlink(&self) -> (r: u32)
        ensures
            r == self@.nlink,
    {
        self.nlink
    }

    /// Returns the modification time of this file.
    pub fn mtime(&self) -> (r: u32)
        ensures
            r == self@.mtime,
    {
        self.mtime
    }

    /// Returns the size of this file, in bytes.
    pub fn file_size(&self) -> (r: u32)
        ensures
            r == self@.file_size,
    {
        self.file_size
    }

    /// Returns the major component of the device ID, describing the device
    /// on which this file resides.
    pub fn dev_major(&self) -> (r: u32)
        ensures
            r == self@.dev_major,
    {
        self.dev_major
    }

    /// Returns the minor component of the device ID, describing the device
    /// on which this file resides.
    pub fn dev_minor(&self) -> (r: u32)
        ensures
            r == self@.dev_minor,
    {
        self.dev_minor
    }

    /// Returns the major component of the rdev ID, describing the device
    /// that this file (inode) represents.
    pub fn rdev_major(&self) -> (r: u32)
        ensures
            r == self@.rdev_major,
    {
        self.rdev_major
    }

    /// Returns the minor component of the rdev ID, describing the device
    /// that this file (inode) represents.
    pub fn rdev_minor(&self) -> (r: u32)
        ensures
            r == self@.rdev_minor,
    {
        self.rdev_minor
    }

    /// Returns true exactly when this is the trailer entry, whatever its
    /// other fields hold: the name alone signals the end of an archive.
    pub fn is_trailer(&self) -> (r: bool)
        ensures
            r == (self@.name == TRAILER_NAME@),
    {
        let t = TRAILER_NAME.to_owned();
        self.name == t
    }

    /// Return the checksum of this entry, present only when the entry was
    /// read from a header with the `"070702"` magic number.
    ///
    /// The checksum is calculated by summing the bytes in the file and
    /// taking the least significant 32 bits. Not all CPIO archives use
    /// checksums.
    pub fn checksum(&self) -> (r: Option<u32>)
        ensures
            r == if self@.crc {
                Some(self@.checksum)
            } else {
                None::<u32>
            },
    {
        if self.crc {
            Some(self.checksum)
        } else {
            None
        }
    }
}

/// Reads one entry header/data from an archive.
pub struct Reader {
    inner: ByteStream,
    entry: Entry,
    bytes_read: u32,
}

/// What a [`Reader`] holds: the stream it wraps (buffer and position) plus
/// the entry parsed from the header and how much payload was read so far.
pub ghost struct ReaderV {
    pub bytes: Seq<u8>,
    pub pos: int,
    pub entry: EntryV,
    pub bytes_read: u32,
}

impl View for Reader {
    type V = ReaderV;

    closed spec fn view(&self) -> ReaderV {
        ReaderV {
            bytes: self.inner.bytes(),
            pos: self.inner.position(),
            entry: self.entry@,
            bytes_read: self.bytes_read,
        }
    }
}

impl Reader {
    /// The position stays within the buffer and no more payload has been
    /// read than the entry declares.
    pub open spec fn wf(&self) -> bool {
        &&& 0 <= self@.pos <= self@.bytes.len()
        &&& self@.bytes_read <= self@.entry.file_size
    }

    /// Parses metadata for the next entry in an archive, and returns a
    /// reader that will yield the entry data.
    ///
    /// The outcome is exactly that of [`parse_header`] on the unread bytes:
    /// a reader positioned at the payload, [`Error::InvalidFormat`] for a
    /// malformed header, or [`Error::Truncated`] for one the stream ends in
    /// the middle of.
    #[verifier::rlimit(30)]
    pub fn new(inner: ByteStream) -> (r: Result<Reader, Error>)
        requires
            inner.wf(),
        ensures
            match parse_header(inner.remaining()) {
                HeaderParse::Parsed { entry, len } => {
                    &&& r is Ok
                    &&& r->Ok_0@ == (ReaderV {
                        bytes: inner.bytes(),
                        pos: inner.position() + len,
                        entry,
                        bytes_read: 0u32,
                    })
                    &&& r->Ok_0.wf()
                },
                HeaderParse::Invalid => r == Err::<Reader, Error>(Error::InvalidFormat),
                HeaderParse::Short => r == Err::<Reader, Error>(Error::Truncated),
            },
    {
        let ghost d = inner.remaining();
        let ghost bytes0 = inner.bytes();
        let ghost start = inner.position();
        let mut stream = inner;

        // char    c_magic[6];
        let magic = match stream.read_exact(6) {
            Some(m) => m,
            None => {
                return Err(Error::Truncated);
            },
        };
        proof {
            assert(magic@ =~= d.take(6));
        }
        let crc = magic[5] == 0x32;
        if !(magic[0] == 0x30 && magic[1] == 0x37 && magic[2] == 0x30 && magic[3] == 0x37
            && magic[4] == 0x30 && (magic[5] == 0x31 || magic[5] == 0x32)) {
            proof {
                assert(magic_newc()[0] == 0x30 && magic_newc()[1] == 0x37 && magic_newc()[2]
                    == 0x30 && magic_newc()[3] == 0x37 && magic_newc()[4] == 0x30 && magic_newc()[5]
                    == 0x31);
                assert(magic_crc()[5] == 0x32);
                assert(d.take(6) != magic_newc() && d.take(6) != magic_crc());
            }
            return Err(Error::InvalidFormat);
        }
        proof {
            if crc {
                assert(magic@ =~= magic_crc());
            } else {
                assert(magic@ =~= magic_newc());
            }
            assert(magic_newc()[5] == 0x31 && magic_crc()[5] == 0x32);
            assert(crc == (d.take(6) == magic_crc()));
        }

        // the 13 numeric fields, 8 hex digits each
        let mut vals: Vec<u32> = Vec::new();
        let mut i: usize = 0;
        while i < 13
            invariant
                0 <= i <= 13,
                vals@.len() == i as int,
                stream.wf(),
                stream.bytes() == bytes0,
                stream.position() == start + 6 + 8 * (i as int),
                d == bytes0.skip(start),
                d == inner.remaining(),
                0 <= start <= bytes0.len(),
                d.take(6) == magic_newc() || d.take(6) == magic_crc(),
                crc == (d.take(6) == magic_crc()),
                scan_fields(d, 0) == scan_fields(d, i as int),
                forall|j: int|
                    0 <= j < i as int ==> vals@[j] == #[trigger] field_value(d, j)
                        && valid_hex8(field_bytes(d, j)),
            decreases 13 - i,
        {
            proof {
                assert(stream.remaining() =~= d.skip(6 + 8 * (i as int)));
            }
            match read_hex_u32(&mut stream) {
                Ok(v) => {
                    proof {
                        let rem_i = d.skip(6 + 8 * (i as int));
                        assert(rem_i.len() >= 8);
                        assert(d.len() >= 14 + 8 * (i as int));
                        assert(valid_hex8(rem_i.take(8)));
                        assert(rem_i.take(8) =~= field_bytes(d, i as int));
                        assert(valid_hex8(field_bytes(d, i as int)));
                        assert(v == field_value(d, i as int));
                        assert(scan_fields(d, i as int) == scan_fields(d, i as int + 1));
                    }
                    vals.push(v);
                },
                Err(e) => {
                    proof {
                        if d.skip(6 + 8 * (i as int)).len() < 8 {
                            assert(d.len() < 14 + 8 * (i as int));
                            assert(scan_fields(d, i as int) == HeaderParse::Short);
                            assert(parse_header(d) == HeaderParse::Short);
                        } else {
                            assert(d.skip(6 + 8 * (i as int)).take(8) =~= field_bytes(
                                d,
                                i as int,
                            ));
                            assert(scan_fields(d, i as int) == HeaderParse::Invalid);
                            assert(parse_header(d) == HeaderParse::Invalid);
                        }
                    }
                    return Err(e);
                },
            }
            i = i + 1;
            proof {
                assert(forall|j: int|
                    0 <= j < i as int ==> vals@[j] == #[trigger] field_value(d, j)
                        && valid_hex8(field_bytes(d, j)));
            }
        }
        proof {
            assert(scan_fields(d, 13) == HeaderParse::Parsed {
                entry: arbitrary_entry(),
                len: 0,
            });
        }

        // NUL-terminated name with length `name_len` (including NUL byte).
        let name_len = vals[11];
        let ghost ns = field_value(d, 11) as int;
        let mut name_bytes = match stream.read_exact(name_len as usize) {
            Some(nb) => nb,
            None => {
                proof {
                    assert(stream.remaining().len() == d.len() - 110);
                }
                return Err(Error::Truncated);
            },
        };
        proof {
            assert(name_bytes@ =~= d.subrange(110, 110 + ns));
        }
        let ghost name_field = d.subrange(110, 110 + ns);
        if name_bytes.is_empty() || name_bytes[name_bytes.len() - 1] != 0 {
            return Err(Error::InvalidFormat);
        }
        name_bytes.pop();
        proof {
            assert(name_bytes@ == name_field.drop_last());
        }
        // dracut-cpio sometimes pads the name to the next filesystem block,
        // so tolerate further trailing NULs beyond the mandatory one.
        while name_bytes.len() > 0 && name_bytes[name_bytes.len() - 1] == 0
            invariant
                strip_trailing_nuls(name_bytes@) == strip_trailing_nuls(name_field.drop_last()),
            decreases name_bytes.len(),
        {
            name_bytes.pop();
        }
        let ghost stripped = strip_trailing_nuls(name_field.drop_last());
        proof {
            assert(name_bytes@ == stripped);
        }
        let name = match bytes_to_string(name_bytes) {
            Some(n) => n,
            None => {
                return Err(Error::InvalidFormat);
            },
        };

        // Pad out to a multiple of 4 bytes.
        let rem = (2 + name_len % 4) % 4;
        let pad = (4 - rem) % 4;
        proof {
            vstd::arithmetic::div_mod::lemma_add_mod_noop(HEADER_LEN as int, ns, 4int);
            assert(pad == pad_len(110 + ns));
        }
        if stream.read_exact(pad as usize).is_none() {
            proof {
                assert(stream.remaining().len() == d.len() - 110 - ns);
            }
            return Err(Error::Truncated);
        }

        let entry = Entry {
            crc,
            name,
            ino: vals[0],
            mode: vals[1],
            uid: vals[2],
            gid: vals[3],
            nlink: vals[4],
            mtime: vals[5],
            file_size: vals[6],
            dev_major: vals[7],
            dev_minor: vals[8],
            rdev_major: vals[9],
            rdev_minor: vals[10],
            checksum: vals[12],
        };
        let r = Reader { inner: stream, entry, bytes_read: 0 };
        proof {
            assert(parse_header(d) matches HeaderParse::Parsed { entry: e, len: l } && r@ == (
            ReaderV { bytes: bytes0, pos: start + l, entry: e, bytes_read: 0u32 }));
        }
        Ok(r)
    }

    /// Returns the metadata for this entry.
    pub fn entry(&self) -> (r: &Entry)
        ensures
            r@ == self@.entry,
    {
        &self.entry
    }

    /// Reads up to `limit` bytes of this entry's payload, fewer only when
    /// the payload or the stream ends first.
    ///
    /// Reading past the declared size yields zero bytes, whatever the
    /// stream still holds, so a caller can never read into the next entry's
    /// header by over-reading.
    pub fn read(&mut self, limit: usize) -> (r: Vec<u8>)
        requires
            old(self).wf(),
        ensures
            final(self).wf(),
            final(self)@.bytes == old(self)@.bytes,
            final(self)@.entry == old(self)@.entry,
            r@.len() == vstd::math::min(
                limit as int,
                vstd::math::min(
                    old(self)@.entry.file_size - old(self)@.bytes_read,
                    old(self)@.bytes.len() - old(self)@.pos,
                ),
            ),
            r@ == old(self)@.bytes.subrange(old(self)@.pos, old(self)@.pos + r@.len()),
            final(self)@.pos == old(self)@.pos + r@.len(),
            final(self)@.bytes_read == old(self)@.bytes_read + r@.len(),
    {
        let remaining = self.entry.file_size - self.bytes_read;
        let lim = if limit < remaining as usize {
            limit
        } else {
            remaining as usize
        };
        let chunk = self.inner.read_up_to(lim);
        self.bytes_read = self.bytes_read + chunk.len() as u32;
        proof {
            assert(chunk@ =~= old(self)@.bytes.subrange(
                old(self)@.pos,
                old(self)@.pos + chunk@.len(),
            ));
        }
        chunk
    }

    /// Finishes reading this entry: discards any unread remainder of the
    /// payload and the trailing pad bytes, and returns the underlying
    /// stream in a position ready to read the next entry (if any).
    ///
    /// Fails with [`Error::Truncated`] when the stream ends before the
    /// padding does; a payload cut short without pending padding is handed
    /// over silently, as a plain read would be.
    pub fn finish(self) -> (r: Result<ByteStream, Error>)
        requires
            self.wf(),
        ensures
            ({
                let rem = self@.entry.file_size - self@.bytes_read;
                let avail = self@.bytes.len() - self@.pos;
                let consumed = vstd::math::min(rem as int, avail as int);
                let pl = pad_len(self@.entry.file_size as int);
                &&& (pl <= avail - consumed ==> r is Ok && r->Ok_0.wf() && r->Ok_0.bytes()
                    == self@.bytes && r->Ok_0.position() == self@.pos + consumed + pl)
                &&& (pl > avail - consumed ==> r == Err::<ByteStream, Error>(Error::Truncated))
            }),
    {
        let Reader { mut inner, entry, bytes_read } = self;
        let rem = entry.file_size - bytes_read;
        let avail = inner.available();
        let consumed = if (rem as usize) < avail {
            rem as usize
        } else {
            avail
        };
        let moved = inner.advance(consumed);
        proof {
            assert(moved);
        }
        let pad = ((4 - entry.file_size % 4) % 4) as usize;
        proof {
            assert(pad == pad_len(entry.file_size as int));
        }
        match inner.read_exact(pad) {
            Some(_) => Ok(inner),
            None => Err(Error::Truncated),
        }
    }

    /// Copies the unread remainder of the payload to `out` (not any prefix
    /// already taken through [`Reader::read`]), discards the trailing pad,
    /// and returns the underlying stream. This is the efficient path for
    /// extracting one entry's data without double-buffering.
    ///
    /// The payload is copied even when the stream then ends inside the
    /// padding and [`Error::Truncated`] is returned.
    pub fn to_writer(self, out: &mut Vec<u8>) -> (r: Result<ByteStream, Error>)
        requires
            self.wf(),
        ensures
            ({
                let rem = self@.entry.file_size - self@.bytes_read;
                let avail = self@.bytes.len() - self@.pos;
                let consumed = vstd::math::min(rem as int, avail as int);
                let pl = pad_len(self@.entry.file_size as int);
                &&& final(out)@ == old(out)@ + self@.bytes.subrange(
                    self@.pos,
                    self@.pos + consumed,
                )
                &&& (pl <= avail - consumed ==> r is Ok && r->Ok_0.wf() && r->Ok_0.bytes()
                    == self@.bytes && r->Ok_0.position() == self@.pos + consumed + pl)
                &&& (pl > avail - consumed ==> r == Err::<ByteStream, Error>(Error::Truncated))
            }),
    {
        let Reader { mut inner, entry, bytes_read } = self;
        let rem = entry.file_size - bytes_read;
        let mut chunk = inner.read_up_to(rem as usize);
        proof {
            assert(chunk@ =~= self@.bytes.subrange(self@.pos, self@.pos + chunk@.len()));
        }
        out.append(&mut chunk);
        let pad = ((4 - entry.file_size % 4) % 4) as usize;
        proof {
            assert(pad == pad_len(entry.file_size as int));
        }
        match inner.read_exact(pad) {
            Some(_) => Ok(inner),
            None => Err(Error::Truncated),
        }
    }

    /// Returns the offset within the underlying stream, which can be useful
    /// for efficient copying of file data.
    pub fn offset(&self) -> (r: u64)
        ensures
            r == self@.pos,
    {
        self.inner.offset() as u64
    }

    /// Skip past all remaining file data and padding of this entry without
    /// reading it, returning the underlying stream in a position ready to
    /// read the next entry (if any).
    ///
    /// Fails with [`Error::Truncated`] when the stream ends before the end
    /// of the entry.
    pub fn skip(self) -> (r: Result<ByteStream, Error>)
        requires
            self.wf(),
        ensures
            ({
                let rem = self@.entry.file_size - self@.bytes_read;
                let pl = pad_len(self@.entry.file_size as int);
                let avail = self@.bytes.len() - self@.pos;
                &&& (rem + pl <= avail ==> r is Ok && r->Ok_0.wf() && r->Ok_0.bytes()
                    == self@.bytes && r->Ok_0.position() == self@.pos + rem + pl)
                &&& (rem + pl > avail ==> r == Err::<ByteStream, Error>(Error::Truncated))
            }),
    {
        let Reader { mut inner, entry, bytes_read } = self;
        let rem = entry.file_size - bytes_read;
        let pad = ((4 - entry.file_size % 4) % 4) as usize;
        proof {
            assert(pad == pad_len(entry.file_size as int));
        }
        if inner.advance(rem as usize) && inner.advance(pad) {
            Ok(inner)
        } else {
            Err(Error::Truncated)
        }
    }
}

/// The file-type tag stored in the upper bits of an entry's mode.
pub enum ModeFileType {
    Symlink,
    Fifo,
    Char,
    Block,
    NetworkSpecial,
    Socket,
    Directory,
    Regular,
}

/// The bits of `mode` that hold the file-type tag.
pub const MODE_FILE_TYPE_MASK: u32 = 0o170000;

/// The numeric tag each file type is stored as.
pub open spec fn mode_file_type_bits(m: ModeFileType) -> u32 {
    match m {
        ModeFileType::Fifo => 0o010000,
        ModeFileType::Char => 0o020000,
        ModeFileType::Directory => 0o040000,
        ModeFileType::Block => 0o060000,
        ModeFileType::Regular => 0o100000,
        ModeFileType::NetworkSpecial => 0o110000,
        ModeFileType::Symlink => 0o120000,
        ModeFileType::Socket => 0o140000,
    }
}

impl ModeFileType {
    /// The numeric tag this file type is stored as.
    pub fn bits(&self) -> (r: u32)
        ensures
            r == mode_file_type_bits(*self),
    {
        match self {
            ModeFileType::Fifo => 0o010000,
            ModeFileType::Char => 0o020000,
            ModeFileType::Directory => 0o040000,
            ModeFileType::Block => 0o060000,
            ModeFileType::Regular => 0o100000,
            ModeFileType::NetworkSpecial => 0o110000,
            ModeFileType::Symlink => 0o120000,
            ModeFileType::Socket => 0o140000,
        }
    }
}

/// The bytes one entry contributes to an archive: its header region, its
/// payload, and the payload's alignment padding.
pub open spec fn entry_bytes(b: BuilderV, data: Seq<u8>) -> Seq<u8> {
    let h = header_bytes(b, data.len() as u32, None);
    h + data + zero_pad(h.len() + data.len() as int)
}

/// The metadata of the trailer entry: the sentinel name, one link,
/// everything else zero.
pub open spec fn trailer_builder() -> BuilderV {
    BuilderV {
        name: TRAILER_NAME@,
        ino: 0,
        mode: 0,
        uid: 0,
        gid: 0,
        nlink: 1,
        mtime: 0,
        dev_major: 0,
        dev_minor: 0,
        rdev_major: 0,
        rdev_minor: 0,
    }
}

/// The bytes of the trailer entry that ends every archive.
pub open spec fn trailer_bytes() -> Seq<u8> {
    header_bytes(trailer_builder(), 0, None)
}

/// An ASCII name takes one byte per character on the wire, so its
/// `namesize` is its character count plus one for the NUL terminator.
pub proof fn lemma_ascii_name_size(name: Seq<char>)
    requires
        is_ascii_chars(name),
    ensures
        name_size(name) == name.len() + 1,
{
    is_ascii_chars_encode_utf8(name);
}

/// The sentinel name is ten ASCII characters, so its `namesize` is 11.
pub proof fn lemma_trailer_name_size()
    ensures
        name_size(TRAILER_NAME@) == 11,
{
    reveal_strlit("TRAILER!!!");
    assert(is_ascii_chars(TRAILER_NAME@));
    lemma_ascii_name_size(TRAILER_NAME@);
}

/// Writes a trailer entry into an archive.
pub fn trailer(w: Vec<u8>) -> (r: Result<Vec<u8>, Error>)
    ensures
        r is Ok,
        r->Ok_0@ == w@ + trailer_bytes(),
{
    proof {
        lemma_trailer_name_size();
    }
    let b = Builder::new(TRAILER_NAME).nlink(1);
    let writer = b.write(w, 0);
    let r = writer.finish();
    proof {
        lemma_header_bytes_aligned(trailer_builder(), 0, None);
        assert(zero_pad(trailer_bytes().len() as int + 0) =~= Seq::<u8>::empty());
        assert(r->Ok_0@ =~= w@ + trailer_bytes());
    }
    r
}

/// Appends `n` zero bytes to `out`.
fn push_zeros(out: &mut Vec<u8>, n: usize)
    ensures
        final(out)@ == old(out)@ + Seq::new(n as nat, |i: int| 0u8),
{
    proof {
        assert(out@ =~= old(out)@ + Seq::new(0, |i: int| 0u8));
    }
    let mut k: usize = 0;
    while k < n
        invariant
            0 <= k <= n,
            out@ == old(out)@ + Seq::new(k as nat, |i: int| 0u8),
        decreases n - k,
    {
        out.push(0u8);
        proof {
            assert(out@ =~= old(out)@ + Seq::new((k + 1) as nat, |i: int| 0u8));
        }
        k = k + 1;
    }
    proof {
        assert(out@ =~= old(out)@ + Seq::new(n as nat, |i: int| 0u8));
    }
}

/// Builds metadata for one entry to be written into an archive.
#[derive(Clone)]
pub struct Builder {
    name: String,
    ino: u32,
    mode: u32,
    uid: u32,
    gid: u32,
    nlink: u32,
    mtime: u32,
    dev_major: u32,
    dev_minor: u32,
    rdev_major: u32,
    rdev_minor: u32,
}

impl View for Builder {
    type V = BuilderV;

    closed spec fn view(&self) -> BuilderV {
        BuilderV {
            name: self.name@,
            ino: self.ino,
            mode: self.mode,
            uid: self.uid,
            gid: self.gid,
            nlink: self.nlink,
            mtime: self.mtime,
            dev_major: self.dev_major,
            dev_minor: self.dev_minor,
            rdev_major: self.rdev_major,
            rdev_minor: self.rdev_minor,
        }
    }
}

impl Builder {
    /// The name and its NUL terminator must fit the 8-hex-digit `namesize`
    /// field.
    pub open spec fn wf(&self) -> bool {
        name_size(self@.name) <= 0xffff_ffff
    }

    /// Create the metadata for one CPIO entry, with safe defaults: one link,
    /// everything else zero.
    ///
    /// The name's UTF-8 byte length plus one must fit the 32-bit `namesize`
    /// header field; callers with longer names must pre-validate, as nothing
    /// that long can be stored in this format.
    pub fn new(name: &str) -> (b: Self)
        requires
            name_size(name@) <= 0xffff_ffff,
        ensures
            b.wf(),
            b@ == (BuilderV {
                name: name@,
                ino: 0,
                mode: 0,
                uid: 0,
                gid: 0,
                nlink: 1,
                mtime: 0,
                dev_major: 0,
                dev_minor: 0,
                rdev_major: 0,
                rdev_minor: 0,
            }),
    {
        Builder {
            name: name.to_owned(),
            ino: 0,
            mode: 0,
            uid: 0,
            gid: 0,
            nlink: 1,
            mtime: 0,
            dev_major: 0,
            dev_minor: 0,
            rdev_major: 0,
            rdev_minor: 0,
        }
    }

    /// Set the inode number for this file. In modern times however,
    /// typically this is just a unique index ID for the file, rather than
    /// the actual inode number.
    pub fn ino(self, ino: u32) -> (b: Self)
        ensures
            b@ == (BuilderV { ino, ..self@ }),
    {
        Builder { ino, ..self }
    }

    /// Set the file's "mode" - the same as an inode "mode" field -
    /// containing permission bits and a bit of metadata about the type of
    /// file represented.
    pub fn mode(self, mode: u32) -> (b: Self)
        ensures
            b@ == (BuilderV { mode, ..self@ }),
    {
        Builder { mode, ..self }
    }

    /// Set this file's UID.
    pub fn uid(self, uid: u32) -> (b: Self)
        ensures
            b@ == (BuilderV { uid, ..self@ }),
    {
        Builder { uid, ..self }
    }

    /// Set this file's GID.
    pub fn gid(self, gid: u32) -> (b: Self)
        ensures
            b@ == (BuilderV { gid, ..self@ }),
    {
        Builder { gid, ..self }
    }

    /// Set the number of links associated with this file.
    pub fn nlink(self, nlink: u32) -> (b: Self)
        ensures
            b@ == (BuilderV { nlink, ..self@ }),
    {
        Builder { nlink, ..self }
    }

    /// Set the modification time of this file.
    pub fn mtime(self, mtime: u32) -> (b: Self)
        ensures
            b@ == (BuilderV { mtime, ..self@ }),
    {
        Builder { mtime, ..self }
    }

    /// Set the major component of the device ID, describing the device on
    /// which this file resides.
    pub fn dev_major(self, dev_major: u32) -> (b: Self)
        ensures
            b@ == (BuilderV { dev_major, ..self@ }),
    {
        Builder { dev_major, ..self }
    }

    /// Set the minor component of the device ID, describing the device on
    /// which this file resides.
    pub fn dev_minor(self, dev_minor: u32) -> (b: Self)
        ensures
            b@ == (BuilderV { dev_minor, ..self@ }),
    {
        Builder { dev_minor, ..self }
    }

    /// Set the major component of the rdev ID, describing the device that
    /// this file (inode) represents.
    pub fn rdev_major(self, rdev_major: u32) -> (b: Self)
        ensures
            b@ == (BuilderV { rdev_major, ..self@ }),
    {
        Builder { rdev_major, ..self }
    }

    /// Set the minor component of the rdev ID, describing the device that
    /// this file (inode) represents.
    pub fn rdev_minor(self, rdev_minor: u32) -> (b: Self)
        ensures
            b@ == (BuilderV { rdev_minor, ..self@ }),
    {
        Builder { rdev_minor, ..self }
    }

    /// Set the mode file type of the entry, replacing any tag set before.
    pub fn set_mode_file_type(self, file_type: ModeFileType) -> (b: Self)
        ensures
            b@ == (BuilderV {
                mode: (self@.mode & !MODE_FILE_TYPE_MASK) | mode_file_type_bits(file_type),
                ..self@
            }),
    {
        let mode = (self.mode & !MODE_FILE_TYPE_MASK) | file_type.bits();
        Builder { mode, ..self }
    }

    /// Write out an entry to the provided output in SVR4 "new ascii" CPIO
    /// format, with the payload to follow through the returned [`Writer`].
    pub fn write(self, w: Vec<u8>, file_size: u32) -> (wr: Writer)
        requires
            self.wf(),
        ensures
            wr.wf(),
            wr@.out == w@,
            wr@.written == 0,
            wr@.file_size == file_size,
            wr@.pending == header_bytes(self@, file_size, None),
            wr@.header_len == header_bytes(self@, file_size, None).len(),
    {
        let header = self.into_header(file_size, None);
        let header_size = header.len();
        Writer { inner: w, written: 0, file_size, header_size, header }
    }

    /// Write out an entry to the provided output in SVR4 "new crc" CPIO
    /// format, with the payload to follow through the returned [`Writer`].
    pub fn write_crc(self, w: Vec<u8>, file_size: u32, file_checksum: u32) -> (wr: Writer)
        requires
            self.wf(),
        ensures
            wr.wf(),
            wr@.out == w@,
            wr@.written == 0,
            wr@.file_size == file_size,
            wr@.pending == header_bytes(self@, file_size, Some(file_checksum)),
            wr@.header_len == header_bytes(self@, file_size, Some(file_checksum)).len(),
    {
        let header = self.into_header(file_size, Some(file_checksum));
        let header_size = header.len();
        Writer { inner: w, written: 0, file_size, header_size, header }
    }

    /// Build a newc header from the entry metadata.
    fn into_header(self, file_size: u32, file_checksum: Option<u32>) -> (h: Vec<u8>)
        requires
            self.wf(),
        ensures
            h@ == header_bytes(self@, file_size, file_checksum),
    {
        let mut header: Vec<u8> = Vec::new();

        // char    c_magic[6];
        header.push(0x30);
        header.push(0x37);
        header.push(0x30);
        header.push(0x37);
        header.push(0x30);
        let crc = matches!(file_checksum, Some(_));
        if crc {
            header.push(0x32);
        } else {
            header.push(0x31);
        }
        proof {
            if crc {
                assert(header@ =~= magic_crc());
            } else {
                assert(header@ =~= magic_newc());
            }
        }
        // char    c_ino[8];
        crate::hex::push_hex8(&mut header, self.ino);
        // char    c_mode[8];
        crate::hex::push_hex8(&mut header, self.mode);
        // char    c_uid[8];
        crate::hex::push_hex8(&mut header, self.uid);
        // char    c_gid[8];
        crate::hex::push_hex8(&mut header, self.gid);
        // char    c_nlink[8];
        crate::hex::push_hex8(&mut header, self.nlink);
        // char    c_mtime[8];
        crate::hex::push_hex8(&mut header, self.mtime);
        // char    c_filesize[8];
        crate::hex::push_hex8(&mut header, file_size);
        // char    c_devmajor[8];
        crate::hex::push_hex8(&mut header, self.dev_major);
        // char    c_devminor[8];
        crate::hex::push_hex8(&mut header, self.dev_minor);
        // char    c_rdevmajor[8];
        crate::hex::push_hex8(&mut header, self.rdev_major);
        // char    c_rdevminor[8];
        crate::hex::push_hex8(&mut header, self.rdev_minor);
        // char    c_namesize[8];
        let name_bytes = self.name.as_str().as_bytes();
        let name_len = name_bytes.len() + 1;
        crate::hex::push_hex8(&mut header, name_len as u32);
        // char    c_check[8];
        let check = match file_checksum {
            Some(c) => c,
            None => 0,
        };
        crate::hex::push_hex8(&mut header, check);

        // append the name to the end of the header
        header.extend_from_slice(name_bytes);
        let ghost before_nul = header@;
        header.push(0u8);
        proof {
            assert(header@ =~= before_nul + seq![0u8]);
        }

        // pad out to a multiple of 4 bytes
        let rem = (2 + name_len % 4) % 4;
        let pad = (4 - rem) % 4;
        proof {
            vstd::arithmetic::div_mod::lemma_add_mod_noop(
                HEADER_LEN as int,
                name_len as int,
                4int,
            );
            assert(pad == pad_len(HEADER_LEN + name_len as int));
        }
        push_zeros(&mut header, pad);
        proof {
            assert(Seq::new(pad as nat, |i: int| 0u8) =~= zero_pad(
                HEADER_LEN + name_size(self@.name),
            ));
            assert(header@ =~= header_bytes(self@, file_size, file_checksum));
        }
        header
    }
}

/// Writes one entry header/data into an archive.
///
/// The header bytes are buffered and flushed on the first payload write, or
/// at the latest when the writer is finished.
pub struct Writer {
    inner: Vec<u8>,
    written: u32,
    file_size: u32,
    header_size: usize,
    header: Vec<u8>,
}

/// What a [`Writer`] holds: the output written so far, the payload count,
/// the declared size, the length of the entry's header region, and the
/// header bytes still waiting to be flushed.
pub ghost struct WriterV {
    pub out: Seq<u8>,
    pub written: u32,
    pub file_size: u32,
    pub header_len: int,
    pub pending: Seq<u8>,
}

impl View for Writer {
    type V = WriterV;

    closed spec fn view(&self) -> WriterV {
        WriterV {
            out: self.inner@,
            written: self.written,
            file_size: self.file_size,
            header_len: self.header_size as int,
            pending: self.header@,
        }
    }
}

impl Writer {
    /// No more payload was accepted than declared, and the pending header is
    /// either still whole or already flushed.
    pub open spec fn wf(&self) -> bool {
        &&& self@.written <= self@.file_size
        &&& self@.header_len >= 0
        &&& (self@.pending.len() == 0 || self@.pending.len() == self@.header_len)
    }

    /// Append the payload bytes of `buf`, flushing the pending header first.
    ///
    /// Fails with [`Error::ExceedsDeclaredSize`], writing nothing, when the
    /// bytes written so far plus `buf` would exceed the declared file size.
    pub fn write(&mut self, buf: &[u8]) -> (r: Result<usize, Error>)
        requires
            old(self).wf(),
        ensures
            final(self).wf(),
            old(self)@.written + buf@.len() > old(self)@.file_size ==> r == Err::<usize, Error>(
                Error::ExceedsDeclaredSize,
            ) && *final(self) == *old(self),
            old(self)@.written + buf@.len() <= old(self)@.file_size ==> {
                &&& r == Ok::<usize, Error>(buf@.len() as usize)
                &&& final(self)@.out == old(self)@.out + old(self)@.pending + buf@
                &&& final(self)@.pending.len() == 0
                &&& final(self)@.written == old(self)@.written + buf@.len()
                &&& final(self)@.file_size == old(self)@.file_size
                &&& final(self)@.header_len == old(self)@.header_len
            },
    {
        if buf.len() <= (self.file_size - self.written) as usize {
            self.try_write_header();
            self.inner.extend_from_slice(buf);
            self.written = self.written + buf.len() as u32;
            Ok(buf.len())
        } else {
            Err(Error::ExceedsDeclaredSize)
        }
    }

    /// Forwards to the underlying output; buffering is not modelled, so
    /// nothing changes.
    pub fn flush(&mut self) -> (r: Result<(), Error>)
        ensures
            r is Ok,
            *final(self) == *old(self),
    {
        Ok(())
    }

    /// Finishes the entry and hands the output back for the next one.
    ///
    /// Any pending header is flushed; when exactly the declared number of
    /// payload bytes was written, the payload's alignment padding is
    /// appended. When fewer bytes were written the padding is skipped, as
    /// the declared size was never satisfied.
    pub fn finish(self) -> (r: Result<Vec<u8>, Error>)
        requires
            self.wf(),
        ensures
            r is Ok,
            r->Ok_0@ == self@.out + self@.pending + if self@.written == self@.file_size {
                zero_pad(self@.header_len + self@.file_size)
            } else {
                Seq::<u8>::empty()
            },
    {
        let mut w = self;
        w.do_finish();
        Ok(w.inner)
    }

    /// Flushes the header bytes if they are still pending.
    fn try_write_header(&mut self)
        requires
            old(self).wf(),
        ensures
            final(self).wf(),
            final(self)@.out == old(self)@.out + old(self)@.pending,
            final(self)@.pending.len() == 0,
            final(self)@.written == old(self)@.written,
            final(self)@.file_size == old(self)@.file_size,
            final(self)@.header_len == old(self)@.header_len,
    {
        if !self.header.is_empty() {
            self.inner.append(&mut self.header);
        } else {
            proof {
                assert(final(self)@.out =~= old(self)@.out + old(self)@.pending);
            }
        }
    }

    /// Flushes the pending header and, when the declared size was met,
    /// appends the payload's alignment padding.
    fn do_finish(&mut self)
        requires
            old(self).wf(),
        ensures
            final(self).wf(),
            final(self)@.out == old(self)@.out + old(self)@.pending + if old(self)@.written == old(
                self,
            )@.file_size {
                zero_pad(old(self)@.header_len + old(self)@.file_size)
            } else {
                Seq::<u8>::empty()
            },
    {
        self.try_write_header();

        let ghost mid = self@.out;
        if self.written == self.file_size {
            let rem = (self.header_size % 4 + (self.file_size as usize) % 4) % 4;
            let pad = (4 - rem) % 4;
            proof {
                vstd::arithmetic::div_mod::lemma_add_mod_noop(
                    self@.header_len,
                    self@.file_size as int,
                    4int,
                );
                assert(pad == pad_len(self@.header_len + self@.file_size));
            }
            push_zeros(&mut self.inner, pad);
            proof {
                assert(Seq::new(pad as nat, |i: int| 0u8) =~= zero_pad(
                    old(self)@.header_len + old(self)@.file_size,
                ));
            }
        } else {
            proof {
                assert(mid + Seq::<u8>::empty() =~= mid);
            }
        }
    }
}

} // verus!
