//! The WAD archive decoder: the 12-byte header and the directory of 16-byte
//! lump records that follows the offset stored in the header.

use crate::bytes::{i32_to_le_bytes, le_i32_at, lemma_i32_le_round_trip, lossy_string, lossy_utf8, read_i32_le};
use vstd::arithmetic::div_mod::lemma_fundamental_div_mod_converse;
use vstd::prelude::*;

verus! {

/// WAD archive kind, taken from the 4-character tag that opens the file:
/// either a full game archive (`IWAD`) or a patch archive (`PWAD`).
#[derive(Clone, Copy, Debug, PartialEq, Eq, Structural)]
pub enum Identification {
    IWAD,
    PWAD,
}

/// WAD header taken from the first 12 bytes of the file.
#[derive(Clone, Copy, Debug, PartialEq, Eq, Structural)]
pub struct Header {
    /// 4-character identification, either `IWAD` or `PWAD`.
    pub identification: Identification,
    /// Number of lumps the header claims the archive holds. Advisory only:
    /// the directory walk is bounded by the buffer, never by this count.
    pub numlumps: i32,
    /// Byte offset of the start of the directory.
    pub infotablesofs: i32,
}

/// One directory entry: name and location of a single lump's data.
#[derive(Debug, PartialEq, Eq)]
pub struct Directory {
    /// Byte offset of the start of the lump's data in the file.
    pub filepos: i32,
    /// Size of the lump in bytes.
    pub size: i32,
    /// The lump's name: the record's fixed 8-byte field decoded as text,
    /// invalid byte sequences replaced, padding bytes kept as they are.
    pub name: String,
}

/// Why a buffer could not be decoded as a WAD archive. Either failure means
/// the file is not this format at all; a directory offset that points outside
/// the buffer is not an error, only an empty directory.
#[derive(Clone, Copy, Debug, PartialEq, Eq, Structural)]
pub enum ParseError {
    /// The buffer holds fewer than the 12 bytes a header needs.
    TruncatedHeader,
    /// The 4-byte tag is neither `IWAD` nor `PWAD`.
    UnrecognizedIdentification,
}

/// The archive kind a 4-byte tag names, if any: `IWAD` or `PWAD` in ASCII.
pub open spec fn tag_kind(b0: u8, b1: u8, b2: u8, b3: u8) -> Option<Identification> {
    if b0 == 0x49 && b1 == 0x57 && b2 == 0x41 && b3 == 0x44 {
        Some(Identification::IWAD)
    } else if b0 == 0x50 && b1 == 0x57 && b2 == 0x41 && b3 == 0x44 {
        Some(Identification::PWAD)
    } else {
        None
    }
}

/// The 4-byte ASCII tag that names `kind`.
pub open spec fn tag_bytes(kind: Identification) -> Seq<u8> {
    match kind {
        Identification::IWAD => seq![0x49u8, 0x57u8, 0x41u8, 0x44u8],
        Identification::PWAD => seq![0x50u8, 0x57u8, 0x41u8, 0x44u8],
    }
}

impl Identification {
    /// Maps a 4-byte tag to the archive kind it names, exactly when it is one
    /// of the two recognized tags.
    pub fn from_tag(b0: u8, b1: u8, b2: u8, b3: u8) -> (r: Option<Identification>)
        ensures
            r == tag_kind(b0, b1, b2, b3),
    {
        if b0 == 0x49 && b1 == 0x57 && b2 == 0x41 && b3 == 0x44 {
            Some(Identification::IWAD)
        } else if b0 == 0x50 && b1 == 0x57 && b2 == 0x41 && b3 == 0x44 {
            Some(Identification::PWAD)
        } else {
            None
        }
    }
}

/// The 4 characters the tag of `kind` is written as.
pub open spec fn tag_chars(kind: Identification) -> Seq<char> {
    match kind {
        Identification::IWAD => seq!['I', 'W', 'A', 'D'],
        Identification::PWAD => seq!['P', 'W', 'A', 'D'],
    }
}

impl Identification {
    /// The archive kind written out as its 4-character tag.
    pub fn tag_string(&self) -> (r: String)
        ensures
            r@ == tag_chars(*self),
    {
        match self {
            Identification::IWAD => {
                let s = "IWAD".to_string();
                proof {
                    reveal_strlit("IWAD");
                    assert(s@ =~= tag_chars(Identification::IWAD));
                }
                s
            },
            Identification::PWAD => {
                let s = "PWAD".to_string();
                proof {
                    reveal_strlit("PWAD");
                    assert(s@ =~= tag_chars(Identification::PWAD));
                }
                s
            },
        }
    }
}

/// What a decoded header must say about the buffer it came from: the tag
/// names the kind, and the two counters are the signed little-endian fields
/// at bytes 4 and 8.
pub open spec fn header_matches(h: Header, b: Seq<u8>) -> bool {
    &&& b.len() >= 12
    &&& tag_kind(b[0], b[1], b[2], b[3]) == Some(h.identification)
    &&& h.numlumps as int == le_i32_at(b, 4)
    &&& h.infotablesofs as int == le_i32_at(b, 8)
}

/// Decodes the 12-byte header at the start of `wad`: the archive kind from
/// the 4-byte tag, then the lump count and the directory offset as signed
/// little-endian integers. Fails exactly on a short buffer or an
/// unrecognized tag.
pub fn decode_header(wad: &Vec<u8>) -> (r: Result<Header, ParseError>)
    ensures
        match r {
            Ok(h) => header_matches(h, wad@),
            Err(ParseError::TruncatedHeader) => wad@.len() < 12,
            Err(ParseError::UnrecognizedIdentification) => wad@.len() >= 12
                && tag_kind(wad@[0], wad@[1], wad@[2], wad@[3]) is None,
        },
{
    if wad.len() < 12 {
        return Err(ParseError::TruncatedHeader);
    }
    let identification = match Identification::from_tag(wad[0], wad[1], wad[2], wad[3]) {
        Some(kind) => kind,
        None => {
            return Err(ParseError::UnrecognizedIdentification);
        },
    };
    let numlumps = read_i32_le(wad, 4);
    let infotablesofs = read_i32_le(wad, 8);
    Ok(Header { identification, numlumps, infotablesofs })
}

/// What a decoded descriptor must say about the 16-byte record at byte `j`
/// of the buffer: position and size are its two signed little-endian fields,
/// the name is its trailing 8-byte field decoded as text.
pub open spec fn descriptor_matches(d: Directory, b: Seq<u8>, j: int) -> bool {
    &&& d.filepos as int == le_i32_at(b, j)
    &&& d.size as int == le_i32_at(b, j + 4)
    &&& d.name@ == lossy_utf8(b.subrange(j + 8, j + 16))
}

/// How many whole 16-byte records fit between `off` and the end of a buffer
/// of `len` bytes: none at all when `off` lies outside the buffer.
pub open spec fn record_count(len: int, off: int) -> int {
    if 0 <= off <= len {
        (len - off) / 16
    } else {
        0
    }
}

/// Decodes the 16-byte directory record at byte `index` of the buffer into a
/// lump descriptor.
pub fn read_directory_entry(wad: &Vec<u8>, index: usize) -> (r: Directory)
    requires
        index + 16 <= wad@.len(),
    ensures
        descriptor_matches(r, wad@, index as int),
{
    let n: usize = wad.len();
    proof {
        assert(index + 16 <= n);
    }
    let filepos = read_i32_le(wad, index);
    let size = read_i32_le(wad, index + 4);
    let mut name_bytes: Vec<u8> = Vec::new();
    let mut k: usize = 0;
    while k < 8
        invariant
            index + 16 <= wad@.len() <= usize::MAX,
            k <= 8,
            name_bytes@.len() == k,
            forall|i: int| 0 <= i < k ==> name_bytes@[i] == wad@[index + 8 + i],
        decreases 8 - k,
    {
        name_bytes.push(wad[index + 8 + k]);
        k = k + 1;
    }
    proof {
        assert(name_bytes@ =~= wad@.subrange(index as int + 8, index as int + 16));
    }
    let name = lossy_string(&name_bytes);
    Directory { filepos, size, name }
}

/// Walks the directory: starting at byte `offset`, decodes one 16-byte
/// record after another until no whole record is left in the buffer. A
/// trailing partial record is ignored; an offset that is negative or lies
/// past the buffer yields an empty directory rather than an error.
pub fn decode_directory(wad: &Vec<u8>, offset: i32) -> (r: Vec<Directory>)
    ensures
        r@.len() == record_count(wad@.len() as int, offset as int),
        forall|i: int|
            0 <= i < r@.len() ==> descriptor_matches(
                #[trigger] r@[i],
                wad@,
                offset + 16 * i,
            ),
{
    let mut directory: Vec<Directory> = Vec::new();
    if offset < 0 {
        return directory;
    }
    let start: usize = offset as usize;
    if start > wad.len() {
        return directory;
    }
    let mut index: usize = start;
    while wad.len() - index >= 16
        invariant
            offset as int == start as int,
            start <= index <= wad@.len(),
            index as int == start + 16 * directory@.len(),
            forall|i: int|
                0 <= i < directory@.len() ==> descriptor_matches(
                    #[trigger] directory@[i],
                    wad@,
                    start + 16 * i,
                ),
        decreases wad@.len() - index,
    {
        let entry = read_directory_entry(wad, index);
        directory.push(entry);
        index = index + 16;
    }
    proof {
        lemma_fundamental_div_mod_converse(
            wad@.len() - start,
            16,
            directory@.len() as int,
            wad@.len() - index,
        );
    }
    directory
}

/// Decodes a whole archive buffer: the header first, then — with the
/// directory offset the header holds — the ordered sequence of lump
/// descriptors. Fails exactly when the header does.
pub fn parse_wad(wad: &Vec<u8>) -> (r: Result<(Header, Vec<Directory>), ParseError>)
    ensures
        match r {
            Ok(p) => {
                &&& header_matches(p.0, wad@)
                &&& p.1@.len() == record_count(wad@.len() as int, p.0.infotablesofs as int)
                &&& forall|i: int|
                    0 <= i < p.1@.len() ==> descriptor_matches(
                        #[trigger] p.1@[i],
                        wad@,
                        p.0.infotablesofs + 16 * i,
                    )
            },
            Err(ParseError::TruncatedHeader) => wad@.len() < 12,
            Err(ParseError::UnrecognizedIdentification) => wad@.len() >= 12
                && tag_kind(wad@[0], wad@[1], wad@[2], wad@[3]) is None,
        },
{
    let header = match decode_header(wad) {
        Ok(h) => h,
        Err(e) => {
            return Err(e);
        },
    };
    let directory = decode_directory(wad, header.infotablesofs);
    Ok((header, directory))
}

/// Law: a buffer whose first 12 bytes encode a recognized tag and two signed
/// little-endian fields decodes to exactly that header — every header that
/// `header_matches` accepts for the buffer carries the encoded kind, lump
/// count and directory offset, negative values included.
pub proof fn lemma_header_round_trip(kind: Identification, numlumps: i32, infotablesofs: i32, buf: Seq<u8>)
    requires
        buf.len() >= 12,
        buf.subrange(0, 4) == tag_bytes(kind),
        buf.subrange(4, 8) == i32_to_le_bytes(numlumps),
        buf.subrange(8, 12) == i32_to_le_bytes(infotablesofs),
    ensures
        tag_kind(buf[0], buf[1], buf[2], buf[3]) == Some(kind),
        le_i32_at(buf, 4) == numlumps,
        le_i32_at(buf, 8) == infotablesofs,
        forall|h: Header|
            header_matches(h, buf) <==> h == (Header { identification: kind, numlumps, infotablesofs }),
{
    assert(buf[0] == buf.subrange(0, 4)[0]);
    assert(buf[1] == buf.subrange(0, 4)[1]);
    assert(buf[2] == buf.subrange(0, 4)[2]);
    assert(buf[3] == buf.subrange(0, 4)[3]);
    lemma_i32_le_round_trip(numlumps);
    lemma_i32_le_round_trip(infotablesofs);
    assert(buf.subrange(4, 8) =~= i32_to_le_bytes(numlumps).subrange(0, 4));
    assert(buf.subrange(8, 12) =~= i32_to_le_bytes(infotablesofs).subrange(0, 4));
}

/// A directory record as it is laid out on disk, before any text decoding:
/// the two signed fields and the raw 8-byte name field.
pub ghost struct RawRecord {
    pub filepos: i32,
    pub size: i32,
    pub name: Seq<u8>,
}

/// A raw record is well formed when its name field has its fixed 8 bytes.
pub open spec fn record_valid(r: RawRecord) -> bool {
    r.name.len() == 8
}

/// The 16 bytes a raw record is written as: two little-endian fields, then
/// the name field verbatim.
pub open spec fn encode_record(r: RawRecord) -> Seq<u8> {
    i32_to_le_bytes(r.filepos) + i32_to_le_bytes(r.size) + r.name
}

/// The bytes of a whole directory: its records' encodings, in order.
pub open spec fn encode_records(rs: Seq<RawRecord>) -> Seq<u8>
    decreases rs.len(),
{
    if rs.len() == 0 {
        Seq::empty()
    } else {
        encode_record(rs[0]) + encode_records(rs.drop_first())
    }
}

/// An encoded directory of well-formed records takes 16 bytes per record.
pub proof fn lemma_encode_records_len(rs: Seq<RawRecord>)
    requires
        forall|i: int| 0 <= i < rs.len() ==> record_valid(#[trigger] rs[i]),
    ensures
        encode_records(rs).len() == 16 * rs.len(),
    decreases rs.len(),
{
    if rs.len() > 0 {
        lemma_i32_le_round_trip(rs[0].filepos);
        lemma_i32_le_round_trip(rs[0].size);
        assert(forall|i: int|
            0 <= i < rs.drop_first().len() ==> record_valid(#[trigger] rs.drop_first()[i]));
        lemma_encode_records_len(rs.drop_first());
    }
}

/// Record `i` of an encoded directory sits at bytes `16 * i .. 16 * i + 16`.
pub proof fn lemma_encode_records_index(rs: Seq<RawRecord>, i: int)
    requires
        forall|k: int| 0 <= k < rs.len() ==> record_valid(#[trigger] rs[k]),
        0 <= i < rs.len(),
    ensures
        encode_records(rs).subrange(16 * i, 16 * i + 16) == encode_record(rs[i]),
    decreases i,
{
    lemma_encode_records_len(rs);
    lemma_i32_le_round_trip(rs[0].filepos);
    lemma_i32_le_round_trip(rs[0].size);
    assert(forall|k: int|
        0 <= k < rs.drop_first().len() ==> record_valid(#[trigger] rs.drop_first()[k]));
    lemma_encode_records_len(rs.drop_first());
    if i == 0 {
        assert(encode_records(rs).subrange(0, 16) =~= encode_record(rs[0]));
    } else {
        lemma_encode_records_index(rs.drop_first(), i - 1);
        assert(encode_records(rs).subrange(16 * i, 16 * i + 16) =~= encode_records(
            rs.drop_first(),
        ).subrange(16 * (i - 1), 16 * (i - 1) + 16));
        assert(rs.drop_first()[i - 1] == rs[i]);
    }
}

/// Law: decoding reproduces an encoded directory. If the buffer from byte
/// `offset` to its end is exactly the encoding of a sequence of raw records,
/// then any descriptor sequence the directory decoder's contract admits has
/// one descriptor per record, in order, with the record's position, size,
/// and name field (the latter modulo lossy text replacement only).
pub proof fn lemma_directory_round_trip(
    buf: Seq<u8>,
    records: Seq<RawRecord>,
    offset: int,
    descriptors: Seq<Directory>,
)
    requires
        0 <= offset,
        forall|i: int| 0 <= i < records.len() ==> record_valid(#[trigger] records[i]),
        buf.len() == offset + 16 * records.len(),
        buf.subrange(offset, buf.len() as int) == encode_records(records),
        descriptors.len() == record_count(buf.len() as int, offset),
        forall|i: int|
            0 <= i < descriptors.len() ==> descriptor_matches(
                #[trigger] descriptors[i],
                buf,
                offset + 16 * i,
            ),
    ensures
        descriptors.len() == records.len(),
        forall|i: int|
            0 <= i < records.len() ==> {
                &&& (#[trigger] descriptors[i]).filepos == records[i].filepos
                &&& descriptors[i].size == records[i].size
                &&& descriptors[i].name@ == lossy_utf8(records[i].name)
            },
{
    lemma_fundamental_div_mod_converse(16 * records.len() as int, 16, records.len() as int, 0);
    assert(descriptors.len() == records.len());
    assert forall|i: int|
        0 <= i < records.len() implies {
        &&& (#[trigger] descriptors[i]).filepos == records[i].filepos
        &&& descriptors[i].size == records[i].size
        &&& descriptors[i].name@ == lossy_utf8(records[i].name)
    } by {
        let j = offset + 16 * i;
        lemma_encode_records_index(records, i);
        lemma_encode_records_len(records);
        let rec = encode_record(records[i]);
        lemma_i32_le_round_trip(records[i].filepos);
        lemma_i32_le_round_trip(records[i].size);
        assert(buf.subrange(j, j + 16) =~= encode_records(records).subrange(16 * i, 16 * i + 16));
        assert(buf.subrange(j, j + 4) =~= buf.subrange(j, j + 16).subrange(0, 4));
        assert(buf.subrange(j + 4, j + 8) =~= buf.subrange(j, j + 16).subrange(4, 8));
        assert(buf.subrange(j + 8, j + 16) =~= buf.subrange(j, j + 16).subrange(8, 16));
        assert(rec.subrange(0, 4) =~= i32_to_le_bytes(records[i].filepos).subrange(0, 4));
        assert(rec.subrange(4, 8) =~= i32_to_le_bytes(records[i].size).subrange(0, 4));
        assert(rec.subrange(8, 16) =~= records[i].name);
        assert(descriptor_matches(descriptors[i], buf, j));
    }
}

} // verus!

