//! The transfer protocol's messages: mode bytes, the handshake, file and
//! folder headers, batch headers, ping replies, and task ids.
use vstd::prelude::*;
use vstd::utf8::*;
use crate::codec::{
    be_u16_bytes, be_u32_bytes, be_u64_bytes, fits_frame, frame_at, frame_bytes,
    lemma_string_roundtrip, lemma_u16_at_roundtrip, lemma_u32_at_roundtrip,
    lemma_u64_at_roundtrip, push_bytes, push_frame, push_u16_be, push_u32_be, push_u64_be,
    read_frame_at, read_string_at, read_string_lossy_at, read_u16_at, read_u32_at, read_u64_at,
    read_u8_at, string_at, string_bytes, u16_at, u32_at, u64_at, u8_at, write_string, DecodeError,
};

verus! {

/// Size of one read or write buffer when streaming file contents.
pub const CHUNK_SIZE: usize = 4 * 1024 * 1024;

/// Single file, without a task id (older senders).
pub const MODE_FILE: u8 = 0;
/// Folder, without a task id (older senders).
pub const MODE_FOLDER: u8 = 1;
/// Handshake: the connecting device announces itself.
pub const MODE_HANDSHAKE: u8 = 2;
/// Batch: an entry count, then that many file or folder entries.
pub const MODE_BATCH: u8 = 3;
/// Single file preceded by a 16-byte task id.
pub const MODE_FILE_TASK: u8 = 4;
/// Folder preceded by a 16-byte task id.
pub const MODE_FOLDER_TASK: u8 = 5;
/// Ping: the receiver answers with its current device name.
pub const MODE_PING: u8 = 6;

/// Folder entry kind: a regular file (followed by its size and contents).
pub const ENTRY_FILE: u8 = 0;
/// Folder entry kind: a directory.
pub const ENTRY_DIR: u8 = 1;

/// What a connection is for, as told by its first byte.
#[derive(Debug, Clone, Copy, PartialEq, Eq, Structural)]
pub enum Mode {
    File,
    Folder,
    Handshake,
    Batch,
    FileTask,
    FolderTask,
    Ping,
}

/// The byte that announces a mode.
pub open spec fn spec_mode_byte(m: Mode) -> u8 {
    match m {
        Mode::File => MODE_FILE,
        Mode::Folder => MODE_FOLDER,
        Mode::Handshake => MODE_HANDSHAKE,
        Mode::Batch => MODE_BATCH,
        Mode::FileTask => MODE_FILE_TASK,
        Mode::FolderTask => MODE_FOLDER_TASK,
        Mode::Ping => MODE_PING,
    }
}

/// The byte that announces a mode.
pub fn mode_byte(m: Mode) -> (res: u8)
    ensures
        res == spec_mode_byte(m),
{
    match m {
        Mode::File => MODE_FILE,
        Mode::Folder => MODE_FOLDER,
        Mode::Handshake => MODE_HANDSHAKE,
        Mode::Batch => MODE_BATCH,
        Mode::FileTask => MODE_FILE_TASK,
        Mode::FolderTask => MODE_FOLDER_TASK,
        Mode::Ping => MODE_PING,
    }
}

/// Reads the mode of a connection from its first byte; any byte beyond the
/// known modes is refused.
pub fn parse_mode(b: u8) -> (res: Result<Mode, DecodeError>)
    ensures
        b <= 6 ==> (res matches Ok(m) && spec_mode_byte(m) == b),
        b > 6 ==> res == Err::<Mode, DecodeError>(DecodeError::UnknownMode(b)),
{
    match b {
        0 => Ok(Mode::File),
        1 => Ok(Mode::Folder),
        2 => Ok(Mode::Handshake),
        3 => Ok(Mode::Batch),
        4 => Ok(Mode::FileTask),
        5 => Ok(Mode::FolderTask),
        6 => Ok(Mode::Ping),
        _ => Err(DecodeError::UnknownMode(b)),
    }
}

/// Inside a batch, each entry starts with `MODE_FILE` or `MODE_FOLDER`;
/// any other byte is refused.
pub fn parse_batch_entry_mode(b: u8) -> (res: Result<Mode, DecodeError>)
    ensures
        b == MODE_FILE ==> res == Ok::<Mode, DecodeError>(Mode::File),
        b == MODE_FOLDER ==> res == Ok::<Mode, DecodeError>(Mode::Folder),
        b != MODE_FILE && b != MODE_FOLDER ==> res == Err::<Mode, DecodeError>(
            DecodeError::UnknownEntryKind(b),
        ),
{
    if b == MODE_FILE {
        Ok(Mode::File)
    } else if b == MODE_FOLDER {
        Ok(Mode::Folder)
    } else {
        Err(DecodeError::UnknownEntryKind(b))
    }
}

// ---------- handshake ----------

/// A device announcing itself to a peer it connects to.
#[derive(Debug)]
pub struct Handshake {
    pub device_id: String,
    pub device_name: String,
    pub server_port: u16,
    pub platform: String,
    pub version: String,
}

pub struct HandshakeView {
    pub device_id: Seq<char>,
    pub device_name: Seq<char>,
    pub server_port: u16,
    pub platform: Seq<char>,
    pub version: Seq<char>,
}

impl View for Handshake {
    type V = HandshakeView;

    open spec fn view(&self) -> HandshakeView {
        HandshakeView {
            device_id: self.device_id@,
            device_name: self.device_name@,
            server_port: self.server_port,
            platform: self.platform@,
            version: self.version@,
        }
    }
}

/// Whether every text field of a handshake fits in a frame.
pub open spec fn handshake_fits(h: HandshakeView) -> bool {
    fits_frame(h.device_id) && fits_frame(h.device_name) && fits_frame(h.platform) && fits_frame(
        h.version,
    )
}

/// The bytes after the mode byte of a handshake.
pub open spec fn handshake_body_bytes(h: HandshakeView) -> Seq<u8> {
    string_bytes(h.device_id) + string_bytes(h.device_name) + be_u16_bytes(h.server_port)
        + string_bytes(h.platform) + string_bytes(h.version)
}

/// All bytes a sender writes for a handshake.
pub open spec fn handshake_bytes(h: HandshakeView) -> Seq<u8> {
    seq![MODE_HANDSHAKE] + handshake_body_bytes(h)
}

/// Reads a handshake body (what follows the mode byte) at offset `p`.
pub open spec fn handshake_at(b: Seq<u8>, p: int) -> Result<(HandshakeView, int), DecodeError> {
    match string_at(b, p) {
        Err(e) => Err(e),
        Ok((id, p1)) => match string_at(b, p1) {
            Err(e) => Err(e),
            Ok((name, p2)) => match u16_at(b, p2) {
                Err(e) => Err(e),
                Ok((port, p3)) => match string_at(b, p3) {
                    Err(e) => Err(e),
                    Ok((platform, p4)) => match string_at(b, p4) {
                        Err(e) => Err(e),
                        Ok((version, p5)) => Ok(
                            (
                                HandshakeView {
                                    device_id: id,
                                    device_name: name,
                                    server_port: port,
                                    platform,
                                    version,
                                },
                                p5,
                            ),
                        ),
                    },
                },
            },
        },
    }
}

/// The bytes a sender writes for a handshake: the mode byte, the device id,
/// the device name, the server port (big-endian `u16`), the platform and
/// the version, each string length-prefixed.
pub fn encode_handshake(h: &Handshake) -> (res: Vec<u8>)
    ensures
        res@ == handshake_bytes(h@),
{
    let mut out: Vec<u8> = Vec::new();
    out.push(MODE_HANDSHAKE);
    write_string(&mut out, h.device_id.as_str());
    write_string(&mut out, h.device_name.as_str());
    push_u16_be(&mut out, h.server_port);
    write_string(&mut out, h.platform.as_str());
    write_string(&mut out, h.version.as_str());
    assert(out@ =~= handshake_bytes(h@));
    out
}

/// Reads a handshake body (the bytes after the mode byte) from the start of
/// `buf`; returns it with the number of bytes it took.
pub fn decode_handshake(buf: &[u8]) -> (res: Result<(Handshake, usize), DecodeError>)
    ensures
        match handshake_at(buf@, 0) {
            Ok((h, q)) => res matches Ok((g, r)) && g@ == h && r == q,
            Err(e) => res matches Err(f) && f == e,
        },
{
    let (device_id, p1) = match read_string_at(buf, 0) {
        Ok(x) => x,
        Err(e) => {
            return Err(e);
        },
    };
    let (device_name, p2) = match read_string_at(buf, p1) {
        Ok(x) => x,
        Err(e) => {
            return Err(e);
        },
    };
    let (server_port, p3) = match read_u16_at(buf, p2) {
        Ok(x) => x,
        Err(e) => {
            return Err(e);
        },
    };
    let (platform, p4) = match read_string_at(buf, p3) {
        Ok(x) => x,
        Err(e) => {
            return Err(e);
        },
    };
    let (version, p5) = match read_string_at(buf, p4) {
        Ok(x) => x,
        Err(e) => {
            return Err(e);
        },
    };
    Ok((Handshake { device_id, device_name, server_port, platform, version }, p5))
}

/// What the receiver reads back is what the sender wrote: a handshake body
/// followed by any other bytes decodes to the same handshake and stops
/// exactly at its end.
pub proof fn lemma_handshake_roundtrip(h: HandshakeView, rest: Seq<u8>)
    requires
        handshake_fits(h),
    ensures
        handshake_at(handshake_body_bytes(h) + rest, 0) == Ok::<(HandshakeView, int), DecodeError>(
            (h, handshake_body_bytes(h).len() as int),
        ),
{
    let s1 = string_bytes(h.device_id);
    let s2 = string_bytes(h.device_name);
    let s3 = be_u16_bytes(h.server_port);
    let s4 = string_bytes(h.platform);
    let s5 = string_bytes(h.version);
    let b = handshake_body_bytes(h) + rest;
    let e: Seq<u8> = seq![];
    assert(b =~= e + s1 + (s2 + s3 + s4 + s5 + rest));
    lemma_string_roundtrip(e, h.device_id, s2 + s3 + s4 + s5 + rest);
    assert(b =~= s1 + s2 + (s3 + s4 + s5 + rest));
    lemma_string_roundtrip(s1, h.device_name, s3 + s4 + s5 + rest);
    assert(b =~= (s1 + s2) + s3 + (s4 + s5 + rest));
    lemma_u16_at_roundtrip(s1 + s2, h.server_port, s4 + s5 + rest);
    assert(b =~= (s1 + s2 + s3) + s4 + (s5 + rest));
    lemma_string_roundtrip(s1 + s2 + s3, h.platform, s5 + rest);
    assert(b =~= (s1 + s2 + s3 + s4) + s5 + rest);
    lemma_string_roundtrip(s1 + s2 + s3 + s4, h.version, rest);
}

/// The bytes a sender writes for a handshake, field by field: the mode
/// byte 2; the device id's UTF-8 length (big-endian `u32`) and bytes; the
/// same for the device name; the server port, high byte first; then the
/// platform, and last the version, each length-prefixed.
pub proof fn lemma_handshake_layout(h: HandshakeView)
    ensures
        handshake_bytes(h) == seq![2u8] + be_u32_bytes(encode_utf8(h.device_id).len() as u32)
            + encode_utf8(h.device_id) + be_u32_bytes(encode_utf8(h.device_name).len() as u32)
            + encode_utf8(h.device_name) + seq![
            (h.server_port / 256) as u8,
            (h.server_port % 256) as u8,
        ] + be_u32_bytes(encode_utf8(h.platform).len() as u32) + encode_utf8(h.platform)
            + be_u32_bytes(encode_utf8(h.version).len() as u32) + encode_utf8(h.version),
{
    let x = h.server_port;
    assert((x >> 8u16) as u8 == (x / 256) as u8) by (bit_vector);
    assert(x as u8 == (x % 256) as u8) by (bit_vector);
    assert(be_u16_bytes(x) =~= seq![(x / 256) as u8, (x % 256) as u8]);
    assert(handshake_bytes(h) =~= seq![2u8] + be_u32_bytes(encode_utf8(h.device_id).len() as u32)
        + encode_utf8(h.device_id) + be_u32_bytes(encode_utf8(h.device_name).len() as u32)
        + encode_utf8(h.device_name) + seq![(x / 256) as u8, (x % 256) as u8] + be_u32_bytes(
        encode_utf8(h.platform).len() as u32,
    ) + encode_utf8(h.platform) + be_u32_bytes(encode_utf8(h.version).len() as u32) + encode_utf8(
        h.version,
    ));
}

/// For one-character fields the handshake takes 23 bytes: the platform's
/// character is byte 17 and the version's byte 22, whatever the
/// characters and the port.
pub proof fn lemma_handshake_short_fields(h: HandshakeView)
    requires
        encode_utf8(h.device_id).len() == 1,
        encode_utf8(h.device_name).len() == 1,
        encode_utf8(h.platform).len() == 1,
        encode_utf8(h.version).len() == 1,
    ensures
        handshake_bytes(h).len() == 23,
        handshake_bytes(h)[0] == 2,
        handshake_bytes(h)[5] == encode_utf8(h.device_id)[0],
        handshake_bytes(h)[10] == encode_utf8(h.device_name)[0],
        handshake_bytes(h)[11] == (h.server_port / 256) as u8,
        handshake_bytes(h)[12] == (h.server_port % 256) as u8,
        handshake_bytes(h)[17] == encode_utf8(h.platform)[0],
        handshake_bytes(h)[22] == encode_utf8(h.version)[0],
{
    lemma_handshake_layout(h);
    let x = h.server_port;
    let l: Seq<u8> = be_u32_bytes(1u32);
    assert(handshake_bytes(h) =~= seq![2u8] + l + encode_utf8(h.device_id) + l + encode_utf8(
        h.device_name,
    ) + seq![(x / 256) as u8, (x % 256) as u8] + l + encode_utf8(h.platform) + l + encode_utf8(
        h.version,
    ));
}

/// A receiver reads the handshake fields in the order a sender writes
/// them: the device id, the device name, the port, the platform, then the
/// version; whatever follows is left unread.
pub proof fn lemma_handshake_field_order(
    device_id: Seq<char>,
    device_name: Seq<char>,
    server_port: u16,
    platform: Seq<char>,
    version: Seq<char>,
    rest: Seq<u8>,
)
    requires
        fits_frame(device_id),
        fits_frame(device_name),
        fits_frame(platform),
        fits_frame(version),
    ensures
        ({
            let body = string_bytes(device_id) + string_bytes(device_name) + be_u16_bytes(server_port)
                + string_bytes(platform) + string_bytes(version);
            handshake_at(body + rest, 0) == Ok::<(HandshakeView, int), DecodeError>(
                (
                    HandshakeView { device_id, device_name, server_port, platform, version },
                    body.len() as int,
                ),
            )
        }),
{
    let h = HandshakeView { device_id, device_name, server_port, platform, version };
    lemma_handshake_roundtrip(h, rest);
}

// ---------- file header ----------

/// What precedes the contents of one file: its name and its size in bytes.
#[derive(Debug)]
pub struct FileHeader {
    pub name: String,
    pub size: u64,
}

/// The bytes of a file header: the name, length-prefixed, then the size as
/// a big-endian `u64`.
pub open spec fn file_header_bytes(name: Seq<char>, size: u64) -> Seq<u8> {
    string_bytes(name) + be_u64_bytes(size)
}

/// Reads a file header at offset `p`.
pub open spec fn file_header_at(b: Seq<u8>, p: int) -> Result<(Seq<char>, u64, int), DecodeError> {
    match string_at(b, p) {
        Err(e) => Err(e),
        Ok((name, p1)) => match u64_at(b, p1) {
            Err(e) => Err(e),
            Ok((size, p2)) => Ok((name, size, p2)),
        },
    }
}

/// The bytes of a file header.
pub fn encode_file_header(name: &str, size: u64) -> (res: Vec<u8>)
    ensures
        res@ == file_header_bytes(name@, size),
{
    let mut out: Vec<u8> = Vec::new();
    write_string(&mut out, name);
    push_u64_be(&mut out, size);
    assert(out@ =~= file_header_bytes(name@, size));
    out
}

/// Reads a file header from the start of `buf`.
pub fn decode_file_header(buf: &[u8]) -> (res: Result<(FileHeader, usize), DecodeError>)
    ensures
        match file_header_at(buf@, 0) {
            Ok((name, size, q)) => res matches Ok((h, r)) && h.name@ == name && h.size == size
                && r == q,
            Err(e) => res matches Err(f) && f == e,
        },
{
    let (name, p1) = match read_string_at(buf, 0) {
        Ok(x) => x,
        Err(e) => {
            return Err(e);
        },
    };
    let (size, p2) = match read_u64_at(buf, p1) {
        Ok(x) => x,
        Err(e) => {
            return Err(e);
        },
    };
    Ok((FileHeader { name, size }, p2))
}

/// A file header is read back as written.
pub proof fn lemma_file_header_roundtrip(name: Seq<char>, size: u64, rest: Seq<u8>)
    requires
        fits_frame(name),
    ensures
        file_header_at(file_header_bytes(name, size) + rest, 0) == Ok::<
            (Seq<char>, u64, int),
            DecodeError,
        >((name, size, file_header_bytes(name, size).len() as int)),
{
    let s1 = string_bytes(name);
    let s2 = be_u64_bytes(size);
    let b = file_header_bytes(name, size) + rest;
    let e: Seq<u8> = seq![];
    assert(b =~= e + s1 + (s2 + rest));
    lemma_string_roundtrip(e, name, s2 + rest);
    assert(b =~= s1 + s2 + rest);
    lemma_u64_at_roundtrip(s1, size, rest);
}

// ---------- folder header and entries ----------

/// What precedes the entries of a folder: the total size of its files and
/// the number of entries.
#[derive(Debug)]
pub struct FolderHeader {
    pub total_size: u64,
    pub entry_count: u32,
}

pub open spec fn folder_header_bytes(total_size: u64, entry_count: u32) -> Seq<u8> {
    be_u64_bytes(total_size) + be_u32_bytes(entry_count)
}

pub open spec fn folder_header_at(b: Seq<u8>, p: int) -> Result<(u64, u32, int), DecodeError> {
    match u64_at(b, p) {
        Err(e) => Err(e),
        Ok((total, p1)) => match u32_at(b, p1) {
            Err(e) => Err(e),
            Ok((count, p2)) => Ok((total, count, p2)),
        },
    }
}

/// The bytes of a folder header: total size (`u64`), entry count (`u32`).
pub fn encode_folder_header(total_size: u64, entry_count: u32) -> (res: Vec<u8>)
    ensures
        res@ == folder_header_bytes(total_size, entry_count),
{
    let mut out: Vec<u8> = Vec::new();
    push_u64_be(&mut out, total_size);
    push_u32_be(&mut out, entry_count);
    assert(out@ =~= folder_header_bytes(total_size, entry_count));
    out
}

/// Reads a folder header from the start of `buf`.
pub fn decode_folder_header(buf: &[u8]) -> (res: Result<(FolderHeader, usize), DecodeError>)
    ensures
        match folder_header_at(buf@, 0) {
            Ok((t, c, q)) => res matches Ok((h, r)) && h.total_size == t && h.entry_count == c
                && r == q,
            Err(e) => res matches Err(f) && f == e,
        },
{
    let (total_size, p1) = match read_u64_at(buf, 0) {
        Ok(x) => x,
        Err(e) => {
            return Err(e);
        },
    };
    let (entry_count, p2) = match read_u32_at(buf, p1) {
        Ok(x) => x,
        Err(e) => {
            return Err(e);
        },
    };
    Ok((FolderHeader { total_size, entry_count }, p2))
}

/// A folder header is read back as written.
pub proof fn lemma_folder_header_roundtrip(total_size: u64, entry_count: u32, rest: Seq<u8>)
    ensures
        folder_header_at(folder_header_bytes(total_size, entry_count) + rest, 0) == Ok::<
            (u64, u32, int),
            DecodeError,
        >((total_size, entry_count, 12)),
{
    let s1 = be_u64_bytes(total_size);
    let s2 = be_u32_bytes(entry_count);
    let e: Seq<u8> = seq![];
    let b = folder_header_bytes(total_size, entry_count) + rest;
    assert(b =~= e + s1 + (s2 + rest));
    lemma_u64_at_roundtrip(e, total_size, s2 + rest);
    assert(b =~= s1 + s2 + rest);
    lemma_u32_at_roundtrip(s1, entry_count, rest);
}

/// The head of one folder entry: its kind byte and its path relative to
/// the folder's parent, `/`-separated. A file entry is followed by its size
/// (`u64`) and contents.
#[derive(Debug)]
pub struct EntryHeader {
    pub kind: u8,
    pub path: String,
}

pub open spec fn entry_header_bytes(kind: u8, path: Seq<char>) -> Seq<u8> {
    seq![kind] + string_bytes(path)
}

pub open spec fn entry_header_at(b: Seq<u8>, p: int) -> Result<(u8, Seq<char>, int), DecodeError> {
    match u8_at(b, p) {
        Err(e) => Err(e),
        Ok((kind, p1)) => match string_at(b, p1) {
            Err(e) => Err(e),
            Ok((path, p2)) => Ok((kind, path, p2)),
        },
    }
}

/// The bytes of an entry head: kind byte, then the path, length-prefixed.
pub fn encode_entry_header(kind: u8, path: &str) -> (res: Vec<u8>)
    ensures
        res@ == entry_header_bytes(kind, path@),
{
    let mut out: Vec<u8> = Vec::new();
    out.push(kind);
    write_string(&mut out, path);
    assert(out@ =~= entry_header_bytes(kind, path@));
    out
}

/// Reads an entry head from the start of `buf`.
pub fn decode_entry_header(buf: &[u8]) -> (res: Result<(EntryHeader, usize), DecodeError>)
    ensures
        match entry_header_at(buf@, 0) {
            Ok((k, path, q)) => res matches Ok((h, r)) && h.kind == k && h.path@ == path && r
                == q,
            Err(e) => res matches Err(f) && f == e,
        },
{
    let (kind, p1) = match read_u8_at(buf, 0) {
        Ok(x) => x,
        Err(e) => {
            return Err(e);
        },
    };
    let (path, p2) = match read_string_at(buf, p1) {
        Ok(x) => x,
        Err(e) => {
            return Err(e);
        },
    };
    Ok((EntryHeader { kind, path }, p2))
}

/// An entry head is read back as written.
pub proof fn lemma_entry_header_roundtrip(kind: u8, path: Seq<char>, rest: Seq<u8>)
    requires
        fits_frame(path),
    ensures
        entry_header_at(entry_header_bytes(kind, path) + rest, 0) == Ok::<
            (u8, Seq<char>, int),
            DecodeError,
        >((kind, path, entry_header_bytes(kind, path).len() as int)),
{
    reveal(u8_at);
    let s1: Seq<u8> = seq![kind];
    let b = entry_header_bytes(kind, path) + rest;
    assert(b =~= s1 + string_bytes(path) + rest);
    lemma_string_roundtrip(s1, path, rest);
}

/// Whether an entry kind is a directory (`Some(true)`), a file
/// (`Some(false)`), or unknown (`None`).
pub fn entry_is_dir(kind: u8) -> (res: Option<bool>)
    ensures
        res == (if kind == ENTRY_DIR {
            Some(true)
        } else if kind == ENTRY_FILE {
            Some(false)
        } else {
            None::<bool>
        }),
{
    if kind == ENTRY_DIR {
        Some(true)
    } else if kind == ENTRY_FILE {
        Some(false)
    } else {
        None
    }
}

/// The size of a file entry (big-endian `u64`) at the start of `buf`.
pub fn decode_entry_size(buf: &[u8]) -> (res: Result<(u64, usize), DecodeError>)
    ensures
        match u64_at(buf@, 0) {
            Ok((v, q)) => res matches Ok((w, r)) && w == v && r == q,
            Err(e) => res == Err::<(u64, usize), DecodeError>(e),
        },
{
    read_u64_at(buf, 0)
}

/// The bytes of a file entry's size.
pub fn encode_entry_size(size: u64) -> (res: Vec<u8>)
    ensures
        res@ == be_u64_bytes(size),
{
    let mut out: Vec<u8> = Vec::new();
    push_u64_be(&mut out, size);
    assert(out@ =~= be_u64_bytes(size));
    out
}

// ---------- batch, task prefix, ping ----------

/// The bytes that open a batch: `MODE_BATCH`, then the entry count (`u32`).
pub fn encode_batch_header(entry_count: u32) -> (res: Vec<u8>)
    ensures
        res@ == seq![MODE_BATCH] + be_u32_bytes(entry_count),
{
    let mut out: Vec<u8> = Vec::new();
    out.push(MODE_BATCH);
    push_u32_be(&mut out, entry_count);
    assert(out@ =~= seq![MODE_BATCH] + be_u32_bytes(entry_count));
    out
}

/// Reads a batch's entry count (after its mode byte) from the start of `buf`.
pub fn decode_batch_count(buf: &[u8]) -> (res: Result<(u32, usize), DecodeError>)
    ensures
        match u32_at(buf@, 0) {
            Ok((v, q)) => res matches Ok((w, r)) && w == v && r == q,
            Err(e) => res == Err::<(u32, usize), DecodeError>(e),
        },
{
    read_u32_at(buf, 0)
}

/// The bytes that open a task transfer: the mode byte, then the 16-byte
/// task id.
pub fn encode_task_prefix(mode: u8, task_id: &[u8; 16]) -> (res: Vec<u8>)
    ensures
        res@ == seq![mode] + task_id@,
{
    let mut out: Vec<u8> = Vec::new();
    out.push(mode);
    push_bytes(&mut out, task_id.as_slice());
    assert(out@ =~= seq![mode] + task_id@);
    out
}

/// Reads a 16-byte task id from the start of `buf`.
pub fn decode_task_id(buf: &[u8]) -> (res: Result<([u8; 16], usize), DecodeError>)
    ensures
        buf@.len() < 16 ==> res == Err::<([u8; 16], usize), DecodeError>(
            DecodeError::NeedMore(16),
        ),
        buf@.len() >= 16 ==> (res matches Ok((id, r)) && id@ == buf@.take(16) && r == 16),
{
    if buf.len() < 16 {
        return Err(DecodeError::NeedMore(16));
    }
    let mut id = [0u8; 16];
    let mut i: usize = 0;
    while i < 16
        invariant
            i <= 16,
            buf@.len() >= 16,
            forall|j: int| 0 <= j < i ==> id@[j] == buf@[j],
        decreases 16 - i,
    {
        id[i] = buf[i];
        i = i + 1;
    }
    assert(id@ =~= buf@.take(16));
    Ok((id, 16))
}

/// The bytes of a ping answer: the device name, length-prefixed.
pub fn encode_ping_reply(device_name: &str) -> (res: Vec<u8>)
    ensures
        res@ == string_bytes(device_name@),
{
    let mut out: Vec<u8> = Vec::new();
    write_string(&mut out, device_name);
    assert(out@ =~= string_bytes(device_name@));
    out
}

/// Reads a ping answer from the start of `buf`; invalid UTF-8 is replaced
/// rather than refused.
pub fn decode_ping_reply(buf: &[u8]) -> (res: Result<(String, usize), DecodeError>)
    ensures
        match frame_at(buf@, 0) {
            Ok((v, q)) => res matches Ok((t, r)) && r == q && (valid_utf8(v) ==> t@
                == decode_utf8(v)),
            Err(e) => res == Err::<(String, usize), DecodeError>(e),
        },
{
    read_string_lossy_at(buf, 0)
}

/// One chunk of the first-generation protocol: a `u32` length, then the bytes.
pub fn encode_chunk(data: &[u8]) -> (res: Vec<u8>)
    ensures
        res@ == frame_bytes(data@),
{
    let mut out: Vec<u8> = Vec::new();
    push_frame(&mut out, data);
    assert(out@ =~= frame_bytes(data@));
    out
}

/// Reads one chunk of the first-generation protocol from the start of `buf`.
pub fn decode_chunk(buf: &[u8]) -> (res: Result<(Vec<u8>, usize), DecodeError>)
    ensures
        match frame_at(buf@, 0) {
            Ok((v, q)) => res matches Ok((w, r)) && w@ == v && r == q,
            Err(e) => res == Err::<(Vec<u8>, usize), DecodeError>(e),
        },
{
    read_frame_at(buf, 0)
}

} // verus!
