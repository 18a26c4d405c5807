use easy2send::codec::{read_string, write_string, DecodeError};
use easy2send::protocol::{
    decode_batch_count, decode_chunk, decode_entry_header, decode_entry_size,
    decode_file_header, decode_folder_header, decode_handshake, decode_ping_reply,
    decode_task_id, encode_batch_header, encode_chunk, encode_entry_header, encode_entry_size,
    encode_file_header, encode_folder_header, encode_handshake, encode_ping_reply,
    encode_task_prefix, entry_is_dir, mode_byte, parse_batch_entry_mode, parse_mode, Handshake,
    Mode, CHUNK_SIZE, ENTRY_DIR, ENTRY_FILE, MODE_BATCH, MODE_FILE, MODE_FILE_TASK, MODE_FOLDER,
    MODE_FOLDER_TASK, MODE_HANDSHAKE, MODE_PING,
};

#[test]
fn mode_bytes_are_the_wire_values() {
    assert_eq!(MODE_FILE, 0);
    assert_eq!(MODE_FOLDER, 1);
    assert_eq!(MODE_HANDSHAKE, 2);
    assert_eq!(MODE_BATCH, 3);
    assert_eq!(MODE_FILE_TASK, 4);
    assert_eq!(MODE_FOLDER_TASK, 5);
    assert_eq!(MODE_PING, 6);
    assert_eq!(ENTRY_FILE, 0);
    assert_eq!(ENTRY_DIR, 1);
    assert_eq!(CHUNK_SIZE, 4 * 1024 * 1024);
    assert_eq!(mode_byte(Mode::Ping), 6);
    assert_eq!(mode_byte(Mode::FolderTask), 5);
}

#[test]
fn parse_mode_reads_every_known_byte_back() {
    for b in 0u8..=6 {
        let m = parse_mode(b).unwrap();
        assert_eq!(mode_byte(m), b);
    }
    assert_eq!(parse_mode(3), Ok(Mode::Batch));
}

#[test]
fn parse_mode_refuses_unknown_byte() {
    assert_eq!(parse_mode(7), Err(DecodeError::UnknownMode(7)));
    assert_eq!(parse_mode(255), Err(DecodeError::UnknownMode(255)));
}

#[test]
fn batch_entries_are_files_or_folders_only() {
    assert_eq!(parse_batch_entry_mode(0), Ok(Mode::File));
    assert_eq!(parse_batch_entry_mode(1), Ok(Mode::Folder));
    assert_eq!(parse_batch_entry_mode(4), Err(DecodeError::UnknownEntryKind(4)));
}

#[test]
fn string_frame_layout_and_roundtrip() {
    let mut out = Vec::new();
    write_string(&mut out, "héllo");
    assert_eq!(out, vec![0, 0, 0, 6, b'h', 0xc3, 0xa9, b'l', b'l', b'o']);
    out.push(99);
    let (s, used) = read_string(&out).unwrap();
    assert_eq!(s, "héllo");
    assert_eq!(used, 10);
}

#[test]
fn read_string_asks_for_more_input() {
    assert_eq!(read_string(&[0, 0]).unwrap_err(), DecodeError::NeedMore(4));
    assert_eq!(read_string(&[0, 0, 0, 5, b'a']).unwrap_err(), DecodeError::NeedMore(9));
}

#[test]
fn read_string_refuses_invalid_utf8() {
    assert_eq!(read_string(&[0, 0, 0, 2, 0xff, 0xfe]).unwrap_err(), DecodeError::InvalidUtf8);
}

fn sample_handshake() -> Handshake {
    Handshake {
        device_id: "0b8f3c2e-1111-4222-8333-444455556666".to_string(),
        device_name: "客厅电脑".to_string(),
        server_port: 53317,
        platform: "windows".to_string(),
        version: "1.2.0".to_string(),
    }
}

#[test]
fn handshake_roundtrip() {
    let h = sample_handshake();
    let mut bytes = encode_handshake(&h);
    assert_eq!(bytes[0], MODE_HANDSHAKE);
    let n = bytes.len();
    bytes.extend_from_slice(&[1, 2, 3]);
    let (back, used) = decode_handshake(&bytes[1..]).unwrap();
    assert_eq!(used, n - 1);
    assert_eq!(back.device_id, h.device_id);
    assert_eq!(back.device_name, h.device_name);
    assert_eq!(back.server_port, 53317);
    assert_eq!(back.platform, "windows");
    assert_eq!(back.version, "1.2.0");
}

#[test]
fn handshake_port_is_big_endian() {
    let h = Handshake {
        device_id: "a".to_string(),
        device_name: "b".to_string(),
        server_port: 0x1234,
        platform: "c".to_string(),
        version: "d".to_string(),
    };
    let bytes = encode_handshake(&h);
    // mode, "a" framed (5), "b" framed (5), then the port
    assert_eq!(&bytes[11..13], &[0x12, 0x34]);
}

#[test]
fn handshake_truncated_needs_more() {
    let bytes = encode_handshake(&sample_handshake());
    let body = &bytes[1..bytes.len() - 1];
    assert!(matches!(decode_handshake(body), Err(DecodeError::NeedMore(_))));
}

#[test]
fn file_header_roundtrip() {
    let bytes = encode_file_header("报告.pdf", 1_234_567_890_123);
    assert_eq!(&bytes[0..4], &[0, 0, 0, 10]);
    let (h, used) = decode_file_header(&bytes).unwrap();
    assert_eq!(h.name, "报告.pdf");
    assert_eq!(h.size, 1_234_567_890_123);
    assert_eq!(used, bytes.len());
}

#[test]
fn file_header_needs_size_bytes() {
    let bytes = encode_file_header("a", 5);
    assert_eq!(decode_file_header(&bytes[..7]).unwrap_err(), DecodeError::NeedMore(13));
}

#[test]
fn folder_header_roundtrip() {
    let bytes = encode_folder_header(0x0102030405060708, 3);
    assert_eq!(bytes, vec![1, 2, 3, 4, 5, 6, 7, 8, 0, 0, 0, 3]);
    let (h, used) = decode_folder_header(&bytes).unwrap();
    assert_eq!(h.total_size, 0x0102030405060708);
    assert_eq!(h.entry_count, 3);
    assert_eq!(used, 12);
    assert_eq!(decode_folder_header(&bytes[..11]).unwrap_err(), DecodeError::NeedMore(12));
}

#[test]
fn entry_header_roundtrip() {
    let bytes = encode_entry_header(ENTRY_DIR, "photos/2024");
    assert_eq!(bytes[0], ENTRY_DIR);
    let (e, used) = decode_entry_header(&bytes).unwrap();
    assert_eq!(e.kind, ENTRY_DIR);
    assert_eq!(e.path, "photos/2024");
    assert_eq!(used, bytes.len());
    assert_eq!(decode_entry_header(&[]).unwrap_err(), DecodeError::NeedMore(1));
}

#[test]
fn entry_kinds() {
    assert_eq!(entry_is_dir(ENTRY_DIR), Some(true));
    assert_eq!(entry_is_dir(ENTRY_FILE), Some(false));
    assert_eq!(entry_is_dir(9), None);
}

#[test]
fn entry_size_roundtrip() {
    let bytes = encode_entry_size(70000);
    assert_eq!(bytes, vec![0, 0, 0, 0, 0, 1, 0x11, 0x70]);
    assert_eq!(decode_entry_size(&bytes), Ok((70000, 8)));
    assert_eq!(decode_entry_size(&bytes[..3]), Err(DecodeError::NeedMore(8)));
}

#[test]
fn batch_header_layout() {
    let bytes = encode_batch_header(2);
    assert_eq!(bytes, vec![MODE_BATCH, 0, 0, 0, 2]);
    assert_eq!(decode_batch_count(&bytes[1..]), Ok((2, 4)));
}

#[test]
fn task_prefix_layout_and_id_read_back() {
    let id: [u8; 16] = [0xab; 16];
    let bytes = encode_task_prefix(MODE_FILE_TASK, &id);
    assert_eq!(bytes.len(), 17);
    assert_eq!(bytes[0], MODE_FILE_TASK);
    let (back, used) = decode_task_id(&bytes[1..]).unwrap();
    assert_eq!(back, id);
    assert_eq!(used, 16);
    assert_eq!(decode_task_id(&bytes[1..10]), Err(DecodeError::NeedMore(16)));
}

#[test]
fn ping_reply_roundtrip_and_lossy_read() {
    let bytes = encode_ping_reply("书房");
    let (name, used) = decode_ping_reply(&bytes).unwrap();
    assert_eq!(name, "书房");
    assert_eq!(used, bytes.len());
    let (lossy, _) = decode_ping_reply(&[0, 0, 0, 2, b'a', 0xff]).unwrap();
    assert_eq!(lossy, "a\u{fffd}");
}

#[test]
fn chunk_roundtrip() {
    let bytes = encode_chunk(&[9, 8, 7]);
    assert_eq!(bytes, vec![0, 0, 0, 3, 9, 8, 7]);
    assert_eq!(decode_chunk(&bytes), Ok((vec![9, 8, 7], 7)));
    assert_eq!(decode_chunk(&bytes[..5]), Err(DecodeError::NeedMore(7)));
}
