use chronicle_cql::bytes::DecodeError;
use chronicle_cql::decoder::{
    decode_paging_state, Decoder, ErrorKind, Flags, Frame, HeaderFlags, Uncompressed,
};

fn frame(flags: u8, opcode: u8, extensions: &[u8], body: &[u8]) -> Vec<u8> {
    let len = (extensions.len() + body.len()) as u32;
    let mut b = vec![4, flags, 0, 7, opcode];
    b.extend_from_slice(&len.to_be_bytes());
    b.extend_from_slice(extensions);
    b.extend_from_slice(body);
    b
}

fn decoder(bytes: Vec<u8>) -> Decoder {
    Decoder::new(bytes, Uncompressed).ok().unwrap()
}

#[test]
fn header_plain() {
    let d = decoder(frame(0, 0x08, &[], &[0, 0, 0, 1]));
    assert_eq!(d.version(), 4);
    assert_eq!(d.stream(), 7);
    assert_eq!(d.opcode(), 0x08);
    assert_eq!(d.length(), 4);
    assert_eq!(d.body_start(0), 9);
    assert_eq!(d.body(), &[0, 0, 0, 1]);
    assert!(!d.flags().compression());
    assert!(d.is_void());
    assert!(!d.is_rows());
    assert!(!d.is_error());
    assert_eq!(d.buffer_as_ref().len(), 13);
}

#[test]
fn header_tracing_only() {
    let ext: Vec<u8> = (1..=16).collect();
    let bytes = frame(0x02, 0x08, &ext, &[0, 0, 0, 2]);
    let mut h = HeaderFlags::new(&bytes).ok().unwrap();
    assert_eq!(h.body_start(), 25);
    let d = decoder(bytes.clone());
    assert_eq!(d.body_start(0), 25);
    assert!(d.is_rows());
    let mut id = [0u8; 16];
    id.copy_from_slice(&ext);
    assert_eq!(h.take_tracing_id(), Some(id));
    assert_eq!(h.take_tracing_id(), None);
    assert_eq!(h.take_warnings(), None);
}

#[test]
fn header_tracing_and_one_warning() {
    let mut ext: Vec<u8> = vec![0xaa; 16];
    ext.extend_from_slice(&[0, 1, 0, 3, b'a', b'b', b'c']);
    let bytes = frame(0x02 | 0x08 | 0x01 | 0x04, 0x08, &ext, &[0, 0, 0, 1]);
    let mut h = HeaderFlags::new(&bytes).ok().unwrap();
    assert_eq!(h.body_start(), 32);
    assert!(h.compression());
    assert!(h.custom_payload());
    assert_eq!(h.take_warnings(), Some(vec!["abc".to_string()]));
    assert_eq!(h.take_warnings(), None);
    assert_eq!(h.take_tracing_id(), Some([0xaa; 16]));
    let d = decoder(bytes);
    assert_eq!(d.body(), &[0, 0, 0, 1]);
    assert!(d.is_void());
}

#[test]
fn header_warnings_without_tracing() {
    let ext = [0, 2, 0, 1, b'x', 0, 0];
    let bytes = frame(0x08, 0x08, &ext, &[0, 0, 0, 1]);
    let h = HeaderFlags::new(&bytes).ok().unwrap();
    assert_eq!(h.body_start(), 9 + 2 + 3 + 2);
}

#[test]
fn header_malformed() {
    assert!(HeaderFlags::new(&[4, 0, 0, 0]).is_err());
    let short_tracing = frame(0x02, 0x08, &[1, 2, 3], &[]);
    assert_eq!(
        HeaderFlags::new(&short_tracing).err(),
        Some(DecodeError::Truncated { offset: 9, needed: 16 })
    );
    let short_warnings = frame(0x08, 0x08, &[0, 1, 0, 9, b'a'], &[]);
    assert!(HeaderFlags::new(&short_warnings).is_err());
    assert!(Decoder::new(vec![1, 2, 3], Uncompressed).is_err());
}

fn error_frame(code: u32, message: &str) -> Vec<u8> {
    let mut body = code.to_be_bytes().to_vec();
    body.extend_from_slice(&(message.len() as u16).to_be_bytes());
    body.extend_from_slice(message.as_bytes());
    frame(0, 0x00, &[], &body)
}

#[test]
fn unprepared_error_is_only_unprepared() {
    let d = decoder(error_frame(0x2500, "unknown statement"));
    assert!(d.is_error());
    assert!(d.is_unprepared());
    assert!(!d.is_already_exists());
    assert!(!d.is_configure_error());
    assert!(!d.is_invalid());
    assert!(!d.is_unauthorized());
    assert!(!d.is_syntax_error());
    assert!(!d.is_write_failure());
    assert!(!d.is_function_failure());
    assert!(!d.is_read_failure());
    assert!(!d.is_read_timeout());
    assert!(!d.is_write_timeout());
    assert!(!d.is_truncate_error());
    assert!(!d.is_boostrapping());
    assert!(!d.is_overloaded());
    assert!(!d.is_unavailable_exception());
    assert!(!d.is_authentication_error());
    assert!(!d.is_protocol_error());
    assert!(!d.is_server_error());
    assert!(!d.is_void());
    assert!(!d.is_rows());
    let e = d.get_error().ok().unwrap();
    assert_eq!(e.code, 0x2500);
    assert_eq!(e.kind, Some(ErrorKind::Unprepared));
    assert_eq!(e.message, "unknown statement");
}

#[test]
fn other_error_kinds() {
    let d = decoder(error_frame(0x1001, "busy"));
    assert!(d.is_overloaded());
    assert!(!d.is_unprepared());
    assert_eq!(d.get_error().ok().unwrap().kind, Some(ErrorKind::Overloaded));
    let d = decoder(error_frame(0x2000, "bad"));
    assert!(d.is_syntax_error());
    let d = decoder(error_frame(0x7777, "odd"));
    assert!(d.is_error());
    let e = d.get_error().ok().unwrap();
    assert_eq!(e.kind, None);
    assert_eq!(e.code, 0x7777);
    assert_eq!(ErrorKind::from_code(0x000A), Some(ErrorKind::ProtocolError));
    assert_eq!(ErrorKind::Unprepared.code(), 0x2500);
    assert_eq!(ErrorKind::from_code(ErrorKind::WriteTimeout.code()), Some(ErrorKind::WriteTimeout));
}

#[test]
fn error_with_bad_message() {
    let d = decoder(frame(0, 0x00, &[], &[0, 0, 0x25, 0, 0, 2, 0xff, 0xfe]));
    assert!(d.is_unprepared());
    assert_eq!(d.get_error().err(), Some(DecodeError::InvalidUtf8));
    let d = decoder(frame(0, 0x00, &[], &[0, 0]));
    assert!(!d.is_unprepared());
    assert!(d.body_kind().is_err());
    assert!(d.get_error().is_err());
}

fn rows_body(flags: i32, columns: i32, paging: &[u8]) -> Vec<u8> {
    let mut body = 2i32.to_be_bytes().to_vec();
    body.extend_from_slice(&flags.to_be_bytes());
    body.extend_from_slice(&columns.to_be_bytes());
    body.extend_from_slice(paging);
    body
}

#[test]
fn rows_metadata_without_more_pages() {
    let d = decoder(frame(0, 0x08, &[], &rows_body(0x0001, 3, &[9, 9])));
    assert!(d.is_rows());
    let f = d.rows_flags().ok().unwrap();
    assert!(f.global_tables_spec);
    assert!(!f.has_more_pages());
    assert_eq!(d.columns_count(), Ok(3));
    let m = d.metadata().ok().unwrap();
    assert_eq!(m.columns_count, 3);
    assert_eq!(m.paging_state.paging_state, None);
    assert_eq!(m.paging_state.end, 9 + 12);
}

#[test]
fn rows_metadata_with_paging_token() {
    let paging = [0, 0, 0, 5, 1, 2, 3, 4, 5, 0xee];
    let d = decoder(frame(0, 0x08, &[], &rows_body(0x0002 | 0x0004, 1, &paging)));
    let m = d.metadata().ok().unwrap();
    assert!(m.flags.has_more_pages);
    assert!(m.flags.no_metadata);
    assert_eq!(m.paging_state.paging_state, Some(vec![1, 2, 3, 4, 5]));
    assert_eq!(m.paging_state.end, 21 + 9);
    let p = d.paging_state(false).ok().unwrap();
    assert_eq!(p.paging_state, None);
    assert_eq!(p.end, 21);
}

#[test]
fn rows_metadata_truncated() {
    let d = decoder(frame(0, 0x08, &[], &rows_body(0x0002, 1, &[0, 0, 0, 5, 1])));
    assert!(d.metadata().is_err());
    let d = decoder(frame(0, 0x08, &[], &[0, 0, 0, 2, 0, 0]));
    assert!(d.rows_flags().is_err());
    assert!(d.columns_count().is_err());
    assert!(d.metadata().is_err());
}

#[test]
fn paging_state_sentinel() {
    let buf = [7, 7, 0xff, 0xff, 0xff, 0xff, 1];
    let p = decode_paging_state(&buf, 2).ok().unwrap();
    assert_eq!(p.paging_state, None);
    assert_eq!(p.end, 2 + 4);
}

#[test]
fn paging_state_token() {
    let buf = [7, 0, 0, 0, 5, 1, 2, 3, 4, 5, 6];
    let p = decode_paging_state(&buf, 1).ok().unwrap();
    assert_eq!(p.paging_state, Some(vec![1, 2, 3, 4, 5]));
    assert_eq!(p.end, 1 + 9);
}

#[test]
fn paging_state_errors() {
    assert!(decode_paging_state(&[0, 0, 0, 5, 1], 0).is_err());
    assert_eq!(
        decode_paging_state(&[0xff, 0xff, 0xff, 0xfe], 0).err(),
        Some(DecodeError::NegativeLength { offset: 0 })
    );
    assert!(decode_paging_state(&[0, 0], 0).is_err());
    assert!(decode_paging_state(&[0, 0], 5).is_err());
}

#[test]
fn flags_from_field() {
    assert_eq!(
        Flags::from_i32(7),
        Flags { global_tables_spec: true, has_more_pages: true, no_metadata: true }
    );
    assert_eq!(
        Flags::from_i32(0),
        Flags { global_tables_spec: false, has_more_pages: false, no_metadata: false }
    );
}

#[test]
fn buffer_access() {
    let bytes = frame(0, 0x08, &[], &[0, 0, 0, 1]);
    let mut d = decoder(bytes.clone());
    d.buffer_as_mut().push(42);
    assert_eq!(d.buffer_as_ref().len(), bytes.len() + 1);
    let back = d.into_buffer();
    assert_eq!(&back[..bytes.len()], &bytes[..]);
    let d = Decoder::from_buffer(bytes.clone()).ok().unwrap();
    assert_eq!(d.stream(), 7);
    let mut neg = bytes.clone();
    neg[2] = 0xff;
    neg[3] = 0xfe;
    assert_eq!(decoder(neg).stream(), -2);
}

struct Inflate;

impl chronicle_cql::decoder::Compression for Inflate {
    fn decompress(&self, buffer: Vec<u8>) -> Vec<u8> {
        buffer.iter().flat_map(|&b| vec![b; 2]).collect()
    }
}

#[test]
fn decompression_runs_before_parsing() {
    let d = Decoder::new(vec![4, 0, 0, 0, 0], Inflate).ok().unwrap();
    assert_eq!(d.buffer_as_ref().len(), 10);
    assert_eq!(d.version(), 4);
    assert_eq!(d.body_start(0), 9);
    assert!(Decoder::new(vec![4, 0, 0, 0], Inflate).is_err());
}
