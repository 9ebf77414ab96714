use uv_trampoline::cmdline::{make_child_cmdline, push_quoted_path, skip_one_argument, CmdlineError};
use uv_trampoline::kind::TrampolineKind;
use uv_trampoline::launch::{handles_to_close, path_resolution, sets_python_home, PathResolution, FATAL_STATUS};
use uv_trampoline::trailer::{
    encode_trailer, examine_window, initial_window, locate_trailer, Probe, TrailerError, WindowOutcome,
};

fn tail(file: &[u8], n: usize) -> &[u8] {
    &file[file.len() - n..]
}

fn decode_file(file: &[u8]) -> WindowOutcome {
    let size = file.len() as u64;
    let mut n = initial_window(size) as usize;
    loop {
        match examine_window(tail(file, n), size) {
            WindowOutcome::ReadMore(m) => n = m as usize,
            other => return other,
        }
    }
}

fn found(outcome: WindowOutcome) -> (TrampolineKind, Vec<u8>) {
    match outcome {
        WindowOutcome::Found(t) => (t.kind, t.path),
        other => panic!("expected a trailer, got {:?}", other),
    }
}

fn failed(outcome: WindowOutcome) -> TrailerError {
    match outcome {
        WindowOutcome::Failed(e) => e,
        other => panic!("expected an error, got {:?}", other),
    }
}

#[test]
fn magic_numbers() {
    assert_eq!(&TrampolineKind::Script.magic_number(), b"UVSC");
    assert_eq!(&TrampolineKind::Python.magic_number(), b"UVPY");
}

#[test]
fn kind_from_buffer() {
    assert_eq!(TrampolineKind::from_buffer(b"xxxxUVSC"), Some(TrampolineKind::Script));
    assert_eq!(TrampolineKind::from_buffer(b"UVPY"), Some(TrampolineKind::Python));
    assert_eq!(TrampolineKind::from_buffer(b"UVPYx"), None);
    assert_eq!(TrampolineKind::from_buffer(b"VSC"), None);
    assert_eq!(TrampolineKind::from_buffer(b""), None);
}

#[test]
fn encoded_trailer_layout() {
    let t = encode_trailer(TrampolineKind::Python, b"ab");
    assert_eq!(t, b"ab\x02\x00\x00\x00UVPY".to_vec());
}

#[test]
fn round_trip_short_path() {
    for kind in [TrampolineKind::Script, TrampolineKind::Python] {
        let path = "C:\\env\\python.exe".as_bytes();
        let mut file = vec![0x4du8; 3000];
        file.extend(encode_trailer(kind, path));
        let (k, p) = found(decode_file(&file));
        assert_eq!(k, kind);
        assert_eq!(p, path.to_vec());
    }
}

#[test]
fn round_trip_long_path_reads_more() {
    let path = vec![b'p'; 2000];
    let mut file = vec![0u8; 10];
    file.extend(encode_trailer(TrampolineKind::Script, &path));
    let size = file.len() as u64;
    assert_eq!(locate_trailer(tail(&file, 1024), size), Probe::ReadMore(2008));
    let (k, p) = found(decode_file(&file));
    assert_eq!(k, TrampolineKind::Script);
    assert_eq!(p, path);
}

#[test]
fn round_trip_largest_path() {
    let path = vec![b'x'; 32768];
    let file = encode_trailer(TrampolineKind::Python, &path);
    let (k, p) = found(decode_file(&file));
    assert_eq!(k, TrampolineKind::Python);
    assert_eq!(p, path);
}

#[test]
fn round_trip_empty_path() {
    let file = encode_trailer(TrampolineKind::Script, b"");
    let (k, p) = found(decode_file(&file));
    assert_eq!(k, TrampolineKind::Script);
    assert!(p.is_empty());
}

#[test]
fn oversized_length_is_rejected() {
    let mut file = vec![0u8; 100];
    file.extend_from_slice(&40000u32.to_le_bytes());
    file.extend_from_slice(b"UVPY");
    assert_eq!(failed(decode_file(&file)), TrailerError::PathTooLong(40000));
}

#[test]
fn missing_magic_is_rejected() {
    let file = b"some executable bytes\x03\x00\x00\x00UVXX".to_vec();
    assert_eq!(failed(decode_file(&file)), TrailerError::MagicNumberMissing);
}

#[test]
fn missing_length_is_rejected() {
    let file = b"\x01\x02UVSC".to_vec();
    assert_eq!(failed(decode_file(&file)), TrailerError::LengthMissing);
}

#[test]
fn length_beyond_file_is_rejected() {
    let mut file = b"abc".to_vec();
    file.extend_from_slice(&500u32.to_le_bytes());
    file.extend_from_slice(b"UVSC");
    assert_eq!(failed(decode_file(&file)), TrailerError::PathExceedsFile);
}

#[test]
fn non_utf8_path_is_rejected() {
    let file = encode_trailer(TrampolineKind::Python, &[b'a', 0xff, b'b']);
    assert_eq!(failed(decode_file(&file)), TrailerError::InvalidUtf8);
}

#[test]
fn first_window_size() {
    assert_eq!(initial_window(0), 0);
    assert_eq!(initial_window(100), 100);
    assert_eq!(initial_window(1024), 1024);
    assert_eq!(initial_window(5_000_000_000), 1024);
}

#[test]
fn quoting_plain_path() {
    let mut out = b"x".to_vec();
    push_quoted_path(b"C:\\env\\python.exe", &mut out);
    assert_eq!(out, b"x\"C:\\env\\python.exe\"".to_vec());
}

#[test]
fn quoting_escapes_quotes() {
    let mut out = Vec::new();
    push_quoted_path(b"a\"b", &mut out);
    assert_eq!(out, b"\"a\"\"\"b\"".to_vec());
    let mut out = Vec::new();
    push_quoted_path(b"", &mut out);
    assert_eq!(out, b"\"\"".to_vec());
}

#[test]
fn skip_quoted_program_name() {
    assert_eq!(skip_one_argument(b"\"prog.exe\" --flag \"a b\" c"), b" --flag \"a b\" c");
}

#[test]
fn skip_plain_and_escaped_names() {
    assert_eq!(skip_one_argument(b"tool --version"), b" --version");
    assert_eq!(skip_one_argument(b"tool"), b"");
    assert_eq!(skip_one_argument(b""), b"");
    assert_eq!(skip_one_argument(b"a\\\"b c"), b" c");
    assert_eq!(skip_one_argument(b"\"a b\\\\\" c"), b" c");
    assert_eq!(skip_one_argument(b"x\td"), b"\td");
}

#[test]
fn quoted_path_with_quotes_is_one_argument() {
    let mut line = Vec::new();
    push_quoted_path(b"C:\\my \"odd\" dir\\tool.exe", &mut line);
    line.extend_from_slice(b" rest of it");
    assert_eq!(skip_one_argument(&line), b" rest of it");
}

#[test]
fn script_child_cmdline() {
    let r = make_child_cmdline(
        TrampolineKind::Script,
        b"C:\\env\\python.exe",
        b"C:\\env\\Scripts\\tool.exe",
        b"tool --version",
    );
    assert_eq!(
        r,
        Ok(b"\"C:\\env\\python.exe\" \"C:\\env\\Scripts\\tool.exe\" --version\0".to_vec())
    );
}

#[test]
fn python_child_cmdline() {
    let r = make_child_cmdline(
        TrampolineKind::Python,
        b"C:\\env\\python.exe",
        b"C:\\env\\Scripts\\python.exe",
        b"python -c \"print(1)\"",
    );
    assert_eq!(r, Ok(b"\"C:\\env\\python.exe\"  -c \"print(1)\"\0".to_vec()));
}

#[test]
fn child_cmdline_without_arguments() {
    let r = make_child_cmdline(TrampolineKind::Python, b"py", b"me", b"me");
    assert_eq!(r, Ok(b"\"py\" \0".to_vec()));
}

#[test]
fn child_cmdline_rejects_nul() {
    let r = make_child_cmdline(TrampolineKind::Python, b"p\0y", b"me", b"me");
    assert_eq!(r, Err(CmdlineError::InteriorNul));
}

#[test]
fn resolution_of_interpreter_path() {
    assert_eq!(path_resolution(TrampolineKind::Python, true), PathResolution::AsIs);
    assert_eq!(path_resolution(TrampolineKind::Script, true), PathResolution::Canonicalize);
    assert_eq!(path_resolution(TrampolineKind::Python, false), PathResolution::JoinThenCanonicalize);
    assert_eq!(path_resolution(TrampolineKind::Script, false), PathResolution::JoinThenCanonicalize);
}

#[test]
fn virtualenv_keeps_home_unset() {
    assert!(!sets_python_home(true, None));
    assert!(!sets_python_home(true, Some("")));
}

#[test]
fn home_override_outside_virtualenv() {
    assert!(sets_python_home(false, None));
    assert!(sets_python_home(false, Some("")));
    assert!(!sets_python_home(false, Some("C:\\py")));
}

#[test]
fn inherited_handles_past_standard_ones() {
    let handles: [i64; 6] = [11, 12, 13, 0x44, -2, 0x1234_5678_9abc];
    let mut block = 6u32.to_le_bytes().to_vec();
    block.extend_from_slice(&[1u8; 6]);
    for h in handles {
        block.extend_from_slice(&h.to_le_bytes());
    }
    assert_eq!(handles_to_close(&block), vec![0x44u64, 0x1234_5678_9abc]);
    block.truncate(block.len() - 1);
    assert_eq!(handles_to_close(&block), vec![0x44u64]);
}

#[test]
fn inherited_handles_edge_cases() {
    assert_eq!(handles_to_close(&[]), Vec::<u64>::new());
    assert_eq!(handles_to_close(&[9, 0, 0]), Vec::<u64>::new());
    let mut block = 3u32.to_le_bytes().to_vec();
    block.extend_from_slice(&[0u8; 3 + 24]);
    assert_eq!(handles_to_close(&block), Vec::<u64>::new());
    let mut block = 5u32.to_le_bytes().to_vec();
    block.extend_from_slice(&[0u8; 5]);
    for h in [1i64, 2, 3, 0, -1] {
        block.extend_from_slice(&h.to_le_bytes());
    }
    assert_eq!(handles_to_close(&block), Vec::<u64>::new());
}

#[test]
fn fatal_status_is_one() {
    assert_eq!(FATAL_STATUS, 1);
}
