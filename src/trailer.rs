//! The trailer at the end of a launcher's executable:
//! `[path bytes (L)] [L as u32, little endian] [tag: "UVSC" or "UVPY"]`.
//!
//! The file is read from its end in windows. `locate_trailer` says, for one
//! window, where the path stands in it, or how large a window is needed, or
//! why the file is malformed.
use vstd::prelude::*;
use vstd::slice::slice_subrange;
use vstd::slice::slice_to_vec;

use crate::kind::{kind_of_tail, TrampolineKind};

verus! {

/// Bytes in the length field.
pub const PATH_LEN_SIZE: usize = 4;

/// Bytes in the tag.
pub const MAGIC_SIZE: usize = 4;

/// The largest path length a trailer may declare (32 KiB).
pub const MAX_PATH_LEN: u32 = 32768;

/// Size of the first window read from the end of the file.
pub const INITIAL_WINDOW: u32 = 1024;

/// Why a launcher's trailer cannot be decoded.
#[derive(Clone, Copy, Debug, PartialEq, Eq, Structural)]
pub enum TrailerError {
    /// Neither tag ends the file.
    MagicNumberMissing,
    /// No four-byte length field stands before the tag.
    LengthMissing,
    /// The declared path length is above `MAX_PATH_LEN`.
    PathTooLong(u32),
    /// The declared path does not fit in the file.
    PathExceedsFile,
    /// The path bytes are not UTF-8.
    InvalidUtf8,
}

/// What one window from the end of the file shows.
#[derive(Clone, Copy, Debug, PartialEq, Eq, Structural)]
pub enum Probe {
    /// The path stands in the window at `start..end`.
    Path(TrampolineKind, usize, usize),
    /// The window is too short: read this many bytes from the end.
    ReadMore(u32),
    /// The file is malformed.
    Failed(TrailerError),
}

/// A decoded trailer.
#[derive(Debug)]
pub struct Trailer {
    pub kind: TrampolineKind,
    /// UTF-8 text of the interpreter's path.
    pub path: Vec<u8>,
}

impl Trailer {
    pub open spec fn wf(&self) -> bool {
        self.path@.len() <= MAX_PATH_LEN && utf8_valid(self.path@)
    }
}

/// What decoding one window gives.
#[derive(Debug)]
pub enum WindowOutcome {
    Found(Trailer),
    ReadMore(u32),
    Failed(TrailerError),
}

/// Whether `b` is well-formed UTF-8, as std's `str::from_utf8` decides it.
pub uninterp spec fn utf8_valid(b: Seq<u8>) -> bool;

/// The little-endian value of four bytes.
pub open spec fn le_u32(b: Seq<u8>) -> int {
    b[0] + 256 * b[1] + 65536 * b[2] + 16777216 * b[3]
}

/// The four little-endian bytes of `n`.
pub open spec fn le_bytes(n: u32) -> Seq<u8> {
    seq![
        (n % 256) as u8,
        ((n / 256) % 256) as u8,
        ((n / 65536) % 256) as u8,
        (n / 16777216) as u8,
    ]
}

/// What the window `w`, taken from the end of a file of `file_size` bytes,
/// shows of the trailer.
pub open spec fn probe_spec(w: Seq<u8>, file_size: int) -> Probe {
    match kind_of_tail(w) {
        None => Probe::Failed(TrailerError::MagicNumberMissing),
        Some(k) => if w.len() < 8 {
            Probe::Failed(TrailerError::LengthMissing)
        } else {
            let len = le_u32(w.subrange(w.len() - 8, w.len() - 4));
            let body_len = w.len() - 8;
            if len > MAX_PATH_LEN {
                Probe::Failed(TrailerError::PathTooLong(len as u32))
            } else if len <= body_len {
                Probe::Path(k, (body_len - len) as usize, body_len as usize)
            } else if len + 8 > file_size {
                Probe::Failed(TrailerError::PathExceedsFile)
            } else {
                Probe::ReadMore((len + 8) as u32)
            }
        },
    }
}

/// The trailer of kind `k` for `path`.
pub open spec fn encoding(k: TrampolineKind, path: Seq<u8>) -> Seq<u8> {
    path + le_bytes(path.len() as u32) + crate::kind::magic_of(k)
}

/// Relies on std's `str::from_utf8`: it accepts exactly the well-formed UTF-8.
#[verifier::external_body]
fn is_utf8(b: &[u8]) -> (r: bool)
    ensures
        r == utf8_valid(b@),
{
    std::str::from_utf8(b).is_ok()
}

/// The little-endian `u32` at `b[at..at + 4]`.
pub fn read_le_u32(b: &[u8], at: usize) -> (r: u32)
    requires
        at + 4 <= b@.len(),
    ensures
        r as int == le_u32(b@.subrange(at as int, at + 4)),
{
    let r = b[at] as u32 + 256 * (b[at + 1] as u32) + 65536 * (b[at + 2] as u32)
        + 16777216 * (b[at + 3] as u32);
    r
}

/// Size of the first window: 1024 bytes, or the whole file if smaller.
pub fn initial_window(file_size: u64) -> (r: u32)
    ensures
        r as int == if file_size < INITIAL_WINDOW { file_size as int } else { INITIAL_WINDOW as int },
{
    if file_size < INITIAL_WINDOW as u64 {
        file_size as u32
    } else {
        INITIAL_WINDOW
    }
}

/// Where the path stands in `window`, the last bytes of a file of
/// `file_size` bytes; or how many bytes to read; or why the file is malformed.
pub fn locate_trailer(window: &[u8], file_size: u64) -> (r: Probe)
    ensures
        r == probe_spec(window@, file_size as int),
        r matches Probe::Path(_, s, e) ==> s <= e <= window@.len() && e - s <= MAX_PATH_LEN,
{
    let kind = match TrampolineKind::from_buffer(window) {
        None => return Probe::Failed(TrailerError::MagicNumberMissing),
        Some(k) => k,
    };
    let n = window.len();
    if n < MAGIC_SIZE + PATH_LEN_SIZE {
        return Probe::Failed(TrailerError::LengthMissing);
    }
    let len = read_le_u32(window, n - 8);
    let body_len = n - 8;
    if len > MAX_PATH_LEN {
        return Probe::Failed(TrailerError::PathTooLong(len));
    }
    if len as usize <= body_len {
        return Probe::Path(kind, body_len - len as usize, body_len);
    }
    if len as u64 + 8 > file_size {
        return Probe::Failed(TrailerError::PathExceedsFile);
    }
    Probe::ReadMore(len + 8)
}

/// The trailer of kind `kind` for `path`: the path, its length, the tag.
pub fn encode_trailer(kind: TrampolineKind, path: &[u8]) -> (r: Vec<u8>)
    requires
        path@.len() <= MAX_PATH_LEN,
    ensures
        r@ == encoding(kind, path@),
{
    let mut r = slice_to_vec(path);
    let n = path.len() as u32;
    r.push((n % 256) as u8);
    r.push(((n / 256) % 256) as u8);
    r.push(((n / 65536) % 256) as u8);
    r.push((n / 16777216) as u8);
    let magic = kind.magic_number();
    let mut i: usize = 0;
    while i < 4
        invariant
            i <= 4,
            magic@ == crate::kind::magic_of(kind),
            r@ == path@ + le_bytes(n) + magic@.subrange(0, i as int),
        decreases 4 - i,
    {
        r.push(magic[i]);
        assert(magic@.subrange(0, i + 1) =~= magic@.subrange(0, i as int).push(magic@[i as int]));
        i = i + 1;
    }
    assert(magic@.subrange(0, 4) =~= magic@);
    r
}

proof fn lemma_le_round_trip(n: u32)
    ensures
        le_u32(le_bytes(n)) == n,
{
    let x = n as int;
    let b0 = x % 256;
    let b1 = (x / 256) % 256;
    let b2 = (x / 65536) % 256;
    let b3 = x / 16777216;
    assert(b0 + 256 * b1 + 65536 * b2 + 16777216 * b3 == x) by (nonlinear_arith)
        requires
            0 <= x < 0x1_0000_0000,
            b0 == x % 256,
            b1 == (x / 256) % 256,
            b2 == (x / 65536) % 256,
            b3 == x / 16777216,
    ;
    assert(0 <= b3 < 256) by (nonlinear_arith)
        requires
            0 <= x < 0x1_0000_0000,
            b3 == x / 16777216,
    ;
}

/// Decoding inverts encoding. Let a file end with the trailer of kind `k`
/// for a path of at most `MAX_PATH_LEN` bytes, and let a window of `n`
/// bytes, at least the tag and the length field, be read from its end. If
/// the window holds the whole trailer, the path is found in it with its
/// kind; otherwise exactly the trailer's size is asked for, and the window
/// of that size holds it.
pub proof fn lemma_trailer_round_trip(prefix: Seq<u8>, k: TrampolineKind, path: Seq<u8>, n: int)
    requires
        path.len() <= MAX_PATH_LEN,
        8 <= n <= prefix.len() + path.len() + 8,
    ensures
        ({
            let f = prefix + encoding(k, path);
            let w = f.subrange(f.len() - n, f.len() as int);
            if n >= path.len() + 8 {
                &&& probe_spec(w, f.len() as int) == Probe::Path(
                    k,
                    (n - 8 - path.len()) as usize,
                    (n - 8) as usize,
                )
                &&& w.subrange(n - 8 - path.len(), n - 8) == path
            } else {
                probe_spec(w, f.len() as int) == Probe::ReadMore((path.len() + 8) as u32)
            }
        }),
{
    let f = prefix + encoding(k, path);
    let w = f.subrange(f.len() - n, f.len() as int);
    let len = path.len() as u32;
    assert(f.len() == prefix.len() + path.len() + 8);
    assert(w.subrange(w.len() - 4, w.len() as int) =~= crate::kind::magic_of(k));
    assert(w.subrange(w.len() - 8, w.len() - 4) =~= le_bytes(len));
    lemma_le_round_trip(len);
    let s = crate::kind::magic_of(TrampolineKind::Script);
    let p = crate::kind::magic_of(TrampolineKind::Python);
    assert(s[2] != p[2]);
    assert(crate::kind::ends_with(w, crate::kind::magic_of(k)));
    if k == TrampolineKind::Python {
        assert(w.subrange(w.len() - 4, w.len() as int)[2] != s[2]);
    }
    assert(kind_of_tail(w) == Some(k));
    if n >= path.len() + 8 {
        assert(w.subrange(n - 8 - path.len(), n - 8) =~= path);
    }
}

/// Decodes the window `window`, the last bytes of a file of `file_size` bytes.
pub fn examine_window(window: &[u8], file_size: u64) -> (r: WindowOutcome)
    ensures
        match probe_spec(window@, file_size as int) {
            Probe::Path(k, s, e) => if utf8_valid(window@.subrange(s as int, e as int)) {
                r matches WindowOutcome::Found(t) && t.kind == k && t.path@ == window@.subrange(
                    s as int,
                    e as int,
                ) && t.wf()
            } else {
                r == WindowOutcome::Failed(TrailerError::InvalidUtf8)
            },
            Probe::ReadMore(n) => r == WindowOutcome::ReadMore(n),
            Probe::Failed(e) => r == WindowOutcome::Failed(e),
        },
{
    match locate_trailer(window, file_size) {
        Probe::Path(kind, start, end) => {
            let bytes = slice_subrange(window, start, end);
            if is_utf8(bytes) {
                WindowOutcome::Found(Trailer { kind, path: slice_to_vec(bytes) })
            } else {
                WindowOutcome::Failed(TrailerError::InvalidUtf8)
            }
        },
        Probe::ReadMore(n) => WindowOutcome::ReadMore(n),
        Probe::Failed(e) => WindowOutcome::Failed(e),
    }
}

} // verus!
