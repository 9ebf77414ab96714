//! Decisions the launcher takes around the child: how the interpreter's path
//! is resolved, whether the interpreter's home is overridden, which inherited
//! handles are closed, and with which status the launcher exits.
use vstd::prelude::*;

use crate::kind::TrampolineKind;
use crate::trailer::le_u32;
use crate::trailer::read_le_u32;

verus! {

/// The status with which the launcher exits on a fatal error.
pub const FATAL_STATUS: u32 = 1;

/// The handle value that marks a descriptor that was not inherited.
pub const NOT_INHERITED: u64 = 0xffff_ffff_ffff_fffe;

/// The value of an invalid handle.
pub const INVALID_HANDLE: u64 = 0xffff_ffff_ffff_ffff;

/// How the interpreter's path from the trailer becomes the path that is run.
#[derive(Clone, Copy, Debug, PartialEq, Eq, Structural)]
pub enum PathResolution {
    /// Used as it stands.
    AsIs,
    /// Canonicalized, links resolved.
    Canonicalize,
    /// Joined to the launcher's directory, then canonicalized.
    JoinThenCanonicalize,
}

/// A relative path is taken from the launcher's directory and canonicalized;
/// a script launcher's absolute path is canonicalized; a proxy's absolute
/// path is left alone, so that links that a virtual environment relies on
/// are not resolved.
pub fn path_resolution(kind: TrampolineKind, is_absolute: bool) -> (r: PathResolution)
    ensures
        !is_absolute ==> r == PathResolution::JoinThenCanonicalize,
        is_absolute && kind == TrampolineKind::Script ==> r == PathResolution::Canonicalize,
        is_absolute && kind == TrampolineKind::Python ==> r == PathResolution::AsIs,
{
    if !is_absolute {
        PathResolution::JoinThenCanonicalize
    } else {
        match kind {
            TrampolineKind::Script => PathResolution::Canonicalize,
            TrampolineKind::Python => PathResolution::AsIs,
        }
    }
}

/// Whether a proxy launcher sets the interpreter's home to the interpreter's
/// directory: only outside a virtual environment, and only where no
/// non-empty home is set already.
pub fn sets_python_home(is_virtualenv: bool, python_home: Option<&str>) -> (r: bool)
    ensures
        r == (!is_virtualenv && !(python_home matches Some(h) && h@.len() > 0)),
{
    let home_set = match python_home {
        Some(h) => !h.is_empty(),
        None => false,
    };
    !is_virtualenv && !home_set
}

/// The little-endian value of eight bytes.
pub open spec fn le_u64(b: Seq<u8>) -> int {
    le_u32(b.subrange(0, 4)) + 4294967296 * le_u32(b.subrange(4, 8))
}

/// The number of descriptors that the C runtime's block declares.
pub open spec fn handle_count(block: Seq<u8>) -> int {
    if block.len() >= 4 {
        le_u32(block.subrange(0, 4))
    } else {
        0
    }
}

/// Where the handle table starts: after the count and one flag byte per
/// descriptor.
pub open spec fn table_start(block: Seq<u8>) -> int {
    4 + handle_count(block)
}

/// The number of table entries that lie whole inside the block.
pub open spec fn table_len(block: Seq<u8>) -> int {
    if block.len() >= table_start(block) {
        let fit = (block.len() - table_start(block)) / 8;
        if handle_count(block) < fit {
            handle_count(block)
        } else {
            fit
        }
    } else {
        0
    }
}

/// The handle in entry `i` of the table.
pub open spec fn handle_at(block: Seq<u8>, i: int) -> int {
    le_u64(block.subrange(table_start(block) + 8 * i, table_start(block) + 8 * i + 8))
}

/// A handle that stands for an inherited descriptor.
pub open spec fn closable(h: int) -> bool {
    h != 0 && h != INVALID_HANDLE && h != NOT_INHERITED
}

/// The closable handles among the first `n` entries, past the three
/// standard ones, in table order.
pub open spec fn closable_upto(block: Seq<u8>, n: int) -> Seq<u64>
    decreases n,
{
    if n <= 3 {
        seq![]
    } else if closable(handle_at(block, n - 1)) {
        closable_upto(block, n - 1).push(handle_at(block, n - 1) as u64)
    } else {
        closable_upto(block, n - 1)
    }
}

/// The handles to close from the C runtime's block of inherited
/// descriptors: a little-endian `u32` count, a flag byte per descriptor,
/// then a table of eight-byte handles. The three standard descriptors are
/// kept, and so are entries that hold no handle (0, -1 or -2) and entries
/// that do not lie whole inside the block.
pub fn handles_to_close(block: &[u8]) -> (r: Vec<u64>)
    ensures
        r@ == closable_upto(block@, table_len(block@)),
{
    let len = block.len();
    if len < 4 {
        return Vec::new();
    }
    let count = read_le_u32(block, 0) as usize;
    if len - 4 < count {
        return Vec::new();
    }
    let start = 4 + count;
    let fit = (len - start) / 8;
    let n = if count < fit {
        count
    } else {
        fit
    };
    let mut r: Vec<u64> = Vec::new();
    let mut i: usize = 3;
    if n <= 3 {
        return r;
    }
    let mut pos = start + 24;
    while i < n
        invariant
            3 <= i <= n,
            n == table_len(block@),
            start == table_start(block@),
            n <= fit,
            fit == (len - start) / 8,
            len == block@.len(),
            start <= len,
            pos == start + 8 * i,
            r@ == closable_upto(block@, i as int),
        decreases n - i,
    {
        assert(pos + 8 <= len) by (nonlinear_arith)
            requires
                pos == start + 8 * i,
                i < n,
                n <= fit,
                fit == (len - start) / 8,
                start <= len,
        ;
        let h = read_le_u64(block, pos);
        if h != 0 && h != INVALID_HANDLE && h != NOT_INHERITED {
            r.push(h);
        }
        i = i + 1;
        pos = pos + 8;
    }
    r
}

/// The little-endian `u64` at `b[at..at + 8]`.
pub fn read_le_u64(b: &[u8], at: usize) -> (r: u64)
    requires
        at + 8 <= b@.len(),
    ensures
        r as int == le_u64(b@.subrange(at as int, at + 8)),
{
    let len = b.len();
    assert(at + 4 < len);
    let lo = read_le_u32(b, at);
    let hi = read_le_u32(b, at + 4);
    let ghost w = b@.subrange(at as int, at + 8);
    assert(w.subrange(0, 4) =~= b@.subrange(at as int, at + 4));
    assert(w.subrange(4, 8) =~= b@.subrange(at + 4, at + 8));
    lo as u64 + 4294967296 * (hi as u64)
}

} // verus!
