//! The two kinds of launcher and the tags that identify them.
use vstd::prelude::*;

verus! {

/// What the launcher does with the interpreter named in its trailer.
#[derive(Clone, Copy, Debug, PartialEq, Eq, Structural)]
pub enum TrampolineKind {
    /// The launcher runs the interpreter with its own path as first argument
    /// (the launcher carries a zipped script).
    Script,
    /// The launcher is a plain proxy for the interpreter.
    Python,
}

/// The four-byte tag that ends a launcher of kind `k`.
pub open spec fn magic_of(k: TrampolineKind) -> Seq<u8> {
    match k {
        TrampolineKind::Script => seq![0x55u8, 0x56u8, 0x53u8, 0x43u8],  // "UVSC"
        TrampolineKind::Python => seq![0x55u8, 0x56u8, 0x50u8, 0x59u8],  // "UVPY"
    }
}

/// `b` ends with the bytes `suffix`.
pub open spec fn ends_with(b: Seq<u8>, suffix: Seq<u8>) -> bool {
    suffix.len() <= b.len() && b.subrange(b.len() - suffix.len(), b.len() as int) == suffix
}

/// The kind whose tag ends `b`, if any.
pub open spec fn kind_of_tail(b: Seq<u8>) -> Option<TrampolineKind> {
    if ends_with(b, magic_of(TrampolineKind::Script)) {
        Some(TrampolineKind::Script)
    } else if ends_with(b, magic_of(TrampolineKind::Python)) {
        Some(TrampolineKind::Python)
    } else {
        None
    }
}

impl TrampolineKind {
    /// The tag of this kind: `UVSC` or `UVPY`.
    pub fn magic_number(&self) -> (r: [u8; 4])
        ensures
            r@ == magic_of(*self),
    {
        let r: [u8; 4] = match self {
            TrampolineKind::Script => [0x55u8, 0x56u8, 0x53u8, 0x43u8],
            TrampolineKind::Python => [0x55u8, 0x56u8, 0x50u8, 0x59u8],
        };
        assert(r@ =~= magic_of(*self));
        r
    }

    /// The kind whose tag ends `buffer`; `Script` is tried first.
    pub fn from_buffer(buffer: &[u8]) -> (r: Option<TrampolineKind>)
        ensures
            r == kind_of_tail(buffer@),
    {
        let script = TrampolineKind::Script.magic_number();
        let python = TrampolineKind::Python.magic_number();
        if slice_ends_with(buffer, &script) {
            Some(TrampolineKind::Script)
        } else if slice_ends_with(buffer, &python) {
            Some(TrampolineKind::Python)
        } else {
            None
        }
    }
}

/// Whether `buffer` ends with the bytes of `suffix`.
pub fn slice_ends_with(buffer: &[u8], suffix: &[u8]) -> (r: bool)
    ensures
        r == ends_with(buffer@, suffix@),
{
    if suffix.len() > buffer.len() {
        return false;
    }
    let start = buffer.len() - suffix.len();
    let mut i: usize = 0;
    while i < suffix.len()
        invariant
            i <= suffix.len(),
            start + suffix.len() == buffer.len(),
            forall|j: int| 0 <= j < i ==> buffer@[start + j] == suffix@[j],
        decreases suffix.len() - i,
    {
        if buffer[start + i] != suffix[i] {
            assert(buffer@.subrange(start as int, buffer.len() as int)[i as int] != suffix@[i as int]);
            return false;
        }
        i = i + 1;
    }
    assert(buffer@.subrange(start as int, buffer.len() as int) =~= suffix@);
    true
}

} // verus!
