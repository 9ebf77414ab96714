//! The child's command line: quoting a path, finding where the program name
//! of a Windows command line ends, and putting the two together.
use vstd::prelude::*;
use vstd::slice::slice_subrange;

use crate::kind::TrampolineKind;

verus! {

pub const QUOTE: u8 = 0x22;

pub const BACKSLASH: u8 = 0x5c;

pub const SPACE: u8 = 0x20;

pub const NUL: u8 = 0;

/// The bytes that `u8::is_ascii_whitespace` accepts.
pub open spec fn is_ascii_ws(b: u8) -> bool {
    b == 0x20 || b == 0x09 || b == 0x0a || b == 0x0c || b == 0x0d
}

/// Each quote of `p` written as three quotes: one ends the quoted span, one
/// is the literal quote, one opens a new span.
pub open spec fn escape(p: Seq<u8>) -> Seq<u8>
    decreases p.len(),
{
    if p.len() == 0 {
        seq![]
    } else if p.last() == QUOTE {
        escape(p.drop_last()) + seq![QUOTE, QUOTE, QUOTE]
    } else {
        escape(p.drop_last()).push(p.last())
    }
}

/// `p` in quotes, with its quotes escaped.
pub open spec fn quoted(p: Seq<u8>) -> Seq<u8> {
    seq![QUOTE] + escape(p) + seq![QUOTE]
}

/// Where the first argument of `s` ends, scanning from `i` in the given
/// quoting state: a quote toggles the state, a backslash followed by a quote
/// or a backslash is taken as a pair, and whitespace outside quotes ends it.
pub open spec fn skip_end(s: Seq<u8>, i: int, in_quotes: bool) -> int
    decreases s.len() - i,
{
    if i < 0 || i >= s.len() {
        s.len() as int
    } else if s[i] == QUOTE {
        skip_end(s, i + 1, !in_quotes)
    } else if s[i] == BACKSLASH {
        if i + 1 < s.len() && (s[i + 1] == QUOTE || s[i + 1] == BACKSLASH) {
            skip_end(s, i + 2, in_quotes)
        } else {
            skip_end(s, i + 1, in_quotes)
        }
    } else if is_ascii_ws(s[i]) && !in_quotes {
        i
    } else {
        skip_end(s, i + 1, in_quotes)
    }
}

/// A run of backslashes at the start of `s` that a quote ends.
pub open spec fn run_ends_in_quote(s: Seq<u8>) -> bool
    decreases s.len(),
{
    s.len() > 0 && (s[0] == QUOTE || (s[0] == BACKSLASH && run_ends_in_quote(s.drop_first())))
}

/// The value of the first argument of `s` under the Microsoft C runtime's
/// rules, from the given quoting state: backslashes are literal unless a
/// quote follows their run; then each pair gives one backslash and an odd
/// one escapes the quote. A quote opens or closes a quoted span; inside a
/// span two quotes give a literal quote and close it. A space or a tab
/// outside a span ends the argument.
pub open spec fn first_token(s: Seq<u8>, in_quotes: bool) -> Seq<u8>
    decreases s.len(),
{
    if s.len() == 0 {
        seq![]
    } else if s[0] == BACKSLASH {
        if s.len() >= 2 && s[1] == QUOTE {
            seq![QUOTE] + first_token(s.drop_first().drop_first(), in_quotes)
        } else if s.len() >= 2 && s[1] == BACKSLASH && run_ends_in_quote(s) {
            seq![BACKSLASH] + first_token(s.drop_first().drop_first(), in_quotes)
        } else {
            seq![BACKSLASH] + first_token(s.drop_first(), in_quotes)
        }
    } else if s[0] == QUOTE {
        if in_quotes && s.len() >= 2 && s[1] == QUOTE {
            seq![QUOTE] + first_token(s.drop_first().drop_first(), false)
        } else {
            first_token(s.drop_first(), !in_quotes)
        }
    } else if (s[0] == SPACE || s[0] == 0x09) && !in_quotes {
        seq![]
    } else {
        seq![s[0]] + first_token(s.drop_first(), in_quotes)
    }
}

/// No backslash of `p` stands last or right before a quote: the runs of
/// backslashes that quoting leaves are then all literal.
pub open spec fn no_dangling_backslash(p: Seq<u8>) -> bool {
    forall|i: int| 0 <= i < p.len() && #[trigger] p[i] == BACKSLASH ==> i + 1 < p.len() && p[i + 1] != QUOTE
}

proof fn lemma_escape_concat(a: Seq<u8>, b: Seq<u8>)
    ensures
        escape(a + b) == escape(a) + escape(b),
    decreases b.len(),
{
    if b.len() == 0 {
        assert(a + b =~= a);
        assert(escape(a) + escape(b) =~= escape(a));
    } else {
        assert((a + b).drop_last() =~= a + b.drop_last());
        lemma_escape_concat(a, b.drop_last());
        if b.last() == QUOTE {
            assert(escape(a + b) =~= escape(a) + escape(b));
        } else {
            assert(escape(a + b) =~= escape(a) + escape(b));
        }
    }
}

proof fn lemma_escape_front(p: Seq<u8>)
    requires
        p.len() > 0,
    ensures
        escape(p) == escape(seq![p[0]]) + escape(p.drop_first()),
        escape(seq![p[0]]) == if p[0] == QUOTE { seq![QUOTE, QUOTE, QUOTE] } else { seq![p[0]] },
{
    assert(p =~= seq![p[0]] + p.drop_first());
    lemma_escape_concat(seq![p[0]], p.drop_first());
    let one = seq![p[0]];
    assert(one.drop_last() =~= Seq::<u8>::empty());
    assert(escape(Seq::<u8>::empty()) == Seq::<u8>::empty());
    if p[0] == QUOTE {
        assert(escape(one) =~= seq![QUOTE, QUOTE, QUOTE]);
    } else {
        assert(escape(one) =~= seq![p[0]]);
    }
}

proof fn lemma_backslash_run_is_literal(p: Seq<u8>, t: Seq<u8>)
    requires
        no_dangling_backslash(p),
        p.len() > 0,
        p[0] == BACKSLASH,
    ensures
        !run_ends_in_quote(escape(p) + t),
    decreases p.len(),
{
    lemma_escape_front(p);
    let q = p.drop_first();
    assert(q.len() > 0 && q[0] != QUOTE) by {
        assert(p[0] == BACKSLASH);
    }
    let s = escape(p) + t;
    assert(s.drop_first() =~= escape(q) + t);
    assert(no_dangling_backslash(q)) by {
        assert forall|i: int| 0 <= i < q.len() && #[trigger] q[i] == BACKSLASH implies i + 1 < q.len() && q[i
            + 1] != QUOTE by {
            assert(p[i + 1] == q[i]);
        }
    }
    lemma_escape_front(q);
    assert(s =~= seq![BACKSLASH] + (escape(q) + t));
    if q[0] == BACKSLASH {
        lemma_backslash_run_is_literal(q, t);
    } else {
        assert(escape(q) + t =~= seq![q[0]] + (escape(q.drop_first()) + t));
        assert((escape(q) + t)[0] == q[0]);
        assert(!run_ends_in_quote(escape(q) + t));
    }
}

proof fn lemma_escaped_parses_back(p: Seq<u8>, t: Seq<u8>)
    requires
        no_dangling_backslash(p),
        t.len() > 0,
        t[0] == QUOTE,
    ensures
        first_token(escape(p) + t, true) == p + first_token(t, true),
    decreases p.len(),
{
    if p.len() == 0 {
        assert(escape(p) + t =~= t);
        assert(p + first_token(t, true) =~= first_token(t, true));
    } else {
        lemma_escape_front(p);
        let q = p.drop_first();
        assert(no_dangling_backslash(q)) by {
            assert forall|i: int| 0 <= i < q.len() && #[trigger] q[i] == BACKSLASH implies i + 1 < q.len()
                && q[i + 1] != QUOTE by {
                assert(p[i + 1] == q[i]);
            }
        }
        lemma_escaped_parses_back(q, t);
        let s = escape(p) + t;
        let c = p[0];
        if c == QUOTE {
            assert(s =~= seq![QUOTE, QUOTE, QUOTE] + (escape(q) + t));
            assert(s.drop_first().drop_first() =~= seq![QUOTE] + (escape(q) + t));
            assert((seq![QUOTE] + (escape(q) + t)).drop_first() =~= escape(q) + t);
            assert(first_token(s.drop_first().drop_first(), false) == first_token(
                escape(q) + t,
                true,
            ));
            assert(first_token(s, true) == seq![QUOTE] + first_token(escape(q) + t, true));
        } else if c == BACKSLASH {
            assert(s =~= seq![BACKSLASH] + (escape(q) + t));
            assert(s.drop_first() =~= escape(q) + t);
            assert(q.len() > 0 && q[0] != QUOTE);
            lemma_escape_front(q);
            assert(s[1] == q[0]);
            if q[0] == BACKSLASH {
                lemma_backslash_run_is_literal(p, t);
            }
            assert(first_token(s, true) == seq![BACKSLASH] + first_token(escape(q) + t, true));
        } else {
            assert(s =~= seq![c] + (escape(q) + t));
            assert(s.drop_first() =~= escape(q) + t);
            assert(first_token(s, true) == seq![c] + first_token(escape(q) + t, true));
        }
        assert(p =~= seq![c] + q);
        assert(first_token(s, true) =~= p + first_token(t, true));
    }
}

/// Quoting a path and then reading the first argument back under the
/// Microsoft C runtime's rules gives the path again, alone or followed by a
/// space and further arguments, whatever quotes the path holds. Paths where
/// a backslash stands last or right before a quote are left out: there the
/// runtime takes the backslash as an escape.
pub proof fn lemma_quoted_path_parses_back(path: Seq<u8>, rest: Seq<u8>)
    requires
        no_dangling_backslash(path),
    ensures
        first_token(quoted(path), false) == path,
        first_token(quoted(path) + seq![SPACE] + rest, false) == path,
{
    let tail1 = Seq::<u8>::empty();
    let tail2 = seq![SPACE] + rest;
    assert(quoted(path) =~= seq![QUOTE] + (escape(path) + (seq![QUOTE] + tail1)));
    assert(quoted(path) + seq![SPACE] + rest =~= seq![QUOTE] + (escape(path) + (seq![QUOTE]
        + tail2)));
    lemma_escaped_parses_back(path, seq![QUOTE] + tail1);
    lemma_escaped_parses_back(path, seq![QUOTE] + tail2);
    assert((seq![QUOTE] + (escape(path) + (seq![QUOTE] + tail1))).drop_first() =~= escape(path)
        + (seq![QUOTE] + tail1));
    assert((seq![QUOTE] + (escape(path) + (seq![QUOTE] + tail2))).drop_first() =~= escape(path)
        + (seq![QUOTE] + tail2));
    assert((seq![QUOTE] + tail1).drop_first() =~= tail1);
    assert((seq![QUOTE] + tail2).drop_first() =~= tail2);
    assert(first_token(tail1, false) == Seq::<u8>::empty());
    assert(first_token(tail2, false) == Seq::<u8>::empty());
    assert(path + Seq::<u8>::empty() =~= path);
}

/// The child's command line before its terminating NUL: the interpreter's
/// path in quotes and a space; for a script launcher the launcher's own
/// path in quotes; then what follows the program name in the launcher's
/// own command line, verbatim.
pub open spec fn child_cmdline_body(
    kind: TrampolineKind,
    python_exe: Seq<u8>,
    executable: Seq<u8>,
    invocation: Seq<u8>,
) -> Seq<u8> {
    let head = quoted(python_exe) + seq![SPACE];
    let head = match kind {
        TrampolineKind::Script => head + quoted(executable),
        TrampolineKind::Python => head,
    };
    head + invocation.subrange(skip_end(invocation, 0, false), invocation.len() as int)
}

/// Why no child command line can be built.
#[derive(Clone, Copy, Debug, PartialEq, Eq, Structural)]
pub enum CmdlineError {
    /// A NUL byte would stand inside the command line.
    InteriorNul,
}

/// The NUL-terminated command line of the child, from the launcher's kind,
/// the interpreter's path, the launcher's own path and the launcher's own
/// command line. It fails where a NUL byte would stand before the end.
pub fn make_child_cmdline(
    kind: TrampolineKind,
    python_exe: &[u8],
    executable: &[u8],
    invocation: &[u8],
) -> (r: Result<Vec<u8>, CmdlineError>)
    ensures
        ({
            let body = child_cmdline_body(kind, python_exe@, executable@, invocation@);
            match r {
                Ok(v) => !body.contains(NUL) && v@ == body.push(NUL),
                Err(e) => body.contains(NUL) && e == CmdlineError::InteriorNul,
            }
        }),
{
    let mut cmdline: Vec<u8> = Vec::new();
    push_quoted_path(python_exe, &mut cmdline);
    cmdline.push(SPACE);
    match kind {
        TrampolineKind::Script => push_quoted_path(executable, &mut cmdline),
        TrampolineKind::Python => {},
    }
    let rest = skip_one_argument(invocation);
    let mut i: usize = 0;
    let ghost head = cmdline@;
    while i < rest.len()
        invariant
            i <= rest@.len(),
            cmdline@ == head + rest@.subrange(0, i as int),
        decreases rest.len() - i,
    {
        cmdline.push(rest[i]);
        assert(rest@.subrange(0, i + 1) =~= rest@.subrange(0, i as int).push(rest@[i as int]));
        i = i + 1;
    }
    assert(rest@.subrange(0, rest@.len() as int) =~= rest@);
    assert(cmdline@ =~= child_cmdline_body(kind, python_exe@, executable@, invocation@));
    if contains_byte(&cmdline, NUL) {
        return Err(CmdlineError::InteriorNul);
    }
    cmdline.push(NUL);
    Ok(cmdline)
}

/// Whether `b` holds the byte `x`.
pub fn contains_byte(b: &[u8], x: u8) -> (r: bool)
    ensures
        r == b@.contains(x),
{
    let mut i: usize = 0;
    while i < b.len()
        invariant
            i <= b@.len(),
            forall|j: int| 0 <= j < i ==> b@[j] != x,
        decreases b.len() - i,
    {
        if b[i] == x {
            return true;
        }
        i = i + 1;
    }
    false
}

/// Appends `path` to `command` in quotes, each quote of it written as three.
pub fn push_quoted_path(path: &[u8], command: &mut Vec<u8>)
    ensures
        final(command)@ == old(command)@ + quoted(path@),
{
    command.push(QUOTE);
    let ghost start = command@;
    let mut i: usize = 0;
    while i < path.len()
        invariant
            i <= path@.len(),
            command@ == start + escape(path@.subrange(0, i as int)),
        decreases path.len() - i,
    {
        let b = path[i];
        proof {
            assert(path@.subrange(0, i + 1).drop_last() =~= path@.subrange(0, i as int));
        }
        if b == QUOTE {
            command.push(QUOTE);
            command.push(QUOTE);
            command.push(QUOTE);
            assert(command@ =~= start + escape(path@.subrange(0, i + 1)));
        } else {
            command.push(b);
            assert(command@ =~= start + escape(path@.subrange(0, i + 1)));
        }
        i = i + 1;
    }
    command.push(QUOTE);
    assert(path@.subrange(0, path@.len() as int) =~= path@);
    assert(command@ =~= old(command)@ + quoted(path@));
}

/// What follows the first argument of `arguments`, from the whitespace that
/// ends it (empty if nothing ends it).
pub fn skip_one_argument(arguments: &[u8]) -> (r: &[u8])
    ensures
        0 <= skip_end(arguments@, 0, false) <= arguments@.len(),
        r@ == arguments@.subrange(skip_end(arguments@, 0, false), arguments@.len() as int),
{
    let mut in_quotes = false;
    let mut offset: usize = 0;
    while offset < arguments.len()
        invariant_except_break
            offset <= arguments@.len(),
            skip_end(arguments@, offset as int, in_quotes) == skip_end(arguments@, 0, false),
        ensures
            offset <= arguments@.len(),
            offset == skip_end(arguments@, 0, false),
        decreases arguments.len() - offset,
    {
        let b = arguments[offset];
        if b == QUOTE {
            in_quotes = !in_quotes;
            offset = offset + 1;
        } else if b == BACKSLASH {
            if offset + 1 < arguments.len() && (arguments[offset + 1] == QUOTE || arguments[offset
                + 1] == BACKSLASH) {
                offset = offset + 2;
            } else {
                offset = offset + 1;
            }
        } else if is_ascii_whitespace(b) && !in_quotes {
            break;
        } else {
            offset = offset + 1;
        }
    }
    slice_subrange(arguments, offset, arguments.len())
}

/// Whether `b` is ASCII whitespace: space, tab, line feed, form feed or
/// carriage return.
pub fn is_ascii_whitespace(b: u8) -> (r: bool)
    ensures
        r == is_ascii_ws(b),
{
    b == 0x20 || b == 0x09 || b == 0x0a || b == 0x0c || b == 0x0d
}

} // verus!
