//! Decisions of the search layer that depend on plain values only: which
//! language fields a document is indexed under, and how a stored
//! modification time reads as seconds and nanoseconds.
use vstd::prelude::*;

verus! {

/// Which of the `en` and `fr` body fields a document of language `lang` is
/// indexed under: its own for `en` and `fr`, both otherwise.
pub open spec fn fields_for(lang: Seq<char>) -> (bool, bool) {
    if lang == seq!['e', 'n'] {
        (true, false)
    } else if lang == seq!['f', 'r'] {
        (false, true)
    } else {
        (true, true)
    }
}

/// The body fields of a document of language `lang`, as (english, french).
pub fn index_fields(lang: &str) -> (r: (bool, bool))
    ensures
        r == fields_for(lang@),
{
    let cs = crate::text::chars_of(lang);
    if cs.len() == 2 && cs[0] == 'e' && cs[1] == 'n' {
        assert(cs@ =~= seq!['e', 'n']);
        (true, false)
    } else if cs.len() == 2 && cs[0] == 'f' && cs[1] == 'r' {
        assert(cs@ =~= seq!['f', 'r']);
        (false, true)
    } else {
        (true, true)
    }
}

/// A moment as whole seconds since the epoch and nanoseconds past them.
#[derive(Clone, Copy, Debug, PartialEq, Eq, Structural)]
pub struct Timestamp {
    pub secs: i64,
    pub nanos: u32,
}

pub const NANOS_PER_SEC: i64 = 1_000_000_000;

/// The moment of a modification time in nanoseconds since the epoch: whole
/// seconds rounded down, and the nanoseconds past them.
pub open spec fn moment_of(ns: int) -> (int, int) {
    (ns / 1_000_000_000, ns % 1_000_000_000)
}

/// The moment of a stored `mtime_ns`.
pub fn mtime_of(mtime_ns: i64) -> (t: Timestamp)
    ensures
        (t.secs as int, t.nanos as int) == moment_of(mtime_ns as int),
        t.nanos < 1_000_000_000,
{
    if mtime_ns >= 0 {
        Timestamp { secs: mtime_ns / NANOS_PER_SEC, nanos: (mtime_ns % NANOS_PER_SEC) as u32 }
    } else {
        let pos: i64 = -(mtime_ns + 1);
        let q: i64 = pos / NANOS_PER_SEC;
        let r: i64 = pos % NANOS_PER_SEC;
        assert((mtime_ns as int) / 1_000_000_000 == -(q as int) - 1 && (mtime_ns as int) % 1_000_000_000
            == 999_999_999 - r) by (nonlinear_arith)
            requires
                pos == -(mtime_ns + 1),
                pos >= 0,
                q == pos / 1_000_000_000,
                r == pos % 1_000_000_000,
        ;
        Timestamp { secs: -q - 1, nanos: (999_999_999 - r) as u32 }
    }
}

} // verus!
