//! The idempotency ledger: a newline-separated list of identifiers already
//! processed. This module gives the text codec (parsing a snapshot, rendering
//! one appended line) and the snapshot type the scheduler consults; reading
//! and appending the file itself is the caller's I/O.

use vstd::prelude::*;
use vstd::string::{StrSliceExecFns, StringExecFns};
use crate::text::{
    first_index_of, has_char, lemma_first_index_of_none, lemma_first_index_of_unique, str_eq,
};

verus! {

/// One line as the line reader yields it: a carriage return directly before
/// the newline is stripped.
pub open spec fn strip_cr(l: Seq<char>) -> Seq<char> {
    if l.len() > 0 && l.last() == '\r' {
        l.drop_last()
    } else {
        l
    }
}

/// The lines of a text: split at each newline, with a carriage return before
/// a newline stripped and the empty tail after a trailing newline dropped.
pub open spec fn split_lines(s: Seq<char>) -> Seq<Seq<char>>
    decreases s.len(),
{
    if s.len() == 0 {
        Seq::empty()
    } else {
        let i = first_index_of(s, '\n');
        if 0 <= i && i < s.len() {
            seq![strip_cr(s.subrange(0, i))] + split_lines(s.subrange(i + 1, s.len() as int))
        } else {
            seq![s]
        }
    }
}

/// Split a text into its lines, as the ledger reader does.
pub fn split_lines_exec(s: &str) -> (r: Vec<String>)
    ensures
        r.deep_view() == split_lines(s@),
{
    let len = s.unicode_len();
    let mut out: Vec<String> = Vec::new();
    let mut pos: usize = 0;
    proof {
        assert(out.deep_view() =~= Seq::<Seq<char>>::empty());
        assert(s@.subrange(0, len as int) =~= s@);
        assert(out.deep_view() + split_lines(s@) =~= split_lines(s@));
    }
    while pos < len
        invariant
            len == s@.len(),
            pos <= len,
            split_lines(s@) =~= out.deep_view() + split_lines(
                s@.subrange(pos as int, len as int),
            ),
        decreases len - pos,
    {
        let ghost tail = s@.subrange(pos as int, len as int);
        let mut j: usize = pos;
        while j < len && s.get_char(j) != '\n'
            invariant
                len == s@.len(),
                pos <= j <= len,
                forall|k: int| pos <= k < j ==> s@[k] != '\n',
            decreases len - j,
        {
            j += 1;
        }
        let ghost old_dv = out.deep_view();
        if j == len {
            proof {
                assert forall|k: int| !(0 <= k < tail.len() && tail[k] == '\n') by {
                    if 0 <= k < tail.len() {
                        assert(tail[k] == s@[pos + k]);
                    }
                }
                lemma_first_index_of_none(tail, '\n');
            }
            let line = s.substring_char(pos, len).to_owned();
            out.push(line);
            proof {
                assert(split_lines(tail) =~= seq![tail]);
                assert(out.deep_view() =~= old_dv.push(tail));
                assert(out.deep_view() + split_lines(Seq::<char>::empty()) =~= old_dv
                    + split_lines(tail));
            }
            pos = len;
            proof {
                assert(s@.subrange(pos as int, len as int) =~= Seq::<char>::empty());
            }
        } else {
            proof {
                assert(tail[j - pos] == s@[j as int]);
                assert forall|k: int| 0 <= k < j - pos implies tail[k] != '\n' by {
                    assert(tail[k] == s@[pos + k]);
                }
                lemma_first_index_of_unique(tail, '\n', j - pos);
            }
            let line_end: usize = if j > pos && s.get_char(j - 1) == '\r' {
                j - 1
            } else {
                j
            };
            let line = s.substring_char(pos, line_end).to_owned();
            proof {
                assert(tail.subrange(0, j - pos) =~= s@.subrange(pos as int, j as int));
                assert(line@ =~= strip_cr(tail.subrange(0, j - pos)));
                assert(tail.subrange(j - pos + 1, tail.len() as int) =~= s@.subrange(
                    j + 1,
                    len as int,
                ));
            }
            out.push(line);
            proof {
                assert(out.deep_view() =~= old_dv.push(line@));
                assert(split_lines(tail) =~= seq![line@] + split_lines(
                    s@.subrange(j + 1, len as int),
                ));
                assert(out.deep_view() + split_lines(s@.subrange(j + 1, len as int)) =~= old_dv
                    + split_lines(tail));
            }
            pos = j + 1;
        }
    }
    proof {
        assert(s@.subrange(pos as int, len as int) =~= Seq::<char>::empty());
        assert(out.deep_view() =~= split_lines(s@));
    }
    out
}

/// An identifier stands on one of a snapshot's lines.
pub open spec fn ledger_has(l: Seq<Seq<char>>, x: Seq<char>) -> bool {
    exists|i: int| 0 <= i < l.len() && l[i] == x
}

/// A snapshot of the ledger: the identifiers read once at pass start, in file
/// order. Duplicate lines are kept as read; membership is what matters.
pub struct Ledger {
    entries: Vec<String>,
}

impl View for Ledger {
    type V = Seq<Seq<char>>;

    closed spec fn view(&self) -> Seq<Seq<char>> {
        self.entries.deep_view()
    }
}

impl Ledger {
    /// An identifier is ledgered when some line equals it exactly.
    pub open spec fn spec_contains(&self, x: Seq<char>) -> bool {
        ledger_has(self@, x)
    }

    /// The empty snapshot: an absent or unreadable ledger file reads as empty.
    pub fn new() -> (r: Ledger)
        ensures
            r@ == Seq::<Seq<char>>::empty(),
    {
        let r = Ledger { entries: Vec::new() };
        proof {
            assert(r@ =~= Seq::<Seq<char>>::empty());
        }
        r
    }

    /// Membership of an identifier in the snapshot.
    pub fn contains(&self, x: &str) -> (r: bool)
        ensures
            r == self.spec_contains(x@),
    {
        let n = self.entries.len();
        let mut i: usize = 0;
        while i < n
            invariant
                n == self.entries.len(),
                i <= n,
                self@.len() == n,
                forall|k: int| 0 <= k < i ==> self@[k] != x@,
            decreases n - i,
        {
            if str_eq(self.entries[i].as_str(), x) {
                assert(self@[i as int] == x@);
                return true;
            }
            i += 1;
        }
        false
    }

    /// The number of lines in the snapshot.
    pub fn len(&self) -> (r: usize)
        ensures
            r == self@.len(),
    {
        self.entries.len()
    }
}

/// Parse the ledger file's contents into a snapshot; an absent or unreadable
/// file (`None`) reads as the empty ledger.
pub fn parse_ledger(contents: Option<&str>) -> (r: Ledger)
    ensures
        match contents {
            Some(s) => r@ == split_lines(s@),
            None => r@ == Seq::<Seq<char>>::empty(),
        },
{
    match contents {
        Some(s) => Ledger { entries: split_lines_exec(s) },
        None => Ledger::new(),
    }
}

/// One ledger line for an identifier, newline-terminated, as the appender
/// writes it.
pub fn render_entry(e: &str) -> (r: String)
    ensures
        r@ == e@.push('\n'),
{
    let mut out = e.to_owned();
    out.append("\n");
    proof {
        reveal_strlit("\n");
        assert(out@ =~= e@.push('\n'));
    }
    out
}

/// An identifier may stand on a ledger line when it is nonempty and free of
/// line breaks.
pub open spec fn well_formed_entry(e: Seq<char>) -> bool {
    e.len() > 0 && !has_char(e, '\n') && !has_char(e, '\r')
}

/// A ledger file built from whole rendered lines, in any order the appenders
/// happened to interleave.
pub open spec fn render_all(es: Seq<Seq<char>>) -> Seq<char>
    decreases es.len(),
{
    if es.len() == 0 {
        Seq::empty()
    } else {
        es[0].push('\n') + render_all(es.subrange(1, es.len() as int))
    }
}

/// Law: a ledger file made of whole well-formed lines parses back to exactly
/// those identifiers, in file order — so concurrent appenders that each write
/// one whole line lose nothing, whatever order the lines land in.
pub proof fn lemma_ledger_round_trip(es: Seq<Seq<char>>)
    requires
        forall|i: int| 0 <= i < es.len() ==> well_formed_entry(#[trigger] es[i]),
    ensures
        split_lines(render_all(es)) == es,
    decreases es.len(),
{
    if es.len() == 0 {
        assert(split_lines(render_all(es)) =~= es);
    } else {
        let e = es[0];
        let rest = es.subrange(1, es.len() as int);
        let text = render_all(es);
        let tail = render_all(rest);
        assert(text == e.push('\n') + tail);
        assert(text[e.len() as int] == '\n');
        assert forall|k: int| 0 <= k < e.len() implies text[k] != '\n' by {
            assert(text[k] == e[k]);
        }
        lemma_first_index_of_unique(text, '\n', e.len() as int);
        assert(text.subrange(0, e.len() as int) =~= e);
        assert(e.last() != '\r');
        assert(strip_cr(e) == e);
        assert(text.subrange(e.len() as int + 1, text.len() as int) =~= tail);
        assert forall|i: int| 0 <= i < rest.len() implies well_formed_entry(#[trigger] rest[i]) by {
            assert(rest[i] == es[i + 1]);
        }
        lemma_ledger_round_trip(rest);
        assert(split_lines(text) =~= seq![e] + split_lines(tail));
        assert(seq![e] + rest =~= es);
    }
}

} // verus!
