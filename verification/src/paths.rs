//! A plain-text model of the path operations the pipeline needs: the file
//! name after the last slash, the stem and extension around the last dot of
//! the file name, extension replacement, and joining a name under a directory.

use vstd::prelude::*;
use vstd::string::{StrSliceExecFns, StringExecFns};
use crate::text::{
    last_index_of, lemma_last_index_of_props, has_char, rfind_char, str_eq,
};

verus! {

/// The file-name component of a path: everything after the last slash, or the
/// whole path when it has no slash.
pub open spec fn base_name_of(p: Seq<char>) -> Seq<char> {
    p.subrange(last_index_of(p, '/') + 1, p.len() as int)
}

/// The directory prefix of a path, trailing slash included; empty when the
/// path has no slash.
pub open spec fn dir_prefix_of(p: Seq<char>) -> Seq<char> {
    p.subrange(0, last_index_of(p, '/') + 1)
}

/// A file name carries an extension when a dot occurs past its first
/// character; a name that is all extension (a leading dot only) carries none.
pub open spec fn name_has_ext(n: Seq<char>) -> bool {
    last_index_of(n, '.') > 0
}

/// The extension of a file name: everything after its last dot.
pub open spec fn ext_of_name(n: Seq<char>) -> Seq<char> {
    n.subrange(last_index_of(n, '.') + 1, n.len() as int)
}

/// The stem of a file name: everything before its last dot, or the whole name
/// when it carries no extension.
pub open spec fn stem_of_name(n: Seq<char>) -> Seq<char> {
    if name_has_ext(n) {
        n.subrange(0, last_index_of(n, '.'))
    } else {
        n
    }
}

/// The stem of a path's file name; the identifier that keys a unit of work.
pub open spec fn stem_of_path(p: Seq<char>) -> Seq<char> {
    stem_of_name(base_name_of(p))
}

/// The path's file name carries exactly the extension `e`.
pub open spec fn path_has_ext(p: Seq<char>, e: Seq<char>) -> bool {
    name_has_ext(base_name_of(p)) && ext_of_name(base_name_of(p)) == e
}

/// The path with its file name's extension replaced by `e` (or appended when
/// the name has none).
pub open spec fn with_ext(p: Seq<char>, e: Seq<char>) -> Seq<char> {
    dir_prefix_of(p) + stem_of_path(p) + seq!['.'] + e
}

/// The name `n` placed directly under the directory `d`.
pub open spec fn join_path(d: Seq<char>, n: Seq<char>) -> Seq<char> {
    d + seq!['/'] + n
}

/// The file-name component of a path, computed.
pub fn base_name(p: &str) -> (r: String)
    ensures
        r@ == base_name_of(p@),
{
    proof {
        lemma_last_index_of_props(p@, '/');
    }
    let len = p.unicode_len();
    match rfind_char(p, '/') {
        Some(i) => p.substring_char(i + 1, len).to_owned(),
        None => {
            assert(p@.subrange(0, len as int) =~= p@);
            p.to_owned()
        },
    }
}

/// Whether the path's file name carries exactly the extension `e`.
pub fn path_ext_is(p: &str, e: &str) -> (r: bool)
    ensures
        r == path_has_ext(p@, e@),
{
    let name = base_name(p);
    proof {
        lemma_last_index_of_props(name@, '.');
    }
    let nlen = name.as_str().unicode_len();
    match rfind_char(name.as_str(), '.') {
        Some(d) => {
            if d > 0 {
                let ext = name.as_str().substring_char(d + 1, nlen);
                str_eq(ext, e)
            } else {
                false
            }
        },
        None => false,
    }
}

/// The stem of the path's file name, computed.
pub fn path_stem(p: &str) -> (r: String)
    ensures
        r@ == stem_of_path(p@),
{
    let name = base_name(p);
    proof {
        lemma_last_index_of_props(name@, '.');
    }
    let dot = rfind_char(name.as_str(), '.');
    if let Some(d) = dot {
        if d > 0 {
            return name.as_str().substring_char(0, d).to_owned();
        }
    }
    name
}

/// The path with its file name's extension replaced by `e`, computed.
pub fn replace_ext(p: &str, e: &str) -> (r: String)
    ensures
        r@ == with_ext(p@, e@),
{
    proof {
        lemma_last_index_of_props(p@, '/');
    }
    let len = p.unicode_len();
    let prefix: String = match rfind_char(p, '/') {
        Some(i) => p.substring_char(0, i + 1).to_owned(),
        None => {
            assert(p@.subrange(0, 0) =~= dir_prefix_of(p@));
            String::new()
        },
    };
    let stem = path_stem(p);
    let mut out = prefix;
    out.append(stem.as_str());
    out.append(".");
    out.append(e);
    proof {
        reveal_strlit(".");
        assert(out@ =~= with_ext(p@, e@));
    }
    out
}

/// The name `n` placed directly under the directory `d`, computed.
pub fn join_under(d: &str, n: &str) -> (r: String)
    ensures
        r@ == join_path(d@, n@),
{
    let mut out = d.to_owned();
    out.append("/");
    out.append(n);
    proof {
        reveal_strlit("/");
        assert(out@ =~= join_path(d@, n@));
    }
    out
}

/// A path produced by `with_ext` with a dot-free nonempty extension always
/// carries a dot, and a path joined under a directory keeps its file name's
/// dot; callers rely on this to tell derived paths apart from flag text.
pub proof fn lemma_with_ext_has_dot(p: Seq<char>, e: Seq<char>)
    ensures
        has_char(with_ext(p, e), '.'),
{
    let w = with_ext(p, e);
    let i = dir_prefix_of(p).len() + stem_of_path(p).len();
    assert(w[i as int] == '.');
}

/// Joining a name under a directory keeps every character of the name, so a
/// name with a dot yields a joined path with a dot.
pub proof fn lemma_join_keeps_dot(d: Seq<char>, n: Seq<char>)
    requires
        has_char(n, '.'),
    ensures
        has_char(join_path(d, n), '.'),
{
    let i = choose|i: int| 0 <= i < n.len() && n[i] == '.';
    assert(join_path(d, n)[d.len() + 1 + i] == '.');
}

} // verus!
