//! Character-sequence utilities the pipeline's decisions are built from:
//! ASCII case folding, substring search, prefix tests and exact comparison.

use vstd::prelude::*;
use vstd::string::StrSliceExecFns;

verus! {

/// ASCII-folded code point of a character: uppercase ASCII letters map to
/// their lowercase counterpart, every other character is unchanged.
pub open spec fn fold_char(c: char) -> u32 {
    if 65 <= c as u32 && c as u32 <= 90 {
        (c as u32 + 32) as u32
    } else {
        c as u32
    }
}

/// Two character sequences are equal up to ASCII case.
pub open spec fn seq_fold_eq(a: Seq<char>, b: Seq<char>) -> bool {
    a.len() == b.len() && forall|i: int| 0 <= i < a.len() ==> fold_char(a[i]) == fold_char(b[i])
}

/// `p` is a prefix of `s`.
pub open spec fn is_prefix(s: Seq<char>, p: Seq<char>) -> bool {
    p.len() <= s.len() && forall|i: int| 0 <= i < p.len() ==> s[i] == p[i]
}

/// `pat` occurs in `text` starting at position `i`.
pub open spec fn matches_at(text: Seq<char>, pat: Seq<char>, i: int) -> bool {
    0 <= i && i + pat.len() <= text.len() && forall|j: int|
        0 <= j < pat.len() ==> text[i + j] == pat[j]
}

/// `pat` occurs somewhere in `text`.
pub open spec fn contains_seq(text: Seq<char>, pat: Seq<char>) -> bool {
    exists|i: int| matches_at(text, pat, i)
}

/// `pat` occurs in `text` starting at `i`, comparing up to ASCII case.
pub open spec fn matches_fold_at(text: Seq<char>, pat: Seq<char>, i: int) -> bool {
    0 <= i && i + pat.len() <= text.len() && forall|j: int|
        0 <= j < pat.len() ==> fold_char(text[i + j]) == fold_char(pat[j])
}

/// `pat` occurs somewhere in `text`, comparing up to ASCII case.
pub open spec fn contains_fold(text: Seq<char>, pat: Seq<char>) -> bool {
    exists|i: int| matches_fold_at(text, pat, i)
}

/// `c` occurs in `s`.
pub open spec fn has_char(s: Seq<char>, c: char) -> bool {
    exists|i: int| 0 <= i < s.len() && s[i] == c
}

/// The view of an optional borrowed text.
pub open spec fn opt_text_view(o: Option<&str>) -> Option<Seq<char>> {
    match o {
        Some(s) => Some(s@),
        None => None,
    }
}

/// The ASCII-folded code point, computed.
pub fn fold_char_exec(c: char) -> (r: u32)
    ensures
        r == fold_char(c),
{
    let u = c as u32;
    if 65 <= u && u <= 90 {
        u + 32
    } else {
        u
    }
}

/// Exact string equality over the character views.
pub fn str_eq(a: &str, b: &str) -> (r: bool)
    ensures
        r == (a@ == b@),
{
    let alen = a.unicode_len();
    let blen = b.unicode_len();
    if alen != blen {
        return false;
    }
    let mut i: usize = 0;
    while i < alen
        invariant
            alen == a@.len(),
            blen == b@.len(),
            alen == blen,
            i <= alen,
            forall|j: int| 0 <= j < i ==> a@[j] == b@[j],
        decreases alen - i,
    {
        if a.get_char(i) != b.get_char(i) {
            assert(a@[i as int] != b@[i as int]);
            return false;
        }
        i += 1;
    }
    proof {
        assert(a@ =~= b@);
    }
    true
}

/// String equality up to ASCII case.
pub fn str_fold_eq(a: &str, b: &str) -> (r: bool)
    ensures
        r == seq_fold_eq(a@, b@),
{
    let alen = a.unicode_len();
    let blen = b.unicode_len();
    if alen != blen {
        return false;
    }
    let mut i: usize = 0;
    while i < alen
        invariant
            alen == a@.len(),
            blen == b@.len(),
            alen == blen,
            i <= alen,
            forall|j: int| 0 <= j < i ==> fold_char(a@[j]) == fold_char(b@[j]),
        decreases alen - i,
    {
        if fold_char_exec(a.get_char(i)) != fold_char_exec(b.get_char(i)) {
            assert(fold_char(a@[i as int]) != fold_char(b@[i as int]));
            return false;
        }
        i += 1;
    }
    true
}

/// Prefix test over the character views.
pub fn str_starts_with(s: &str, p: &str) -> (r: bool)
    ensures
        r == is_prefix(s@, p@),
{
    let slen = s.unicode_len();
    let plen = p.unicode_len();
    if plen > slen {
        return false;
    }
    let mut i: usize = 0;
    while i < plen
        invariant
            slen == s@.len(),
            plen == p@.len(),
            plen <= slen,
            i <= plen,
            forall|j: int| 0 <= j < i ==> s@[j] == p@[j],
        decreases plen - i,
    {
        if s.get_char(i) != p.get_char(i) {
            assert(s@[i as int] != p@[i as int]);
            return false;
        }
        i += 1;
    }
    true
}

/// Substring search over the character views.
pub fn str_contains(text: &str, pat: &str) -> (r: bool)
    ensures
        r == contains_seq(text@, pat@),
{
    let tlen = text.unicode_len();
    let plen = pat.unicode_len();
    if plen > tlen {
        assert(forall|i: int| !matches_at(text@, pat@, i));
        return false;
    }
    let mut i: usize = 0;
    while i <= tlen - plen
        invariant
            tlen == text@.len(),
            plen == pat@.len(),
            plen <= tlen,
            i <= tlen - plen + 1,
            forall|k: int| 0 <= k < i ==> !matches_at(text@, pat@, k),
        decreases tlen - plen - i + 1,
    {
        let mut j: usize = 0;
        let mut hit = true;
        while j < plen
            invariant
                tlen == text@.len(),
                plen == pat@.len(),
                plen <= tlen,
                i + plen <= tlen,
                j <= plen,
                hit ==> forall|k: int| 0 <= k < j ==> text@[i + k] == pat@[k],
                !hit ==> !matches_at(text@, pat@, i as int),
            decreases plen - j,
        {
            if text.get_char(i + j) != pat.get_char(j) {
                assert(text@[i + j] != pat@[j as int]);
                hit = false;
                j = plen;
            } else {
                j += 1;
            }
        }
        if hit {
            assert(matches_at(text@, pat@, i as int));
            return true;
        }
        i += 1;
    }
    assert forall|k: int| !matches_at(text@, pat@, k) by {
        if 0 <= k && k + pat@.len() <= text@.len() {
            assert(k < i);
        }
    }
    false
}

/// Substring search up to ASCII case.
pub fn str_contains_fold(text: &str, pat: &str) -> (r: bool)
    ensures
        r == contains_fold(text@, pat@),
{
    let tlen = text.unicode_len();
    let plen = pat.unicode_len();
    if plen > tlen {
        assert(forall|i: int| !matches_fold_at(text@, pat@, i));
        return false;
    }
    let mut i: usize = 0;
    while i <= tlen - plen
        invariant
            tlen == text@.len(),
            plen == pat@.len(),
            plen <= tlen,
            i <= tlen - plen + 1,
            forall|k: int| 0 <= k < i ==> !matches_fold_at(text@, pat@, k),
        decreases tlen - plen - i + 1,
    {
        let mut j: usize = 0;
        let mut hit = true;
        while j < plen
            invariant
                tlen == text@.len(),
                plen == pat@.len(),
                plen <= tlen,
                i + plen <= tlen,
                j <= plen,
                hit ==> forall|k: int| 0 <= k < j ==> fold_char(text@[i + k]) == fold_char(pat@[k]),
                !hit ==> !matches_fold_at(text@, pat@, i as int),
            decreases plen - j,
        {
            if fold_char_exec(text.get_char(i + j)) != fold_char_exec(pat.get_char(j)) {
                assert(fold_char(text@[i + j]) != fold_char(pat@[j as int]));
                hit = false;
                j = plen;
            } else {
                j += 1;
            }
        }
        if hit {
            assert(matches_fold_at(text@, pat@, i as int));
            return true;
        }
        i += 1;
    }
    assert forall|k: int| !matches_fold_at(text@, pat@, k) by {
        if 0 <= k && k + pat@.len() <= text@.len() {
            assert(k < i);
        }
    }
    false
}

/// Index of the last occurrence of `c` in `s`, or -1 when `c` does not occur.
pub open spec fn last_index_of(s: Seq<char>, c: char) -> int
    decreases s.len(),
{
    if s.len() == 0 {
        -1
    } else if s.last() == c {
        s.len() - 1
    } else {
        last_index_of(s.drop_last(), c)
    }
}

/// Index of the first occurrence of `c` in `s`, or -1 when `c` does not occur.
pub open spec fn first_index_of(s: Seq<char>, c: char) -> int
    decreases s.len(),
{
    if s.len() == 0 {
        -1
    } else if s[0] == c {
        0
    } else {
        let r = first_index_of(s.subrange(1, s.len() as int), c);
        if r == -1 {
            -1
        } else {
            r + 1
        }
    }
}

/// `last_index_of` is -1 exactly when the character is absent; otherwise it
/// points at an occurrence after which the character never occurs again.
pub proof fn lemma_last_index_of_props(s: Seq<char>, c: char)
    ensures
        -1 <= last_index_of(s, c) < s.len(),
        last_index_of(s, c) == -1 <==> !has_char(s, c),
        last_index_of(s, c) >= 0 ==> s[last_index_of(s, c)] == c,
        forall|j: int| last_index_of(s, c) < j < s.len() ==> s[j] != c,
    decreases s.len(),
{
    if s.len() == 0 {
        assert(!has_char(s, c));
    } else if s.last() == c {
        assert(has_char(s, c));
    } else {
        let t = s.drop_last();
        lemma_last_index_of_props(t, c);
        assert forall|j: int| last_index_of(s, c) < j < s.len() implies s[j] != c by {
            if j < s.len() - 1 {
                assert(s[j] == t[j]);
            }
        }
        if has_char(s, c) {
            let w = choose|i: int| 0 <= i < s.len() && s[i] == c;
            assert(w < s.len() - 1);
            assert(t[w] == c);
            assert(has_char(t, c));
        }
        if has_char(t, c) {
            let w = choose|i: int| 0 <= i < t.len() && t[i] == c;
            assert(s[w] == c);
            assert(has_char(s, c));
        }
    }
}

/// An occurrence of `c` at `i` with no later occurrence pins `last_index_of`.
pub proof fn lemma_last_index_of_unique(s: Seq<char>, c: char, i: int)
    requires
        0 <= i < s.len(),
        s[i] == c,
        forall|j: int| i < j < s.len() ==> s[j] != c,
    ensures
        last_index_of(s, c) == i,
    decreases s.len(),
{
    if i == s.len() - 1 {
    } else {
        let t = s.drop_last();
        assert(t[i] == c);
        assert forall|j: int| i < j < t.len() implies t[j] != c by {
            assert(t[j] == s[j]);
        }
        lemma_last_index_of_unique(t, c, i);
    }
}

/// An occurrence of `c` at `i` with no earlier occurrence pins
/// `first_index_of`.
pub proof fn lemma_first_index_of_unique(s: Seq<char>, c: char, i: int)
    requires
        0 <= i < s.len(),
        s[i] == c,
        forall|j: int| 0 <= j < i ==> s[j] != c,
    ensures
        first_index_of(s, c) == i,
    decreases s.len(),
{
    if i == 0 {
    } else {
        let t = s.subrange(1, s.len() as int);
        assert(t[i - 1] == c);
        assert forall|j: int| 0 <= j < i - 1 implies t[j] != c by {
            assert(t[j] == s[j + 1]);
        }
        lemma_first_index_of_unique(t, c, i - 1);
    }
}

/// When `c` does not occur, `first_index_of` is -1.
pub proof fn lemma_first_index_of_none(s: Seq<char>, c: char)
    requires
        !has_char(s, c),
    ensures
        first_index_of(s, c) == -1,
    decreases s.len(),
{
    if s.len() > 0 {
        let t = s.subrange(1, s.len() as int);
        assert forall|i: int| !(0 <= i < t.len() && t[i] == c) by {
            if 0 <= i < t.len() {
                assert(t[i] == s[i + 1]);
            }
        }
        lemma_first_index_of_none(t, c);
    }
}

/// Find the last occurrence of a character, scanning from the end.
pub fn rfind_char(s: &str, c: char) -> (r: Option<usize>)
    ensures
        s@.len() <= usize::MAX,
        last_index_of(s@, c) >= 0 ==> r == Some(last_index_of(s@, c) as usize),
        last_index_of(s@, c) == -1 ==> r is None,
{
    proof {
        lemma_last_index_of_props(s@, c);
    }
    let len = s.unicode_len();
    let mut i: usize = len;
    while i > 0
        invariant
            len == s@.len(),
            i <= len,
            forall|j: int| i <= j < len ==> s@[j] != c,
        decreases i,
    {
        i -= 1;
        if s.get_char(i) == c {
            proof {
                lemma_last_index_of_unique(s@, c, i as int);
            }
            return Some(i);
        }
    }
    assert(!has_char(s@, c));
    None
}

/// `c` is an ASCII decimal digit.
pub open spec fn is_digit(c: char) -> bool {
    48 <= c as u32 && c as u32 <= 57
}

/// Numeric value of a digit character.
pub open spec fn digit_val(c: char) -> nat
    recommends
        is_digit(c),
{
    (c as u32 - 48) as nat
}

/// Every character of `s` is a decimal digit.
pub open spec fn all_digits(s: Seq<char>) -> bool {
    forall|i: int| 0 <= i < s.len() ==> is_digit(s[i])
}

/// The value of a digit string read as a base-ten numeral.
pub open spec fn dec_val(s: Seq<char>) -> nat
    decreases s.len(),
{
    if s.len() == 0 {
        0
    } else {
        dec_val(s.drop_last()) * 10 + digit_val(s.last())
    }
}

/// The digit body of a numeral: one optional leading plus sign stripped.
pub open spec fn numeral_body(s: Seq<char>) -> Seq<char> {
    if s.len() > 0 && s[0] == '+' {
        s.subrange(1, s.len() as int)
    } else {
        s
    }
}

/// `s` has the shape of an unsigned decimal numeral: a nonempty digit string,
/// optionally preceded by a plus sign.
pub open spec fn is_numeral(s: Seq<char>) -> bool {
    numeral_body(s).len() > 0 && all_digits(numeral_body(s))
}

proof fn lemma_dec_val_take_succ(s: Seq<char>, i: int)
    requires
        0 <= i < s.len(),
    ensures
        dec_val(s.take(i + 1)) == dec_val(s.take(i)) * 10 + digit_val(s[i]),
{
    assert(s.take(i + 1).drop_last() =~= s.take(i));
    assert(s.take(i + 1).last() == s[i]);
}

proof fn lemma_dec_val_take_grows(s: Seq<char>, i: int, j: int)
    requires
        0 <= i <= j <= s.len(),
    ensures
        dec_val(s.take(i)) <= dec_val(s.take(j)),
    decreases j - i,
{
    if i < j {
        lemma_dec_val_take_grows(s, i, j - 1);
        lemma_dec_val_take_succ(s, j - 1);
    }
}

/// Parse an unsigned decimal numeral, optionally signed with a plus, into a
/// `usize`; mirrors what the standard unsigned integer parser accepts, with
/// `None` for a malformed numeral and for a value that does not fit.
pub fn parse_usize(s: &str) -> (r: Option<usize>)
    ensures
        is_numeral(s@) && dec_val(numeral_body(s@)) <= usize::MAX ==> r == Some(
            dec_val(numeral_body(s@)) as usize,
        ),
        !(is_numeral(s@) && dec_val(numeral_body(s@)) <= usize::MAX) ==> r is None,
{
    let len = s.unicode_len();
    let start: usize = if len > 0 && s.get_char(0) == '+' {
        1
    } else {
        0
    };
    let ghost body = numeral_body(s@);
    proof {
        assert(body =~= s@.subrange(start as int, len as int));
    }
    if start >= len {
        assert(!is_numeral(s@));
        return None;
    }
    let mut acc: usize = 0;
    let mut i: usize = start;
    while i < len
        invariant
            len == s@.len(),
            start <= i <= len,
            start < len,
            body == numeral_body(s@),
            body == s@.subrange(start as int, len as int),
            all_digits(body.take(i - start)),
            acc == dec_val(body.take(i - start)),
        decreases len - i,
    {
        let c = s.get_char(i);
        let u = c as u32;
        if !(48 <= u && u <= 57) {
            assert(!is_digit(body[i - start]));
            assert(!all_digits(body));
            return None;
        }
        let d = (u - 48) as usize;
        proof {
            lemma_dec_val_take_succ(body, i - start);
        }
        if acc > usize::MAX / 10 || (acc == usize::MAX / 10 && d > usize::MAX % 10) {
            proof {
                assert(dec_val(body.take(i - start + 1)) > usize::MAX) by {
                    assert(acc * 10 + d > usize::MAX) by (nonlinear_arith)
                        requires
                            acc > usize::MAX / 10 || (acc == usize::MAX / 10 && d > usize::MAX
                                % 10),
                            usize::MAX / 10 == (usize::MAX as int) / 10,
                            usize::MAX % 10 == (usize::MAX as int) % 10,
                    ;
                }
                lemma_dec_val_take_grows(body, i - start + 1, body.len() as int);
                assert(body.take(body.len() as int) =~= body);
            }
            return None;
        }
        assert(acc * 10 + d <= usize::MAX) by (nonlinear_arith)
            requires
                acc <= usize::MAX / 10,
                acc == usize::MAX / 10 ==> d <= usize::MAX % 10,
                d <= 9,
                usize::MAX / 10 == (usize::MAX as int) / 10,
                usize::MAX % 10 == (usize::MAX as int) % 10,
        ;
        acc = acc * 10 + d;
        i += 1;
        proof {
            assert(body.take(i - start).drop_last() =~= body.take(i - 1 - start));
        }
    }
    proof {
        assert(body.take(len - start) =~= body);
    }
    Some(acc)
}

} // verus!
