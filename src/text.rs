//! Character-level string operations with exact specifications.

use vstd::prelude::*;

verus! {

/// `pat` occurs in `s` starting at index `i`.
pub open spec fn occurs_at(s: Seq<char>, pat: Seq<char>, i: int) -> bool {
    0 <= i && i + pat.len() <= s.len() && s.subrange(i, i + pat.len()) == pat
}

/// `pat` occurs somewhere in `s`.
pub open spec fn contains_seq(s: Seq<char>, pat: Seq<char>) -> bool {
    exists|i: int| occurs_at(s, pat, i)
}

/// `s` begins with `pre`.
pub open spec fn starts_with_seq(s: Seq<char>, pre: Seq<char>) -> bool {
    pre.len() <= s.len() && s.subrange(0, pre.len() as int) == pre
}

/// `s` ends with `suf`.
pub open spec fn ends_with_seq(s: Seq<char>, suf: Seq<char>) -> bool {
    suf.len() <= s.len() && s.subrange(s.len() - suf.len(), s.len() as int) == suf
}

/// Every occurrence of `pat` in `s`, scanned from the left without overlap,
/// replaced by `rep`.
pub open spec fn replace_all(s: Seq<char>, pat: Seq<char>, rep: Seq<char>) -> Seq<char>
    decreases s.len(),
{
    if pat.len() == 0 || s.len() < pat.len() {
        s
    } else if s.subrange(0, pat.len() as int) == pat {
        rep + replace_all(s.subrange(pat.len() as int, s.len() as int), pat, rep)
    } else {
        seq![s[0]] + replace_all(s.subrange(1, s.len() as int), pat, rep)
    }
}

/// Whether `pat` occurs in `s` at character index `i`.
pub fn occurs_at_exec(s: &str, pat: &str, i: usize) -> (r: bool)
    ensures
        r == occurs_at(s@, pat@, i as int),
{
    let n = s.unicode_len();
    let m = pat.unicode_len();
    if m > n || i > n - m {
        return false;
    }
    let window = s.substring_char(i, i + m).to_string();
    let p = pat.to_string();
    window == p
}

/// Whether two strings hold the same characters.
pub fn eq_str(a: &str, b: &str) -> (r: bool)
    ensures
        r == (a@ == b@),
{
    let x = a.to_string();
    let y = b.to_string();
    x == y
}

/// Whether `pat` occurs anywhere in `s`.
pub fn contains_str(s: &str, pat: &str) -> (r: bool)
    ensures
        r == contains_seq(s@, pat@),
{
    let n = s.unicode_len();
    let m = pat.unicode_len();
    if m > n {
        assert forall|j: int| !occurs_at(s@, pat@, j) by {}
        return false;
    }
    let mut i: usize = 0;
    while i < n - m
        invariant
            n == s@.len(),
            m == pat@.len(),
            m <= n,
            i <= n - m,
            forall|j: int| 0 <= j < i ==> !occurs_at(s@, pat@, j),
        decreases n - m - i,
    {
        if occurs_at_exec(s, pat, i) {
            return true;
        }
        i = i + 1;
    }
    if occurs_at_exec(s, pat, i) {
        return true;
    }
    assert forall|j: int| !occurs_at(s@, pat@, j) by {
        if 0 <= j <= i {
        }
    }
    false
}

/// Whether `s` begins with `pre`.
pub fn starts_with_str(s: &str, pre: &str) -> (r: bool)
    ensures
        r == starts_with_seq(s@, pre@),
{
    let r = occurs_at_exec(s, pre, 0);
    r
}

/// Whether `s` ends with `suf`.
pub fn ends_with_str(s: &str, suf: &str) -> (r: bool)
    ensures
        r == ends_with_seq(s@, suf@),
{
    let n = s.unicode_len();
    let m = suf.unicode_len();
    if m > n {
        return false;
    }
    occurs_at_exec(s, suf, n - m)
}

/// Replaces every occurrence of `pat` in `s` with `rep`, left to right.
pub fn replace_str(s: &str, pat: &str, rep: &str) -> (r: String)
    requires
        pat@.len() > 0,
    ensures
        r@ == replace_all(s@, pat@, rep@),
{
    let n = s.unicode_len();
    let m = pat.unicode_len();
    let mut out = String::new();
    let mut i: usize = 0;
    assert(s@.subrange(0, n as int) =~= s@);
    assert(out@ + replace_all(s@, pat@, rep@) =~= replace_all(s@, pat@, rep@));
    while i < n
        invariant
            n == s@.len(),
            m == pat@.len(),
            m > 0,
            i <= n,
            out@ + replace_all(s@.subrange(i as int, n as int), pat@, rep@) == replace_all(
                s@,
                pat@,
                rep@,
            ),
        decreases n - i,
    {
        let ghost t = s@.subrange(i as int, n as int);
        if m <= n - i && occurs_at_exec(s, pat, i) {
            assert(t.subrange(0, m as int) =~= s@.subrange(i as int, i + m));
            assert(t.subrange(m as int, t.len() as int) =~= s@.subrange(i + m, n as int));
            out.append(rep);
            i = i + m;
        } else {
            let ghost before = out@;
            out.append(s.substring_char(i, i + 1));
            assert(t.subrange(1, t.len() as int) =~= s@.subrange(i + 1, n as int));
            assert(s@.subrange(i as int, i + 1) =~= seq![t[0]]);
            if m <= n - i {
                assert(t.subrange(0, m as int) =~= s@.subrange(i as int, i + m));
                assert(replace_all(t, pat@, rep@) == seq![t[0]] + replace_all(
                    t.subrange(1, t.len() as int),
                    pat@,
                    rep@,
                ));
            } else {
                assert(replace_all(t, pat@, rep@) == t);
                let ghost tail = t.subrange(1, t.len() as int);
                assert(replace_all(tail, pat@, rep@) == tail);
                assert(seq![t[0]] + t.subrange(1, t.len() as int) =~= t);
            }
            assert(before + replace_all(t, pat@, rep@) =~= out@ + replace_all(
                s@.subrange(i + 1, n as int),
                pat@,
                rep@,
            ));
            i = i + 1;
        }
    }
    assert(s@.subrange(n as int, n as int) =~= Seq::<char>::empty());
    assert(out@ + Seq::<char>::empty() =~= out@);
    out
}

/// Index of the last `/` in `s`, or -1 when there is none.
pub open spec fn last_slash(s: Seq<char>) -> int
    decreases s.len(),
{
    if s.len() == 0 {
        -1
    } else if s.last() == '/' {
        s.len() - 1
    } else {
        last_slash(s.drop_last())
    }
}

/// The last `/`-separated segment of a URL or URL path.
pub open spec fn url_segment(s: Seq<char>) -> Seq<char> {
    s.subrange(last_slash(s) + 1, s.len() as int)
}

proof fn lemma_last_slash_bounds(s: Seq<char>)
    ensures
        -1 <= last_slash(s) < s.len(),
    decreases s.len(),
{
    if s.len() > 0 && s.last() != '/' {
        lemma_last_slash_bounds(s.drop_last());
    }
}

/// The last `/`-separated segment of `s`.
pub fn url_segment_of(s: &str) -> (r: String)
    ensures
        r@ == url_segment(s@),
{
    proof {
        lemma_last_slash_bounds(s@);
    }
    let n = s.unicode_len();
    let mut j: usize = n;
    assert(s@.subrange(0, n as int) =~= s@);
    while j > 0
        invariant
            n == s@.len(),
            j <= n,
            last_slash(s@.subrange(0, j as int)) == last_slash(s@),
        decreases j,
    {
        let ghost pre = s@.subrange(0, j as int);
        if s.get_char(j - 1) == '/' {
            return s.substring_char(j, n).to_string();
        }
        assert(pre.drop_last() =~= s@.subrange(0, j - 1));
        j = j - 1;
    }
    s.substring_char(0, n).to_string()
}

/// A path separator: `/` or `\`.
pub open spec fn is_sep(c: char) -> bool {
    c == '/' || c == '\\'
}

/// Index of the last separator in `s`, or -1 when there is none.
pub open spec fn last_sep(s: Seq<char>) -> int
    decreases s.len(),
{
    if s.len() == 0 {
        -1
    } else if is_sep(s.last()) {
        s.len() - 1
    } else {
        last_sep(s.drop_last())
    }
}

/// The last component of a path: what follows its last separator.
pub open spec fn file_name(s: Seq<char>) -> Seq<char> {
    s.subrange(last_sep(s) + 1, s.len() as int)
}

/// A path without its last component and the separator before it.
pub open spec fn parent(s: Seq<char>) -> Seq<char> {
    if last_sep(s) < 0 {
        Seq::empty()
    } else {
        s.subrange(0, last_sep(s))
    }
}

/// Two paths joined by a `/`.
pub open spec fn join(a: Seq<char>, b: Seq<char>) -> Seq<char> {
    a + seq!['/'] + b
}

proof fn lemma_last_sep_bounds(s: Seq<char>)
    ensures
        -1 <= last_sep(s) < s.len(),
        last_sep(s) >= 0 ==> is_sep(s[last_sep(s)]),
    decreases s.len(),
{
    if s.len() > 0 && !is_sep(s.last()) {
        lemma_last_sep_bounds(s.drop_last());
    }
}

/// Character index of the last separator in `s`.
fn find_last_sep(s: &str) -> (r: Option<usize>)
    ensures
        r matches Some(i) ==> last_sep(s@) == i as int,
        r is None ==> last_sep(s@) == -1,
{
    let n = s.unicode_len();
    let mut j: usize = n;
    assert(s@.subrange(0, n as int) =~= s@);
    while j > 0
        invariant
            n == s@.len(),
            j <= n,
            last_sep(s@.subrange(0, j as int)) == last_sep(s@),
        decreases j,
    {
        let c = s.get_char(j - 1);
        let ghost pre = s@.subrange(0, j as int);
        if c == '/' || c == '\\' {
            return Some(j - 1);
        }
        assert(pre.drop_last() =~= s@.subrange(0, j - 1));
        j = j - 1;
    }
    None
}

/// The last component of the path `s`.
pub fn file_name_of(s: &str) -> (r: String)
    ensures
        r@ == file_name(s@),
{
    proof {
        lemma_last_sep_bounds(s@);
    }
    let n = s.unicode_len();
    match find_last_sep(s) {
        Some(i) => s.substring_char(i + 1, n).to_string(),
        None => s.substring_char(0, n).to_string(),
    }
}

/// The path `s` without its last component.
pub fn parent_of(s: &str) -> (r: String)
    ensures
        r@ == parent(s@),
{
    proof {
        lemma_last_sep_bounds(s@);
    }
    match find_last_sep(s) {
        Some(i) => s.substring_char(0, i).to_string(),
        None => String::new(),
    }
}

/// `a` and `b` joined by a `/`.
pub fn join_path(a: &str, b: &str) -> (r: String)
    ensures
        r@ == join(a@, b@),
{
    let mut r = a.to_string();
    r.append("/");
    proof {
        reveal_strlit("/");
    }
    r.append(b);
    r
}

} // verus!
