//! Character-level text operations used by the store's naming scheme and the resolver.
use vstd::prelude::*;
use vstd::string::*;

verus! {

/// `p` occurs in `s` starting at position `i`.
pub open spec fn occurs_at(s: Seq<char>, p: Seq<char>, i: int) -> bool {
    0 <= i && i + p.len() <= s.len() && s.subrange(i, i + p.len()) == p
}

/// `p` is a substring of `s` (the empty text is a substring of every text).
pub open spec fn is_substring(p: Seq<char>, s: Seq<char>) -> bool {
    exists|i: int| occurs_at(s, p, i)
}

/// `s` with every path separator `/` replaced by `_`.
pub open spec fn sanitized(s: Seq<char>) -> Seq<char> {
    Seq::new(s.len(), |i: int| if s[i] == '/' { '_' } else { s[i] })
}

/// What is left of `s` from position `i` on once every occurrence of `p`,
/// scanned from the left without overlap, is taken out.
pub open spec fn removed_from(s: Seq<char>, p: Seq<char>, i: int) -> Seq<char>
    decreases s.len() - i,
{
    if i < 0 || i >= s.len() {
        Seq::empty()
    } else if p.len() > 0 && occurs_at(s, p, i) {
        removed_from(s, p, i + p.len())
    } else {
        seq![s[i]] + removed_from(s, p, i + 1)
    }
}

/// `s` with every occurrence of `p` taken out.
pub open spec fn removed_all(s: Seq<char>, p: Seq<char>) -> Seq<char> {
    removed_from(s, p, 0)
}

/// The text of `s` from position `i` up to the first occurrence of `sep` at or after `i`.
pub open spec fn before_from(s: Seq<char>, sep: Seq<char>, i: int) -> Seq<char>
    decreases s.len() - i,
{
    if i < 0 || i >= s.len() || occurs_at(s, sep, i) {
        Seq::empty()
    } else {
        seq![s[i]] + before_from(s, sep, i + 1)
    }
}

/// The part of `s` before the first occurrence of `sep` (all of `s` if there is none).
pub open spec fn before_first(s: Seq<char>, sep: Seq<char>) -> Seq<char> {
    before_from(s, sep, 0)
}

/// Position of the last `.` among the first `m` characters of `s`, or -1.
pub open spec fn last_dot_in(s: Seq<char>, m: int) -> int
    decreases m,
{
    if m <= 0 {
        -1
    } else if s[m - 1] == '.' {
        m - 1
    } else {
        last_dot_in(s, m - 1)
    }
}

/// A file name without its extension: the text before the last `.`, unless
/// that dot opens the name.
pub open spec fn file_stem(s: Seq<char>) -> Seq<char> {
    let d = last_dot_in(s, s.len() as int);
    if d > 0 {
        s.take(d)
    } else {
        s
    }
}

proof fn lemma_last_dot_bounds(s: Seq<char>, m: int)
    requires
        0 <= m <= s.len(),
    ensures
        -1 <= last_dot_in(s, m) < m,
        last_dot_in(s, m) >= 0 ==> s[last_dot_in(s, m)] == '.',
    decreases m,
{
    if m > 0 && s[m - 1] != '.' {
        lemma_last_dot_bounds(s, m - 1);
    }
}

/// Whether `p` occurs in `s` at position `i`.
fn occurs_at_exec(s: &str, p: &str, i: usize) -> (r: bool)
    requires
        s@.len() <= usize::MAX,
    ensures
        r == occurs_at(s@, p@, i as int),
{
    let n = s.unicode_len();
    let m = p.unicode_len();
    if m > n || i > n - m {
        return false;
    }
    let mut j: usize = 0;
    while j < m
        invariant
            n == s@.len(),
            m == p@.len(),
            i + m <= n,
            j <= m,
            forall|t: int| 0 <= t < j ==> s@[i + t] == #[trigger] p@[t],
        decreases m - j,
    {
        if s.get_char(i + j) != p.get_char(j) {
            assert(s@.subrange(i as int, i + m)[j as int] != p@[j as int]);
            return false;
        }
        j = j + 1;
    }
    assert(s@.subrange(i as int, i + m) =~= p@);
    true
}

/// Whether `p` is a substring of `s`.
pub fn contains_text(s: &str, p: &str) -> (r: bool)
    ensures
        r == is_substring(p@, s@),
{
    let n = s.unicode_len();
    let mut i: usize = 0;
    while i < n
        invariant
            n == s@.len(),
            i <= n,
            forall|t: int| 0 <= t < i ==> !occurs_at(s@, p@, t),
        decreases n - i,
    {
        if occurs_at_exec(s, p, i) {
            return true;
        }
        i = i + 1;
    }
    if occurs_at_exec(s, p, n) {
        return true;
    }
    assert forall|t: int| !occurs_at(s@, p@, t) by {
        if 0 <= t < n {
        }
    }
    false
}

/// `name` with every `/` replaced by `_`, so that it can stand as one file name.
pub fn sanitize_name(name: &str) -> (r: String)
    ensures
        r@ == sanitized(name@),
{
    let n = name.unicode_len();
    let mut out = String::new();
    let mut i: usize = 0;
    while i < n
        invariant
            n == name@.len(),
            i <= n,
            out@ == sanitized(name@).take(i as int),
        decreases n - i,
    {
        if name.get_char(i) == '/' {
            proof {
                reveal_strlit("_");
            }
            out.append("_");
        } else {
            out.append(name.substring_char(i, i + 1));
        }
        assert(out@ =~= sanitized(name@).take(i + 1));
        i = i + 1;
    }
    assert(out@ =~= sanitized(name@));
    out
}

/// `s` with every occurrence of `p` taken out.
pub fn remove_all(s: &str, p: &str) -> (r: String)
    ensures
        r@ == removed_all(s@, p@),
{
    let n = s.unicode_len();
    let m = p.unicode_len();
    let mut out = String::new();
    let mut i: usize = 0;
    while i < n
        invariant
            n == s@.len(),
            m == p@.len(),
            i <= n,
            out@ + removed_from(s@, p@, i as int) == removed_all(s@, p@),
        decreases n - i,
    {
        if m > 0 && occurs_at_exec(s, p, i) {
            i = i + m;
        } else {
            let c = s.substring_char(i, i + 1);
            assert(c@ =~= seq![s@[i as int]]);
            assert(removed_from(s@, p@, i as int) == seq![s@[i as int]] + removed_from(
                s@,
                p@,
                i + 1,
            ));
            out.append(c);
            assert(out@ + removed_from(s@, p@, i + 1) =~= removed_all(s@, p@));
            i = i + 1;
        }
    }
    assert(removed_from(s@, p@, i as int) == Seq::<char>::empty());
    assert(out@ =~= removed_all(s@, p@));
    out
}

/// The part of `s` before the first occurrence of `sep`.
pub fn text_before(s: &str, sep: &str) -> (r: String)
    ensures
        r@ == before_first(s@, sep@),
{
    let n = s.unicode_len();
    let mut out = String::new();
    let mut i: usize = 0;
    while i < n
        invariant
            n == s@.len(),
            i <= n,
            out@ + before_from(s@, sep@, i as int) == before_first(s@, sep@),
        decreases n - i,
    {
        if occurs_at_exec(s, sep, i) {
            assert(out@ =~= before_first(s@, sep@));
            return out;
        }
        let c = s.substring_char(i, i + 1);
        assert(c@ =~= seq![s@[i as int]]);
        out.append(c);
        assert(out@ + before_from(s@, sep@, i + 1) =~= before_first(s@, sep@));
        i = i + 1;
    }
    assert(out@ =~= before_first(s@, sep@));
    out
}

/// `name` without its extension, as `Path::file_stem` reads a file name.
pub fn stem_of(name: &str) -> (r: String)
    ensures
        r@ == file_stem(name@),
{
    let n = name.unicode_len();
    let mut last: Option<usize> = None;
    let mut i: usize = 0;
    while i < n
        invariant
            n == name@.len(),
            i <= n,
            match last {
                Some(d) => d == last_dot_in(name@, i as int),
                None => last_dot_in(name@, i as int) == -1,
            },
        decreases n - i,
    {
        if name.get_char(i) == '.' {
            last = Some(i);
        }
        i = i + 1;
    }
    proof {
        lemma_last_dot_bounds(name@, n as int);
    }
    let mut out = String::new();
    match last {
        Some(d) if d > 0 => {
            out.append(name.substring_char(0, d));
        },
        _ => {
            out.append(name);
        },
    }
    assert(out@ =~= file_stem(name@));
    out
}

} // verus!
