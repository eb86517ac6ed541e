//! Substring search and whitespace trimming over `&str`, with the
//! specification-level notions of occurrence the rest of the crate builds on.

use vstd::prelude::*;

verus! {

/// The pattern `pat` occurs in `h` starting at index `i`.
pub open spec fn occurs_at(h: Seq<char>, pat: Seq<char>, i: int) -> bool {
    &&& 0 <= i
    &&& i + pat.len() <= h.len()
    &&& h.subrange(i, i + pat.len() as int) == pat
}

/// The pattern `pat` occurs somewhere in `h`.
pub open spec fn contains_seq(h: Seq<char>, pat: Seq<char>) -> bool {
    exists|i: int| occurs_at(h, pat, i)
}

/// `i` is the leftmost index at which `pat` occurs in `h`.
pub open spec fn is_first_occurrence(h: Seq<char>, pat: Seq<char>, i: int) -> bool {
    &&& occurs_at(h, pat, i)
    &&& forall|j: int| 0 <= j < i ==> !occurs_at(h, pat, j)
}

/// The leftmost index at which `pat` occurs in `h` (meaningful only when
/// `contains_seq(h, pat)` holds; see `lemma_first_occurrence_exists`).
pub open spec fn find_index(h: Seq<char>, pat: Seq<char>) -> int {
    choose|i: int| is_first_occurrence(h, pat, i)
}

/// Every occurrence has a leftmost occurrence at or before it.
proof fn lemma_first_at_or_before(h: Seq<char>, pat: Seq<char>, i: int)
    requires
        occurs_at(h, pat, i),
    ensures
        exists|j: int| is_first_occurrence(h, pat, j),
    decreases i,
{
    if exists|j: int| 0 <= j < i && occurs_at(h, pat, j) {
        let j = choose|j: int| 0 <= j < i && occurs_at(h, pat, j);
        lemma_first_at_or_before(h, pat, j);
    } else {
        assert(is_first_occurrence(h, pat, i));
    }
}

/// If `pat` occurs in `h` at all, `find_index` names its leftmost occurrence,
/// and that leftmost occurrence is unique.
pub proof fn lemma_first_occurrence_exists(h: Seq<char>, pat: Seq<char>)
    requires
        contains_seq(h, pat),
    ensures
        is_first_occurrence(h, pat, find_index(h, pat)),
        forall|i: int, j: int|
            is_first_occurrence(h, pat, i) && is_first_occurrence(h, pat, j) ==> i == j,
{
    let i = choose|i: int| occurs_at(h, pat, i);
    lemma_first_at_or_before(h, pat, i);
    assert forall|a: int, b: int|
        is_first_occurrence(h, pat, a) && is_first_occurrence(h, pat, b) implies a == b by {
        if a < b {
            assert(occurs_at(h, pat, a));
        } else if b < a {
            assert(occurs_at(h, pat, b));
        }
    }
}

/// A leftmost occurrence found by other means names `find_index`.
pub proof fn lemma_find_index_is(h: Seq<char>, pat: Seq<char>, i: int)
    requires
        is_first_occurrence(h, pat, i),
    ensures
        contains_seq(h, pat),
        find_index(h, pat) == i,
{
    assert(occurs_at(h, pat, i));
    lemma_first_occurrence_exists(h, pat);
}

/// Finds the leftmost occurrence of `pat` in `h`, or reports that there is none.
pub fn find_sub(h: &str, pat: &str) -> (r: Option<usize>)
    ensures
        match r {
            Some(i) => is_first_occurrence(h@, pat@, i as int),
            None => !contains_seq(h@, pat@),
        },
{
    let n: usize = h.unicode_len();
    let m: usize = pat.unicode_len();
    if m > n {
        proof {
            assert forall|i: int| !occurs_at(h@, pat@, i) by {}
        }
        return None;
    }
    let mut i: usize = 0;
    while i <= n - m
        invariant
            n == h@.len(),
            m == pat@.len(),
            m <= n,
            i <= n - m + 1,
            forall|j: int| 0 <= j < i ==> !occurs_at(h@, pat@, j),
        decreases n - m - i + 1,
    {
        let mut j: usize = 0;
        while j < m && h.get_char(i + j) == pat.get_char(j)
            invariant
                n == h@.len(),
                m == pat@.len(),
                m <= n,
                i + m <= n,
                j <= m,
                forall|k: int| 0 <= k < j ==> h@[i + k] == pat@[k],
            decreases m - j,
        {
            j = j + 1;
        }
        if j == m {
            proof {
                assert forall|k: int| 0 <= k < m implies h@.subrange(
                    i as int,
                    i + m as int,
                )[k] == pat@[k] by {
                    assert(h@[i + k] == pat@[k]);
                }
                assert(h@.subrange(i as int, i + m as int) =~= pat@);
            }
            return Some(i);
        }
        proof {
            assert(!occurs_at(h@, pat@, i as int)) by {
                if occurs_at(h@, pat@, i as int) {
                    assert(h@.subrange(i as int, i + m as int)[j as int] == pat@[j as int]);
                    assert(h@[i + j] == pat@[j as int]);
                }
            }
        }
        i = i + 1;
    }
    proof {
        assert forall|j: int| !occurs_at(h@, pat@, j) by {
            if occurs_at(h@, pat@, j) {
                assert(j + m <= n);
            }
        }
    }
    None
}

/// Whether `pat` occurs anywhere in `h`.
pub fn contains_sub(h: &str, pat: &str) -> (r: bool)
    ensures
        r == contains_seq(h@, pat@),
{
    match find_sub(h, pat) {
        Some(_) => true,
        None => false,
    }
}

/// Whether two string slices hold the same characters.
pub fn str_eq(a: &str, b: &str) -> (r: bool)
    ensures
        r == (a@ == b@),
{
    let n: usize = a.unicode_len();
    let m: usize = b.unicode_len();
    if n != m {
        return false;
    }
    let mut i: usize = 0;
    while i < n
        invariant
            n == a@.len(),
            n == b@.len(),
            i <= n,
            forall|j: int| 0 <= j < i ==> a@[j] == b@[j],
        decreases n - i,
    {
        if a.get_char(i) != b.get_char(i) {
            return false;
        }
        i = i + 1;
    }
    proof {
        assert(a@ =~= b@);
    }
    true
}

/// Whitespace inside a single header line: space or horizontal tab.
pub open spec fn is_line_ws(c: char) -> bool {
    c == ' ' || c == '\t'
}

/// Whitespace anywhere in a request, line breaks included.
pub open spec fn is_ws(c: char) -> bool {
    c == ' ' || c == '\t' || c == '\r' || c == '\n'
}

/// `s` with its leading line whitespace removed.
pub open spec fn trim_front(s: Seq<char>) -> Seq<char>
    decreases s.len(),
{
    if s.len() > 0 && is_line_ws(s[0]) {
        trim_front(s.drop_first())
    } else {
        s
    }
}

/// `s` with its trailing line whitespace removed.
pub open spec fn trim_back(s: Seq<char>) -> Seq<char>
    decreases s.len(),
{
    if s.len() > 0 && is_line_ws(s.last()) {
        trim_back(s.drop_last())
    } else {
        s
    }
}

/// `s` with surrounding line whitespace removed.
pub open spec fn trim_seq(s: Seq<char>) -> Seq<char> {
    trim_back(trim_front(s))
}

/// If the first `a` characters of `s` are whitespace and the next one is not,
/// trimming the front drops exactly those `a` characters.
pub proof fn lemma_trim_front_at(s: Seq<char>, a: int)
    requires
        0 <= a <= s.len(),
        forall|j: int| 0 <= j < a ==> is_line_ws(s[j]),
        a == s.len() || !is_line_ws(s[a]),
    ensures
        trim_front(s) == s.subrange(a, s.len() as int),
    decreases a,
{
    if a == 0 {
        if s.len() == 0 || !is_line_ws(s[0]) {
            assert(s.subrange(0, s.len() as int) =~= s);
        }
    } else {
        lemma_trim_front_at(s.drop_first(), a - 1);
        assert(s.drop_first().subrange(a - 1, s.drop_first().len() as int) =~= s.subrange(
            a,
            s.len() as int,
        ));
    }
}

/// If the characters of `s` from `b` on are whitespace and the one before `b`
/// is not, trimming the back keeps exactly the first `b` characters.
pub proof fn lemma_trim_back_at(s: Seq<char>, b: int)
    requires
        0 <= b <= s.len(),
        forall|j: int| b <= j < s.len() ==> is_line_ws(s[j]),
        b == 0 || !is_line_ws(s[b - 1]),
    ensures
        trim_back(s) == s.subrange(0, b),
    decreases s.len(),
{
    if b == s.len() {
        if s.len() == 0 || !is_line_ws(s.last()) {
            assert(s.subrange(0, b) =~= s);
        } else {
            lemma_trim_back_at(s.drop_last(), b - 1);
        }
    } else {
        lemma_trim_back_at(s.drop_last(), b);
        assert(s.drop_last().subrange(0, b) =~= s.subrange(0, b));
    }
}

/// Removes surrounding spaces and tabs from `s`.
pub fn trim(s: &str) -> (r: String)
    ensures
        r@ == trim_seq(s@),
{
    let n: usize = s.unicode_len();
    let mut a: usize = 0;
    while a < n && (s.get_char(a) == ' ' || s.get_char(a) == '\t')
        invariant
            n == s@.len(),
            a <= n,
            forall|j: int| 0 <= j < a ==> is_line_ws(s@[j]),
        decreases n - a,
    {
        a = a + 1;
    }
    proof {
        lemma_trim_front_at(s@, a as int);
    }
    if a == n {
        proof {
            assert(s@.subrange(a as int, n as int) =~= Seq::<char>::empty());
        }
        return String::new();
    }
    let mut b: usize = n;
    while b > a && (s.get_char(b - 1) == ' ' || s.get_char(b - 1) == '\t')
        invariant
            n == s@.len(),
            a < n,
            a <= b <= n,
            !is_line_ws(s@[a as int]),
            forall|j: int| b <= j < n ==> is_line_ws(s@[j]),
        decreases b,
    {
        b = b - 1;
    }
    proof {
        let front = s@.subrange(a as int, n as int);
        lemma_trim_back_at(front, b - a);
        assert(front.subrange(0, b - a) =~= s@.subrange(a as int, b as int));
    }
    let r = s.substring_char(a, b);
    r.to_owned()
}

/// The longest prefix of `s` free of whitespace of any kind.
pub open spec fn take_until_ws(s: Seq<char>) -> Seq<char>
    decreases s.len(),
{
    if s.len() > 0 && !is_ws(s[0]) {
        seq![s[0]] + take_until_ws(s.drop_first())
    } else {
        Seq::empty()
    }
}

/// The longest prefix of `s` free of carriage returns and line feeds.
pub open spec fn take_until_eol(s: Seq<char>) -> Seq<char>
    decreases s.len(),
{
    if s.len() > 0 && s[0] != '\r' && s[0] != '\n' {
        seq![s[0]] + take_until_eol(s.drop_first())
    } else {
        Seq::empty()
    }
}

/// `s` with its leading whitespace of any kind removed.
pub open spec fn skip_ws(s: Seq<char>) -> Seq<char>
    decreases s.len(),
{
    if s.len() > 0 && is_ws(s[0]) {
        skip_ws(s.drop_first())
    } else {
        s
    }
}

/// If the first `k` characters of `s` are not whitespace and the next one is
/// (or `s` ends there), the whitespace-free prefix is exactly those characters.
pub proof fn lemma_take_until_ws_at(s: Seq<char>, k: int)
    requires
        0 <= k <= s.len(),
        forall|j: int| 0 <= j < k ==> !is_ws(s[j]),
        k == s.len() || is_ws(s[k]),
    ensures
        take_until_ws(s) == s.subrange(0, k),
    decreases k,
{
    if k == 0 {
        assert(s.subrange(0, 0) =~= Seq::<char>::empty());
    } else {
        lemma_take_until_ws_at(s.drop_first(), k - 1);
        assert(seq![s[0]] + s.drop_first().subrange(0, k - 1) =~= s.subrange(0, k));
    }
}

/// The same, for the prefix free of line breaks.
pub proof fn lemma_take_until_eol_at(s: Seq<char>, k: int)
    requires
        0 <= k <= s.len(),
        forall|j: int| 0 <= j < k ==> s[j] != '\r' && s[j] != '\n',
        k == s.len() || s[k] == '\r' || s[k] == '\n',
    ensures
        take_until_eol(s) == s.subrange(0, k),
    decreases k,
{
    if k == 0 {
        assert(s.subrange(0, 0) =~= Seq::<char>::empty());
    } else {
        lemma_take_until_eol_at(s.drop_first(), k - 1);
        assert(seq![s[0]] + s.drop_first().subrange(0, k - 1) =~= s.subrange(0, k));
    }
}

/// If the first `a` characters of `s` are whitespace and the next one is not,
/// skipping leading whitespace drops exactly those `a` characters.
pub proof fn lemma_skip_ws_at(s: Seq<char>, a: int)
    requires
        0 <= a <= s.len(),
        forall|j: int| 0 <= j < a ==> is_ws(s[j]),
        a == s.len() || !is_ws(s[a]),
    ensures
        skip_ws(s) == s.subrange(a, s.len() as int),
    decreases a,
{
    if a == 0 {
        assert(s.subrange(0, s.len() as int) =~= s);
    } else {
        lemma_skip_ws_at(s.drop_first(), a - 1);
        assert(s.drop_first().subrange(a - 1, s.drop_first().len() as int) =~= s.subrange(
            a,
            s.len() as int,
        ));
    }
}

/// Copies the whitespace-free token of `s` that starts at index `start`.
pub fn capture_until_ws(s: &str, start: usize) -> (r: String)
    requires
        start <= s@.len(),
    ensures
        r@ == take_until_ws(s@.subrange(start as int, s@.len() as int)),
{
    let n: usize = s.unicode_len();
    let mut e: usize = start;
    while e < n && !(s.get_char(e) == ' ' || s.get_char(e) == '\t' || s.get_char(e) == '\r'
        || s.get_char(e) == '\n')
        invariant
            n == s@.len(),
            start <= e <= n,
            forall|j: int| start <= j < e ==> !is_ws(s@[j]),
        decreases n - e,
    {
        e = e + 1;
    }
    proof {
        let tail = s@.subrange(start as int, n as int);
        lemma_take_until_ws_at(tail, e - start);
        assert(tail.subrange(0, e - start) =~= s@.subrange(start as int, e as int));
    }
    s.substring_char(start, e).to_owned()
}

/// Copies the line-break-free run of `s` that starts at index `start`.
pub fn capture_until_eol(s: &str, start: usize) -> (r: String)
    requires
        start <= s@.len(),
    ensures
        r@ == take_until_eol(s@.subrange(start as int, s@.len() as int)),
{
    let n: usize = s.unicode_len();
    let mut e: usize = start;
    while e < n && !(s.get_char(e) == '\r' || s.get_char(e) == '\n')
        invariant
            n == s@.len(),
            start <= e <= n,
            forall|j: int| start <= j < e ==> s@[j] != '\r' && s@[j] != '\n',
        decreases n - e,
    {
        e = e + 1;
    }
    proof {
        let tail = s@.subrange(start as int, n as int);
        lemma_take_until_eol_at(tail, e - start);
        assert(tail.subrange(0, e - start) =~= s@.subrange(start as int, e as int));
    }
    s.substring_char(start, e).to_owned()
}

/// Advances `start` past any run of whitespace.
pub fn skip_ws_from(s: &str, start: usize) -> (r: usize)
    requires
        start <= s@.len(),
    ensures
        start <= r <= s@.len(),
        s@.subrange(r as int, s@.len() as int) == skip_ws(
            s@.subrange(start as int, s@.len() as int),
        ),
{
    let n: usize = s.unicode_len();
    let mut a: usize = start;
    while a < n && (s.get_char(a) == ' ' || s.get_char(a) == '\t' || s.get_char(a) == '\r'
        || s.get_char(a) == '\n')
        invariant
            n == s@.len(),
            start <= a <= n,
            forall|j: int| start <= j < a ==> is_ws(s@[j]),
        decreases n - a,
    {
        a = a + 1;
    }
    proof {
        let tail = s@.subrange(start as int, n as int);
        lemma_skip_ws_at(tail, a - start);
        assert(tail.subrange(a - start, tail.len() as int) =~= s@.subrange(a as int, n as int));
    }
    a
}

} // verus!
