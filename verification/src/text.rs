//! Character-sequence utilities behind the request parser and the route
//! matcher: whitespace classification, substring search, splitting on a
//! separator, whitespace tokenization and trimming.  Each executable function
//! is proved against a spec-level definition over `Seq<char>`.

use vstd::prelude::*;

verus! {

/// ASCII whitespace: the characters the parser treats as optional whitespace.
pub open spec fn is_space(c: char) -> bool {
    c == ' ' || c == '\t' || c == '\n' || c == '\r' || c == '\u{c}'
}

pub fn is_space_char(c: char) -> (r: bool)
    ensures
        r == is_space(c),
{
    c == ' ' || c == '\t' || c == '\n' || c == '\r' || c == '\u{c}'
}

/// The pattern `pat` occurs in `s` at position `i`.
pub open spec fn match_at(s: Seq<char>, pat: Seq<char>, i: int) -> bool {
    &&& 0 <= i
    &&& i + pat.len() <= s.len()
    &&& s.subrange(i, i + pat.len() as int) == pat
}

/// Position of the leftmost occurrence of `pat` in `s` at or after `i`.
pub open spec fn find_from(s: Seq<char>, pat: Seq<char>, i: int) -> Option<int>
    decreases s.len() - i,
{
    if i < 0 || i + pat.len() > s.len() {
        None
    } else if pat.len() == 0 || match_at(s, pat, i) {
        Some(i)
    } else {
        find_from(s, pat, i + 1)
    }
}

/// Position of the leftmost occurrence of `pat` in `s`, if any.
pub open spec fn find_sub(s: Seq<char>, pat: Seq<char>) -> Option<int> {
    find_from(s, pat, 0)
}

pub proof fn lemma_find_from_some(s: Seq<char>, pat: Seq<char>, i: int, j: int)
    requires
        0 <= i,
        find_from(s, pat, i) == Some(j),
    ensures
        i <= j,
        match_at(s, pat, j),
        forall|k: int| i <= k < j ==> !match_at(s, pat, k),
    decreases s.len() - i,
{
    if i + pat.len() > s.len() {
    } else if pat.len() == 0 || match_at(s, pat, i) {
        assert(s.subrange(i, i + pat.len() as int) =~= pat);
    } else {
        lemma_find_from_some(s, pat, i + 1, j);
    }
}

/// `pat` occurs at `i` in `s`, decided by comparing characters.
pub fn eq_at(s: &str, pat: &str, i: usize) -> (r: bool)
    requires
        i + pat@.len() <= s@.len(),
    ensures
        r == match_at(s@, pat@, i as int),
{
    let n = s.unicode_len();
    let m = pat.unicode_len();
    let mut j: usize = 0;
    while j < m
        invariant
            j <= m,
            n == s@.len(),
            m == pat@.len(),
            i + m <= n,
            forall|k: int| 0 <= k < j ==> s@[i + k] == pat@[k],
        decreases m - j,
    {
        if s.get_char(i + j) != pat.get_char(j) {
            assert(!match_at(s@, pat@, i as int)) by {
                if s@.subrange(i as int, i + m as int) == pat@ {
                    assert(s@.subrange(i as int, i + m as int)[j as int] == s@[i + j]);
                }
            }
            return false;
        }
        j += 1;
    }
    assert(s@.subrange(i as int, i + m as int) =~= pat@);
    true
}

/// Leftmost occurrence of `pat` in `s`, scanning from the front.
pub fn find_str(s: &str, pat: &str) -> (r: Option<usize>)
    requires
        pat@.len() > 0,
    ensures
        r matches Some(i) ==> find_sub(s@, pat@) == Some(i as int),
        r is None ==> find_sub(s@, pat@) == None::<int>,
{
    let n = s.unicode_len();
    let m = pat.unicode_len();
    if m > n {
        return None;
    }
    let bound = n - m;
    let mut i: usize = 0;
    while i <= bound
        invariant
            n == s@.len(),
            m == pat@.len(),
            0 < m <= n,
            bound == n - m,
            i <= bound + 1,
            find_sub(s@, pat@) == find_from(s@, pat@, i as int),
        decreases bound + 1 - i,
    {
        if eq_at(s, pat, i) {
            return Some(i);
        }
        proof {
            assert(find_from(s@, pat@, i as int) == find_from(s@, pat@, i as int + 1));
        }
        i += 1;
    }
    None
}

/// Segments of `s` between the non-overlapping, leftmost-first occurrences of
/// the separator `pat`; a string without the separator is one segment.
pub open spec fn split_on(s: Seq<char>, pat: Seq<char>) -> Seq<Seq<char>>
    decreases s.len(),
{
    match find_sub(s, pat) {
        Some(i) => if 0 <= i && 0 < pat.len() && i + pat.len() <= s.len() {
            seq![s.subrange(0, i)] + split_on(s.skip(i + pat.len() as int), pat)
        } else {
            seq![s]
        },
        None => seq![s],
    }
}

pub fn split_on_str(s: &str, pat: &str) -> (r: Vec<String>)
    requires
        pat@.len() > 0,
    ensures
        r.deep_view() == split_on(s@, pat@),
        r.len() >= 1,
    decreases s@.len(),
{
    let n = s.unicode_len();
    let m = pat.unicode_len();
    match find_str(s, pat) {
        None => {
            let mut r: Vec<String> = Vec::new();
            r.push(String::from_str(s));
            proof {
                assert(r.deep_view() =~= split_on(s@, pat@));
            }
            r
        },
        Some(i) => {
            proof {
                lemma_find_from_some(s@, pat@, 0, i as int);
            }
            let first = s.substring_char(0, i);
            let rest = s.substring_char(i + m, n);
            let mut r = split_on_str(rest, pat);
            r.insert(0, String::from_str(first));
            proof {
                assert(r.deep_view() =~= split_on(s@, pat@));
            }
            r
        },
    }
}

/// The segments of `s` with the separator occurrences removed, joined back
/// together.
pub open spec fn strip_seps(s: Seq<char>, pat: Seq<char>) -> Seq<char>
    decreases s.len(),
{
    match find_sub(s, pat) {
        Some(i) => if 0 <= i && 0 < pat.len() && i + pat.len() <= s.len() {
            s.subrange(0, i) + strip_seps(s.skip(i + pat.len() as int), pat)
        } else {
            s
        },
        None => s,
    }
}

pub fn strip_seps_str(s: &str, pat: &str) -> (r: String)
    requires
        pat@.len() > 0,
    ensures
        r@ == strip_seps(s@, pat@),
    decreases s@.len(),
{
    let n = s.unicode_len();
    let m = pat.unicode_len();
    match find_str(s, pat) {
        None => String::from_str(s),
        Some(i) => {
            proof {
                lemma_find_from_some(s@, pat@, 0, i as int);
            }
            let first = s.substring_char(0, i);
            let rest = s.substring_char(i + m, n);
            let tail = strip_seps_str(rest, pat);
            let mut r = String::from_str(first);
            r.append(tail.as_str());
            r
        },
    }
}

/// The maximal runs of non-whitespace characters in `s`, in order.
pub open spec fn ws_split(s: Seq<char>) -> Seq<Seq<char>>
    decreases s.len(),
{
    if s.len() == 0 {
        Seq::empty()
    } else if is_space(s[0]) {
        ws_split(s.skip(1))
    } else {
        let rest = ws_split(s.skip(1));
        if s.len() > 1 && !is_space(s[1]) {
            seq![seq![s[0]] + rest[0]] + rest.skip(1)
        } else {
            seq![seq![s[0]]] + rest
        }
    }
}

/// Every token produced by `ws_split` is a non-empty run without whitespace.
pub proof fn lemma_ws_split_tokens(s: Seq<char>)
    ensures
        forall|i: int|
            0 <= i < ws_split(s).len() ==> #[trigger] ws_split(s)[i].len() > 0,
    decreases s.len(),
{
    if s.len() == 0 {
    } else {
        lemma_ws_split_tokens(s.skip(1));
        if !is_space(s[0]) {
            let rest = ws_split(s.skip(1));
            if s.len() > 1 && !is_space(s[1]) {
                assert forall|i: int| 0 <= i < ws_split(s).len() implies #[trigger] ws_split(
                    s,
                )[i].len() > 0 by {
                    if i > 0 {
                        assert(ws_split(s)[i] == rest.skip(1)[i - 1]);
                        assert(rest.skip(1)[i - 1] == rest[i]);
                    }
                }
            } else {
                assert forall|i: int| 0 <= i < ws_split(s).len() implies #[trigger] ws_split(
                    s,
                )[i].len() > 0 by {
                    if i > 0 {
                        assert(ws_split(s)[i] == rest[i - 1]);
                    }
                }
            }
        }
    }
}

/// A token that runs from the front of `s` to its first whitespace character
/// (or its end) is the first element of `ws_split`, and the rest of the
/// tokenization starts after it.
pub proof fn lemma_ws_split_token(s: Seq<char>, k: int)
    requires
        1 <= k <= s.len(),
        forall|j: int| 0 <= j < k ==> !is_space(#[trigger] s[j]),
        k < s.len() ==> is_space(s[k]),
    ensures
        ws_split(s) == seq![s.subrange(0, k)] + ws_split(s.skip(k)),
    decreases s.len(),
{
    if k == 1 {
        if s.len() > 1 && !is_space(s[1]) {
            assert(false);
        }
        assert(s.subrange(0, 1) =~= seq![s[0]]);
        assert(ws_split(s) =~= seq![s.subrange(0, 1)] + ws_split(s.skip(1)));
    } else {
        lemma_ws_split_token(s.skip(1), k - 1);
        assert(s.skip(1).subrange(0, k - 1) =~= s.subrange(1, k));
        assert(s.skip(1).skip(k - 1) =~= s.skip(k));
        let rest = ws_split(s.skip(1));
        assert(rest == seq![s.subrange(1, k)] + ws_split(s.skip(k)));
        assert(rest[0] == s.subrange(1, k));
        assert(seq![s[0]] + rest[0] =~= s.subrange(0, k));
        assert(rest.skip(1) =~= ws_split(s.skip(k)));
    }
}

/// Index just past the run of non-whitespace characters that starts at `i`.
fn token_end(s: &str, i: usize, n: usize) -> (j: usize)
    requires
        n == s@.len(),
        i < n,
        !is_space(s@[i as int]),
    ensures
        i < j <= n,
        forall|k: int| i <= k < j ==> !is_space(#[trigger] s@[k]),
        j < n ==> is_space(s@[j as int]),
{
    let mut j: usize = i + 1;
    while j < n
        invariant
            n == s@.len(),
            i < j <= n,
            forall|k: int| i <= k < j ==> !is_space(#[trigger] s@[k]),
        decreases n - j,
    {
        if is_space_char(s.get_char(j)) {
            return j;
        }
        j += 1;
    }
    j
}

/// Tokenize `s` into its whitespace-separated words.
pub fn ws_split_str(s: &str) -> (r: Vec<String>)
    ensures
        r.deep_view() == ws_split(s@),
{
    let n = s.unicode_len();
    let mut out: Vec<String> = Vec::new();
    let mut i: usize = 0;
    proof {
        assert(out.deep_view() =~= Seq::<Seq<char>>::empty());
        assert(s@.skip(0) =~= s@);
        assert(out.deep_view() + ws_split(s@) =~= ws_split(s@));
    }
    while i < n
        invariant
            n == s@.len(),
            i <= n,
            ws_split(s@) == out.deep_view() + ws_split(s@.skip(i as int)),
        decreases n - i,
    {
        if is_space_char(s.get_char(i)) {
            proof {
                assert(s@.skip(i as int).skip(1) =~= s@.skip(i as int + 1));
            }
            i += 1;
        } else {
            let j = token_end(s, i, n);
            let token = s.substring_char(i, j);
            let ghost pre = out.deep_view();
            out.push(String::from_str(token));
            proof {
                let suf = s@.skip(i as int);
                assert(forall|k: int|
                    0 <= k < j - i ==> !is_space(#[trigger] suf[k]) && suf[k] == s@[i + k]);
                if j < n {
                    assert(is_space(suf[j - i]));
                }
                lemma_ws_split_token(suf, j - i);
                assert(suf.subrange(0, j - i) =~= s@.subrange(i as int, j as int));
                assert(suf.skip(j - i) =~= s@.skip(j as int));
                assert(out.deep_view() =~= pre + seq![s@.subrange(i as int, j as int)]);
                assert(pre + (seq![s@.subrange(i as int, j as int)] + ws_split(s@.skip(j as int)))
                    =~= out.deep_view() + ws_split(s@.skip(j as int)));
            }
            i = j;
        }
    }
    proof {
        assert(s@.skip(n as int) =~= Seq::<char>::empty());
        assert(out.deep_view() + ws_split(s@.skip(n as int)) =~= out.deep_view());
    }
    out
}

/// `s` without its leading whitespace.
pub open spec fn trim_start(s: Seq<char>) -> Seq<char>
    decreases s.len(),
{
    if s.len() > 0 && is_space(s[0]) {
        trim_start(s.skip(1))
    } else {
        s
    }
}

/// `s` without its trailing whitespace.
pub open spec fn trim_end(s: Seq<char>) -> Seq<char>
    decreases s.len(),
{
    if s.len() > 0 && is_space(s[s.len() - 1]) {
        trim_end(s.take(s.len() - 1))
    } else {
        s
    }
}

/// `s` without its surrounding whitespace.
pub open spec fn trimmed(s: Seq<char>) -> Seq<char> {
    trim_end(trim_start(s))
}

/// Drop surrounding whitespace from `s`.
pub fn trim_str(s: &str) -> (r: String)
    ensures
        r@ == trimmed(s@),
{
    let n = s.unicode_len();
    let mut a: usize = 0;
    proof {
        assert(s@.skip(0) =~= s@);
    }
    while a < n && is_space_char(s.get_char(a))
        invariant
            n == s@.len(),
            a <= n,
            trim_start(s@) == trim_start(s@.skip(a as int)),
        decreases n - a,
    {
        proof {
            assert(s@.skip(a as int).skip(1) =~= s@.skip(a as int + 1));
        }
        a += 1;
    }
    proof {
        assert(trim_start(s@) =~= s@.subrange(a as int, n as int));
    }
    let mut b: usize = n;
    proof {
        assert(s@.subrange(a as int, n as int) == s@.subrange(a as int, b as int));
    }
    while b > a && is_space_char(s.get_char(b - 1))
        invariant
            n == s@.len(),
            a <= b <= n,
            trim_start(s@) == s@.subrange(a as int, n as int),
            trim_end(s@.subrange(a as int, n as int)) == trim_end(
                s@.subrange(a as int, b as int),
            ),
        decreases b,
    {
        proof {
            let cur = s@.subrange(a as int, b as int);
            assert(cur[cur.len() - 1] == s@[b - 1]);
            assert(cur.take(cur.len() - 1) =~= s@.subrange(a as int, b as int - 1));
        }
        b -= 1;
    }
    proof {
        assert(trim_end(s@.subrange(a as int, b as int)) == s@.subrange(a as int, b as int));
    }
    let r = s.substring_char(a, b);
    String::from_str(r)
}

/// Two string slices hold the same characters.
pub fn str_eq(a: &str, b: &str) -> (r: bool)
    ensures
        r == (a@ == b@),
{
    let n = a.unicode_len();
    if n != b.unicode_len() {
        return false;
    }
    let mut i: usize = 0;
    while i < n
        invariant
            n == a@.len(),
            n == b@.len(),
            i <= n,
            forall|k: int| 0 <= k < i ==> a@[k] == b@[k],
        decreases n - i,
    {
        if a.get_char(i) != b.get_char(i) {
            assert(a@ != b@) by {
                if a@ == b@ {
                    assert(a@[i as int] == b@[i as int]);
                }
            }
            return false;
        }
        i += 1;
    }
    assert(a@ =~= b@);
    true
}

} // verus!
