//! Character-level text utilities over `Seq<char>` models.

use vstd::prelude::*;
use vstd::string::StringExecFns;

verus! {

broadcast use vstd::string::group_string_axioms;

/// The characters of `s`, in order.
pub fn chars_of(s: &str) -> (res: Vec<char>)
    ensures
        res@ == s@,
{
    let mut v: Vec<char> = Vec::new();
    for c in it: s.chars()
        invariant
            v@ == it.seq().take(it.index()),
    {
        v.push(c);
    }
    v
}

/// Appends `c` to `s` (std `String::push`).
#[verifier::external_body]
pub(crate) fn push_char(s: &mut String, c: char)
    ensures
        final(s)@ == old(s)@.push(c),
{
    s.push(c);
}

/// A string holding exactly the characters `cs`.
pub fn string_of(cs: &[char]) -> (res: String)
    ensures
        res@ == cs@,
{
    let mut res = String::new();
    let mut i: usize = 0;
    while i < cs.len()
        invariant
            i <= cs@.len(),
            res@ == cs@.take(i as int),
        decreases cs@.len() - i,
    {
        push_char(&mut res, cs[i]);
        i += 1;
        assert(res@ =~= cs@.take(i as int));
    }
    assert(cs@.take(cs@.len() as int) =~= cs@);
    res
}

/// The characters `v[lo..hi]` as a new vector.
pub fn copy_range(v: &Vec<char>, lo: usize, hi: usize) -> (res: Vec<char>)
    requires
        lo <= hi <= v@.len(),
    ensures
        res@ == v@.subrange(lo as int, hi as int),
{
    let mut res: Vec<char> = Vec::new();
    let mut i: usize = lo;
    while i < hi
        invariant
            lo <= i <= hi <= v@.len(),
            res@ == v@.subrange(lo as int, i as int),
        decreases hi - i,
    {
        res.push(v[i]);
        i += 1;
        assert(res@ =~= v@.subrange(lo as int, i as int));
    }
    res
}

/// Unicode `White_Space`, the property that std's `char::is_whitespace` tests.
pub open spec fn is_ws(c: char) -> bool {
    ||| ('\u{9}' <= c && c <= '\u{d}')
    ||| c == ' '
    ||| c == '\u{85}'
    ||| c == '\u{a0}'
    ||| c == '\u{1680}'
    ||| ('\u{2000}' <= c && c <= '\u{200a}')
    ||| c == '\u{2028}'
    ||| c == '\u{2029}'
    ||| c == '\u{202f}'
    ||| c == '\u{205f}'
    ||| c == '\u{3000}'
}

/// Whether `c` is Unicode whitespace.
pub fn is_whitespace(c: char) -> (r: bool)
    ensures
        r == is_ws(c),
{
    ('\u{9}' <= c && c <= '\u{d}') || c == ' ' || c == '\u{85}' || c == '\u{a0}' || c == '\u{1680}'
        || ('\u{2000}' <= c && c <= '\u{200a}') || c == '\u{2028}' || c == '\u{2029}'
        || c == '\u{202f}' || c == '\u{205f}' || c == '\u{3000}'
}

/// `s` without leading whitespace (std `str::trim_start`).
pub open spec fn trim_start(s: Seq<char>) -> Seq<char>
    decreases s.len(),
{
    if s.len() > 0 && is_ws(s[0]) {
        trim_start(s.drop_first())
    } else {
        s
    }
}

/// `s` without trailing whitespace (std `str::trim_end`).
pub open spec fn trim_end(s: Seq<char>) -> Seq<char>
    decreases s.len(),
{
    if s.len() > 0 && is_ws(s.last()) {
        trim_end(s.drop_last())
    } else {
        s
    }
}

/// `s` without leading and trailing whitespace (std `str::trim`).
pub open spec fn trim(s: Seq<char>) -> Seq<char> {
    trim_end(trim_start(s))
}

/// Trimming the front stops at the first non-whitespace character.
pub proof fn lemma_trim_start_at(s: Seq<char>, i: int)
    requires
        0 <= i <= s.len(),
        forall|k: int| 0 <= k < i ==> is_ws(#[trigger] s[k]),
        i == s.len() || !is_ws(s[i]),
    ensures
        trim_start(s) == s.skip(i),
    decreases i,
{
    if i > 0 {
        let t = s.drop_first();
        assert forall|k: int| 0 <= k < i - 1 implies is_ws(#[trigger] t[k]) by {
            assert(t[k] == s[k + 1]);
        }
        lemma_trim_start_at(t, i - 1);
        assert(t.skip(i - 1) =~= s.skip(i));
    } else {
        assert(s.skip(0) =~= s);
    }
}

/// Trimming the back stops after the last non-whitespace character.
pub proof fn lemma_trim_end_at(s: Seq<char>, j: int)
    requires
        0 <= j <= s.len(),
        forall|k: int| j <= k < s.len() ==> is_ws(#[trigger] s[k]),
        j == 0 || !is_ws(s[j - 1]),
    ensures
        trim_end(s) == s.take(j),
    decreases s.len() - j,
{
    if j < s.len() {
        let t = s.drop_last();
        assert forall|k: int| j <= k < t.len() implies is_ws(#[trigger] t[k]) by {
            assert(t[k] == s[k]);
        }
        lemma_trim_end_at(t, j);
        assert(t.take(j) =~= s.take(j));
    } else {
        assert(s.take(j) =~= s);
    }
}

/// Index of the first non-whitespace character of `v` (or its length).
fn first_non_ws(v: &Vec<char>) -> (i: usize)
    ensures
        i <= v@.len(),
        forall|k: int| 0 <= k < i ==> is_ws(#[trigger] v@[k]),
        i == v@.len() || !is_ws(v@[i as int]),
{
    let mut i: usize = 0;
    while i < v.len() && is_whitespace(v[i])
        invariant
            i <= v@.len(),
            forall|k: int| 0 <= k < i ==> is_ws(#[trigger] v@[k]),
        decreases v@.len() - i,
    {
        i += 1;
    }
    i
}

/// `v` without leading whitespace.
pub fn trim_start_chars(v: &Vec<char>) -> (res: Vec<char>)
    ensures
        res@ == trim_start(v@),
{
    let i = first_non_ws(v);
    proof {
        lemma_trim_start_at(v@, i as int);
    }
    copy_range(v, i, v.len())
}

/// `v` without leading and trailing whitespace.
pub fn trim_chars(v: &Vec<char>) -> (res: Vec<char>)
    ensures
        res@ == trim(v@),
{
    let i = first_non_ws(v);
    let mut j: usize = v.len();
    while j > i && is_whitespace(v[j - 1])
        invariant
            i <= j <= v@.len(),
            forall|k: int| j <= k < v@.len() ==> is_ws(#[trigger] v@[k]),
        decreases j,
    {
        j -= 1;
    }
    proof {
        lemma_trim_start_at(v@, i as int);
        let t = v@.skip(i as int);
        let jj = j - i;
        assert forall|k: int| jj <= k < t.len() implies is_ws(#[trigger] t[k]) by {
            assert(t[k] == v@[k + i]);
        }
        if jj > 0 {
            assert(t[jj - 1] == v@[j - 1]);
        }
        lemma_trim_end_at(t, jj);
        assert(t.take(jj) =~= v@.subrange(i as int, j as int));
    }
    copy_range(v, i, j)
}

/// `p` is a prefix of `s`.
pub open spec fn starts_with(s: Seq<char>, p: Seq<char>) -> bool {
    p.len() <= s.len() && s.take(p.len() as int) == p
}

/// `p` is a suffix of `s`.
pub open spec fn ends_with(s: Seq<char>, p: Seq<char>) -> bool {
    p.len() <= s.len() && s.skip(s.len() - p.len()) == p
}

/// `p` occurs in `s` starting at position `i`.
pub open spec fn occurs_at(s: Seq<char>, p: Seq<char>, i: int) -> bool {
    0 <= i && i + p.len() <= s.len() && s.subrange(i, i + p.len()) == p
}

/// `p` occurs somewhere in `s` (std `str::contains`).
pub open spec fn contains(s: Seq<char>, p: Seq<char>) -> bool {
    exists|i: int| #[trigger] occurs_at(s, p, i)
}

/// Whether `p` occurs in `v` at position `i`.
pub fn matches_at(v: &Vec<char>, p: &Vec<char>, i: usize) -> (r: bool)
    ensures
        r == occurs_at(v@, p@, i as int),
{
    if i > v.len() || p.len() > v.len() - i {
        return false;
    }
    let vlen = v.len();
    let mut k: usize = 0;
    while k < p.len()
        invariant
            vlen == v@.len(),
            i + p@.len() <= v@.len(),
            k <= p@.len(),
            forall|m: int| 0 <= m < k ==> v@[i + m] == p@[m],
        decreases p@.len() - k,
    {
        if v[i + k] != p[k] {
            assert(v@.subrange(i as int, i + p@.len())[k as int] != p@[k as int]);
            return false;
        }
        k += 1;
    }
    assert(v@.subrange(i as int, i + p@.len()) =~= p@);
    true
}

/// Whether `v` starts with `p`.
pub fn has_prefix(v: &Vec<char>, p: &Vec<char>) -> (r: bool)
    ensures
        r == starts_with(v@, p@),
{
    let r = matches_at(v, p, 0);
    proof {
        if p@.len() <= v@.len() {
            assert(v@.subrange(0, p@.len() as int) =~= v@.take(p@.len() as int));
        }
    }
    r
}

/// Whether `v` ends with `p`.
pub fn has_suffix(v: &Vec<char>, p: &Vec<char>) -> (r: bool)
    ensures
        r == ends_with(v@, p@),
{
    if p.len() > v.len() {
        return false;
    }
    let r = matches_at(v, p, v.len() - p.len());
    assert(v@.subrange(v@.len() - p@.len(), v@.len() as int) =~= v@.skip(v@.len() - p@.len()));
    r
}

/// Whether `p` occurs anywhere in `v`.
pub fn has_substring(v: &Vec<char>, p: &Vec<char>) -> (r: bool)
    ensures
        r == contains(v@, p@),
{
    if p.len() > v.len() {
        assert forall|i: int| !#[trigger] occurs_at(v@, p@, i) by {}
        return false;
    }
    let last = v.len() - p.len();
    let mut i: usize = 0;
    loop
        invariant
            last + p@.len() == v@.len(),
            i <= last,
            forall|m: int| 0 <= m < i ==> !#[trigger] occurs_at(v@, p@, m),
        ensures
            forall|m: int| 0 <= m <= last ==> !#[trigger] occurs_at(v@, p@, m),
        decreases last - i,
    {
        if matches_at(v, p, i) {
            return true;
        }
        if i == last {
            break;
        }
        i += 1;
    }
    false
}

/// `s` with every leading copy of `p` removed (std `str::trim_start_matches`).
pub open spec fn trim_start_matches(s: Seq<char>, p: Seq<char>) -> Seq<char>
    decreases s.len(),
{
    if p.len() > 0 && starts_with(s, p) {
        trim_start_matches(s.skip(p.len() as int), p)
    } else {
        s
    }
}

/// `s` with every trailing copy of `p` removed (std `str::trim_end_matches`).
pub open spec fn trim_end_matches(s: Seq<char>, p: Seq<char>) -> Seq<char>
    decreases s.len(),
{
    if p.len() > 0 && ends_with(s, p) {
        trim_end_matches(s.take(s.len() - p.len()), p)
    } else {
        s
    }
}

/// `v` with every leading copy of `p` removed.
pub fn trim_start_matches_chars(v: &Vec<char>, p: &Vec<char>) -> (res: Vec<char>)
    ensures
        res@ == trim_start_matches(v@, p@),
{
    let mut i: usize = 0;
    let plen = p.len();
    let vlen = v.len();
    assert(v@.skip(0) =~= v@);
    while plen > 0 && matches_at(v, p, i)
        invariant
            plen == p@.len(),
            vlen == v@.len(),
            i <= v@.len(),
            trim_start_matches(v@.skip(i as int), p@) == trim_start_matches(v@, p@),
        decreases v@.len() - i,
    {
        proof {
            let t = v@.skip(i as int);
            assert(t.take(plen as int) =~= v@.subrange(i as int, i + plen));
            assert(t.skip(plen as int) =~= v@.skip(i + plen));
        }
        i += plen;
    }
    proof {
        let t = v@.skip(i as int);
        if plen > 0 && plen <= t.len() {
            assert(t.take(plen as int) =~= v@.subrange(i as int, i + plen));
        }
    }
    copy_range(v, i, v.len())
}

/// `v` with every trailing copy of `p` removed.
pub fn trim_end_matches_chars(v: &Vec<char>, p: &Vec<char>) -> (res: Vec<char>)
    ensures
        res@ == trim_end_matches(v@, p@),
{
    let mut j: usize = v.len();
    let plen = p.len();
    assert(v@.take(j as int) =~= v@);
    while plen > 0 && j >= plen && matches_at(v, p, j - plen)
        invariant
            plen == p@.len(),
            j <= v@.len(),
            trim_end_matches(v@.take(j as int), p@) == trim_end_matches(v@, p@),
        decreases j,
    {
        proof {
            let t = v@.take(j as int);
            assert(t.skip(j - plen) =~= v@.subrange(j - plen, j as int));
            assert(t.take(j - plen) =~= v@.take(j - plen));
        }
        j -= plen;
    }
    proof {
        let t = v@.take(j as int);
        if plen > 0 && plen <= j {
            assert(t.skip(j - plen) =~= v@.subrange(j - plen, j as int));
        }
        if v@.len() == j {
            assert(t =~= v@);
        }
    }
    copy_range(v, 0, j)
}

/// Position of the first `c` in `s`, or -1.
pub open spec fn index_of(s: Seq<char>, c: char) -> int
    decreases s.len(),
{
    if s.len() == 0 {
        -1
    } else if s[0] == c {
        0
    } else {
        let r = index_of(s.drop_first(), c);
        if r < 0 {
            -1
        } else {
            r + 1
        }
    }
}

/// What `index_of` returns.
pub proof fn lemma_index_of(s: Seq<char>, c: char)
    ensures
        -1 <= index_of(s, c) < s.len(),
        index_of(s, c) >= 0 ==> s[index_of(s, c)] == c,
        forall|k: int| 0 <= k < s.len() && (index_of(s, c) < 0 || k < index_of(s, c)) ==> s[k] != c,
    decreases s.len(),
{
    if s.len() > 0 && s[0] != c {
        let t = s.drop_first();
        lemma_index_of(t, c);
        assert forall|k: int| 0 <= k < s.len() && (index_of(s, c) < 0 || k < index_of(s, c)) implies s[k] != c by {
            if k > 0 {
                assert(s[k] == t[k - 1]);
            }
        }
    }
}

/// The first `c` in `s` is at `i`.
pub proof fn lemma_index_of_at(s: Seq<char>, c: char, i: int)
    requires
        0 <= i < s.len(),
        s[i] == c,
        forall|k: int| 0 <= k < i ==> s[k] != c,
    ensures
        index_of(s, c) == i,
{
    lemma_index_of(s, c);
}

/// `c` does not occur in `s`.
pub proof fn lemma_index_of_none(s: Seq<char>, c: char)
    requires
        forall|k: int| 0 <= k < s.len() ==> s[k] != c,
    ensures
        index_of(s, c) == -1,
{
    lemma_index_of(s, c);
}

/// A line without its carriage return, if it ends with one.
pub open spec fn strip_cr(l: Seq<char>) -> Seq<char> {
    if l.len() > 0 && l.last() == '\r' {
        l.drop_last()
    } else {
        l
    }
}

/// The lines of `s` (std `str::lines`): split at `\n`, a `\r` right before
/// the `\n` dropped, and no empty last line after a final `\n`.
pub open spec fn lines(s: Seq<char>) -> Seq<Seq<char>>
    decreases s.len(),
{
    if s.len() == 0 {
        seq![]
    } else {
        let i = index_of(s, '\n');
        if i < 0 {
            seq![s]
        } else {
            proof {
                lemma_index_of(s, '\n');
            }
            seq![strip_cr(s.take(i))] + lines(s.skip(i + 1))
        }
    }
}

/// The views of a sequence of character vectors.
pub open spec fn views(vs: Seq<Vec<char>>) -> Seq<Seq<char>> {
    vs.map_values(|v: Vec<char>| v@)
}

/// `l` without a final carriage return.
fn strip_cr_chars(l: Vec<char>) -> (res: Vec<char>)
    ensures
        res@ == strip_cr(l@),
{
    let mut l = l;
    if l.len() > 0 && l[l.len() - 1] == '\r' {
        l.pop();
    }
    l
}

/// Index of the first `c` in `v` at or after `from` (or `v.len()`).
pub(crate) fn find_char_from(v: &Vec<char>, c: char, from: usize) -> (q: usize)
    requires
        from <= v@.len(),
    ensures
        from <= q <= v@.len(),
        q < v@.len() ==> v@[q as int] == c,
        forall|k: int| from <= k < q ==> v@[k] != c,
{
    let mut q = from;
    while q < v.len() && v[q] != c
        invariant
            from <= q <= v@.len(),
            forall|k: int| from <= k < q ==> v@[k] != c,
        decreases v@.len() - q,
    {
        q += 1;
    }
    q
}

/// The lines of `v`.
pub fn lines_of(v: &Vec<char>) -> (res: Vec<Vec<char>>)
    ensures
        views(res@) == lines(v@),
{
    let mut out: Vec<Vec<char>> = Vec::new();
    let mut p: usize = 0;
    let n = v.len();
    assert(v@.skip(0) =~= v@);
    assert(views(out@) + lines(v@) =~= lines(v@));
    while p < n
        invariant
            n == v@.len(),
            p <= n,
            views(out@) + lines(v@.skip(p as int)) == lines(v@),
        decreases n - p,
    {
        let q = find_char_from(v, '\n', p);
        let ghost rest = v@.skip(p as int);
        let piece = copy_range(v, p, q);
        if q == n {
            proof {
                lemma_index_of_none(rest, '\n');
                assert(rest =~= piece@);
                assert(views(out@.push(piece)) =~= views(out@).push(piece@));
                assert(v@.skip(n as int) =~= Seq::<char>::empty());
                assert(lines(Seq::<char>::empty()) =~= Seq::<Seq<char>>::empty());
                assert(views(out@.push(piece)) + lines(v@.skip(n as int)) =~= views(out@) + lines(rest));
            }
            out.push(piece);
            p = n;
        } else {
            let line = strip_cr_chars(piece);
            proof {
                lemma_index_of_at(rest, '\n', q - p);
                assert(rest.take(q - p) =~= v@.subrange(p as int, q as int));
                assert(rest.skip(q - p + 1) =~= v@.skip(q + 1));
                assert(views(out@.push(line)) =~= views(out@).push(line@));
                assert(views(out@.push(line)) + lines(v@.skip(q + 1)) =~= views(out@) + lines(rest));
            }
            out.push(line);
            p = q + 1;
        }
    }
    proof {
        assert(v@.skip(n as int) =~= Seq::<char>::empty());
        assert(views(out@) + lines(Seq::<char>::empty()) =~= views(out@));
    }
    out
}

/// Length of the run of non-whitespace characters at the front of `s`.
pub open spec fn word_len(s: Seq<char>) -> int
    decreases s.len(),
{
    if s.len() > 0 && !is_ws(s[0]) {
        1 + word_len(s.drop_first())
    } else {
        0
    }
}

/// What `word_len` returns.
pub proof fn lemma_word_len(s: Seq<char>)
    ensures
        0 <= word_len(s) <= s.len(),
        forall|k: int| 0 <= k < word_len(s) ==> !is_ws(#[trigger] s[k]),
        word_len(s) == s.len() || is_ws(s[word_len(s)]),
    decreases s.len(),
{
    if s.len() > 0 && !is_ws(s[0]) {
        let t = s.drop_first();
        lemma_word_len(t);
        assert forall|k: int| 0 <= k < word_len(s) implies !is_ws(#[trigger] s[k]) by {
            if k > 0 {
                assert(s[k] == t[k - 1]);
            }
        }
    }
}

/// The run of non-whitespace at the front of `s` ends at `j`.
pub proof fn lemma_word_len_at(s: Seq<char>, j: int)
    requires
        0 <= j <= s.len(),
        forall|k: int| 0 <= k < j ==> !is_ws(#[trigger] s[k]),
        j == s.len() || is_ws(s[j]),
    ensures
        word_len(s) == j,
    decreases j,
{
    if j > 0 {
        let t = s.drop_first();
        assert forall|k: int| 0 <= k < j - 1 implies !is_ws(#[trigger] t[k]) by {
            assert(t[k] == s[k + 1]);
        }
        lemma_word_len_at(t, j - 1);
    }
}

/// What `trim_start` returns: a suffix of `s` starting with non-whitespace.
pub proof fn lemma_trim_start(s: Seq<char>)
    ensures
        trim_start(s).len() <= s.len(),
        trim_start(s) == s.skip(s.len() - trim_start(s).len()),
        trim_start(s).len() > 0 ==> !is_ws(trim_start(s)[0]),
    decreases s.len(),
{
    if s.len() > 0 && is_ws(s[0]) {
        lemma_trim_start(s.drop_first());
        assert(s.drop_first().skip(s.len() - 1 - trim_start(s).len()) =~= s.skip(s.len() - trim_start(s).len()));
    } else {
        assert(s.skip(0) =~= s);
    }
}

/// The whitespace-separated words of `s` (std `str::split_whitespace`).
pub open spec fn words(s: Seq<char>) -> Seq<Seq<char>>
    decreases s.len(),
{
    let t = trim_start(s);
    if t.len() == 0 {
        seq![]
    } else {
        proof {
            lemma_trim_start(s);
            lemma_word_len(t);
        }
        seq![t.take(word_len(t))] + words(t.skip(word_len(t)))
    }
}

/// The whitespace-separated words of `v`.
pub fn words_of(v: &Vec<char>) -> (res: Vec<Vec<char>>)
    ensures
        views(res@) == words(v@),
{
    let mut out: Vec<Vec<char>> = Vec::new();
    let mut p: usize = 0;
    let n = v.len();
    assert(v@.skip(0) =~= v@);
    assert(views(out@) + words(v@) =~= words(v@));
    loop
        invariant
            n == v@.len(),
            p <= n,
            views(out@) + words(v@.skip(p as int)) == words(v@),
        ensures
            views(out@) == words(v@),
        decreases n - p,
    {
        let ghost rest = v@.skip(p as int);
        let mut i = p;
        while i < n && is_whitespace(v[i])
            invariant
                n == v@.len(),
                p <= i <= n,
                forall|k: int| p <= k < i ==> is_ws(#[trigger] v@[k]),
            decreases n - i,
        {
            i += 1;
        }
        proof {
            assert forall|k: int| 0 <= k < i - p implies is_ws(#[trigger] rest[k]) by {
                assert(rest[k] == v@[p + k]);
            }
            if i < n {
                assert(rest[i - p] == v@[i as int]);
            }
            lemma_trim_start_at(rest, i - p);
            assert(rest.skip(i - p) =~= v@.skip(i as int));
        }
        if i == n {
            proof {
                assert(views(out@) + words(rest) =~= views(out@));
            }
            break;
        }
        let mut j = i;
        while j < n && !is_whitespace(v[j])
            invariant
                n == v@.len(),
                i <= j <= n,
                forall|k: int| i <= k < j ==> !is_ws(#[trigger] v@[k]),
            decreases n - j,
        {
            j += 1;
        }
        let word = copy_range(v, i, j);
        proof {
            let t = v@.skip(i as int);
            assert forall|k: int| 0 <= k < j - i implies !is_ws(#[trigger] t[k]) by {
                assert(t[k] == v@[i + k]);
            }
            if j < n {
                assert(t[j - i] == v@[j as int]);
            }
            lemma_word_len_at(t, j - i);
            assert(t.take(j - i) =~= word@);
            assert(t.skip(j - i) =~= v@.skip(j as int));
            assert(views(out@.push(word)) =~= views(out@).push(word@));
            assert(views(out@.push(word)) + words(v@.skip(j as int)) =~= views(out@) + words(rest));
        }
        out.push(word);
        p = j;
    }
    out
}

/// The pieces `ps` joined with `sep` between neighbours (std `[S]::join`).
pub open spec fn join(ps: Seq<Seq<char>>, sep: Seq<char>) -> Seq<char>
    decreases ps.len(),
{
    if ps.len() == 0 {
        seq![]
    } else if ps.len() == 1 {
        ps[0]
    } else {
        join(ps.drop_last(), sep) + sep + ps.last()
    }
}

/// The character vectors `ps` joined with `sep`.
pub fn join_chars(ps: &Vec<Vec<char>>, sep: &Vec<char>) -> (res: Vec<char>)
    ensures
        res@ == join(views(ps@), sep@),
{
    let mut out: Vec<char> = Vec::new();
    let mut i: usize = 0;
    while i < ps.len()
        invariant
            i <= ps@.len(),
            out@ == join(views(ps@.take(i as int)), sep@),
        decreases ps@.len() - i,
    {
        proof {
            assert(views(ps@.take(i + 1)).drop_last() =~= views(ps@.take(i as int)));
            assert(views(ps@.take(i + 1)).last() == ps@[i as int]@);
        }
        if i > 0 {
            let mut k: usize = 0;
            let ghost start = out@;
            while k < sep.len()
                invariant
                    k <= sep@.len(),
                    out@ == start + sep@.take(k as int),
                decreases sep@.len() - k,
            {
                out.push(sep[k]);
                k += 1;
                assert(out@ =~= start + sep@.take(k as int));
            }
            assert(sep@.take(sep@.len() as int) =~= sep@);
        } else {
            assert(views(ps@.take(1)).len() == 1);
        }
        let piece = &ps[i];
        let ghost mid = out@;
        let mut k: usize = 0;
        while k < piece.len()
            invariant
                k <= piece@.len(),
                out@ == mid + piece@.take(k as int),
            decreases piece@.len() - k,
        {
            out.push(piece[k]);
            k += 1;
            assert(out@ =~= mid + piece@.take(k as int));
        }
        proof {
            assert(piece@.take(piece@.len() as int) =~= piece@);
            if i == 0 {
                assert(out@ =~= views(ps@.take(1))[0]);
            }
        }
        i += 1;
    }
    proof {
        assert(ps@.take(ps@.len() as int) =~= ps@);
    }
    out
}

/// The views of a sequence of strings.
pub open spec fn string_views(v: Seq<String>) -> Seq<Seq<char>> {
    v.map_values(|s: String| s@)
}

/// The strings holding the character vectors `vs`.
pub fn strings_of(vs: &Vec<Vec<char>>) -> (res: Vec<String>)
    ensures
        string_views(res@) == views(vs@),
{
    let mut out: Vec<String> = Vec::new();
    let mut i: usize = 0;
    while i < vs.len()
        invariant
            i <= vs@.len(),
            string_views(out@) == views(vs@.take(i as int)),
        decreases vs@.len() - i,
    {
        let s = string_of(vs[i].as_slice());
        assert(s@ == vs@[i as int]@);
        let ghost prev = out@;
        out.push(s);
        proof {
            assert(string_views(out@) =~= string_views(prev).push(s@));
            assert(views(vs@.take(i + 1)) =~= views(vs@.take(i as int)).push(vs@[i as int]@));
        }
        i += 1;
        assert(string_views(out@) =~= views(vs@.take(i as int)));
    }
    assert(vs@.take(vs@.len() as int) =~= vs@);
    out
}

/// Whether `a` and `b` hold the same characters.
pub fn eq_chars(a: &Vec<char>, b: &Vec<char>) -> (r: bool)
    ensures
        r == (a@ == b@),
{
    if a.len() != b.len() {
        return false;
    }
    let r = matches_at(a, b, 0);
    assert(a@.subrange(0, b@.len() as int) =~= a@);
    r
}

/// Whether `a` and `b` are the same string.
pub fn str_eq(a: &str, b: &str) -> (r: bool)
    ensures
        r == (a@ == b@),
{
    eq_chars(&chars_of(a), &chars_of(b))
}

/// Membership after a push.
pub proof fn lemma_push_contains<A>(s: Seq<A>, e: A, x: A)
    ensures
        s.push(e).contains(x) <==> (s.contains(x) || x == e),
{
    let t = s.push(e);
    if s.contains(x) {
        let k = choose|k: int| 0 <= k < s.len() && s[k] == x;
        assert(t[k] == x);
    }
    if x == e {
        assert(t[s.len() as int] == x);
    }
    if t.contains(x) {
        let k = choose|k: int| 0 <= k < t.len() && t[k] == x;
        if k < s.len() {
            assert(s[k] == x);
        }
    }
}

/// `s` holds no newline.
pub open spec fn no_newline(s: Seq<char>) -> bool {
    forall|k: int| 0 <= k < s.len() ==> s[k] != '\n'
}

/// The text of the lines `ls`, each ended by a newline.
pub open spec fn terminated(ls: Seq<Seq<char>>) -> Seq<char>
    decreases ls.len(),
{
    if ls.len() == 0 {
        seq![]
    } else {
        ls[0] + seq!['\n'] + terminated(ls.drop_first())
    }
}

/// Adding a line at the end adds it and its newline to the text.
pub proof fn lemma_terminated_push(ls: Seq<Seq<char>>, l: Seq<char>)
    ensures
        terminated(ls.push(l)) == terminated(ls) + l + seq!['\n'],
    decreases ls.len(),
{
    if ls.len() == 0 {
        assert(ls.push(l).drop_first() =~= Seq::<Seq<char>>::empty());
        assert(terminated(Seq::<Seq<char>>::empty()) =~= Seq::<char>::empty());
        assert(ls.push(l)[0] == l);
        assert(terminated(ls.push(l)) =~= terminated(ls) + l + seq!['\n']);
    } else {
        assert(ls.push(l).drop_first() =~= ls.drop_first().push(l));
        lemma_terminated_push(ls.drop_first(), l);
        assert(terminated(ls.push(l)) =~= terminated(ls) + l + seq!['\n']);
    }
}

/// Reading back the lines of a text written line by line gives the lines,
/// as long as none holds a newline or ends with a carriage return.
pub proof fn lemma_lines_terminated(ls: Seq<Seq<char>>)
    requires
        forall|i: int| 0 <= i < ls.len() ==> no_newline(#[trigger] ls[i]),
        forall|i: int| 0 <= i < ls.len() ==> strip_cr(#[trigger] ls[i]) == ls[i],
    ensures
        lines(terminated(ls)) == ls,
    decreases ls.len(),
{
    if ls.len() > 0 {
        let l = ls[0];
        let rest = ls.drop_first();
        let s = terminated(ls);
        assert forall|i: int| 0 <= i < rest.len() implies no_newline(#[trigger] rest[i]) by {
            assert(rest[i] == ls[i + 1]);
        }
        assert forall|i: int| 0 <= i < rest.len() implies strip_cr(#[trigger] rest[i]) == rest[i] by {
            assert(rest[i] == ls[i + 1]);
        }
        lemma_lines_terminated(rest);
        assert(s[l.len() as int] == '\n');
        assert forall|k: int| 0 <= k < l.len() implies s[k] != '\n' by {
            assert(s[k] == l[k]);
        }
        lemma_index_of_at(s, '\n', l.len() as int);
        assert(s.take(l.len() as int) =~= l);
        assert(s.skip(l.len() as int + 1) =~= terminated(rest));
        assert(lines(s) =~= seq![l] + rest);
    } else {
        assert(terminated(ls) =~= Seq::<char>::empty());
    }
}

/// The text of the lines `ls`, each ended by a newline.
pub fn terminate_lines(ls: &Vec<String>) -> (text: String)
    ensures
        text@ == terminated(string_views(ls@)),
{
    let mut text = String::new();
    let mut i: usize = 0;
    assert(string_views(ls@.take(0)) =~= Seq::<Seq<char>>::empty());
    while i < ls.len()
        invariant
            i <= ls@.len(),
            text@ == terminated(string_views(ls@.take(i as int))),
        decreases ls@.len() - i,
    {
        proof {
            assert(string_views(ls@.take(i + 1)) =~= string_views(ls@.take(i as int)).push(ls@[i as int]@));
            lemma_terminated_push(string_views(ls@.take(i as int)), ls@[i as int]@);
        }
        text.append(ls[i].as_str());
        push_char(&mut text, '\n');
        i += 1;
    }
    assert(ls@.take(ls@.len() as int) =~= ls@);
    text
}

/// `s` holds no whitespace.
pub open spec fn no_ws(s: Seq<char>) -> bool {
    forall|k: int| 0 <= k < s.len() ==> !is_ws(#[trigger] s[k])
}

/// A single word: not empty, no whitespace.
pub open spec fn is_word(s: Seq<char>) -> bool {
    s.len() > 0 && no_ws(s)
}

/// Leading whitespace does not change the words.
pub proof fn lemma_words_skip_ws(s: Seq<char>)
    requires
        s.len() > 0,
        is_ws(s[0]),
    ensures
        words(s) == words(s.drop_first()),
{
    assert(trim_start(s) == trim_start(s.drop_first()));
}

/// A single word is its only word.
pub proof fn lemma_words_single(w: Seq<char>)
    requires
        is_word(w),
    ensures
        words(w) == seq![w],
{
    assert(trim_start(w) == w);
    lemma_word_len_at(w, w.len() as int);
    assert(w.take(w.len() as int) =~= w);
    assert(w.skip(w.len() as int) =~= Seq::<char>::empty());
    assert(trim_start(Seq::<char>::empty()) =~= Seq::<char>::empty());
    assert(words(Seq::<char>::empty()) =~= Seq::<Seq<char>>::empty());
    assert(words(w) =~= seq![w]);
}

/// A space separates words: the words of `a`, a space, then `b` are the
/// words of `a` followed by those of `b`.
pub proof fn lemma_words_space(a: Seq<char>, b: Seq<char>)
    ensures
        words(a + seq![' '] + b) == words(a) + words(b),
    decreases a.len(),
{
    let s = a + seq![' '] + b;
    if a.len() == 0 {
        assert(s =~= seq![' '] + b);
        assert(s.drop_first() =~= b);
        lemma_words_skip_ws(s);
        assert(trim_start(a) =~= a);
        assert(words(a) =~= Seq::<Seq<char>>::empty());
        assert(words(a) + words(b) =~= words(b));
    } else if is_ws(a[0]) {
        assert(s.drop_first() =~= a.drop_first() + seq![' '] + b);
        lemma_words_skip_ws(s);
        lemma_words_skip_ws(a);
        lemma_words_space(a.drop_first(), b);
    } else {
        lemma_word_len(a);
        let wl = word_len(a);
        assert(s[a.len() as int] == ' ');
        assert forall|k: int| 0 <= k < wl implies !is_ws(#[trigger] s[k]) by {
            assert(s[k] == a[k]);
        }
        if wl < a.len() {
            assert(s[wl] == a[wl]);
        }
        lemma_word_len_at(s, wl);
        assert(trim_start(s) == s);
        assert(trim_start(a) == a);
        assert(wl > 0);
        assert(s.take(wl) =~= a.take(wl));
        assert(s.skip(wl) =~= a.skip(wl) + seq![' '] + b);
        lemma_words_space(a.skip(wl), b);
        assert(words(s) =~= seq![a.take(wl)] + words(a.skip(wl) + seq![' '] + b));
        assert(words(a) =~= seq![a.take(wl)] + words(a.skip(wl)));
        assert(words(s) =~= words(a) + words(b));
    }
}

/// Words joined with single spaces split back into the same words.
pub proof fn lemma_words_join(ws: Seq<Seq<char>>)
    requires
        forall|i: int| 0 <= i < ws.len() ==> is_word(#[trigger] ws[i]),
    ensures
        words(join(ws, " "@)) == ws,
    decreases ws.len(),
{
    reveal_strlit(" ");
    if ws.len() == 0 {
        assert(join(ws, " "@) =~= Seq::<char>::empty());
        assert(trim_start(Seq::<char>::empty()) =~= Seq::<char>::empty());
        assert(words(Seq::<char>::empty()) =~= Seq::<Seq<char>>::empty());
    } else if ws.len() == 1 {
        assert(is_word(ws[0]));
        lemma_words_single(ws[0]);
        assert(words(join(ws, " "@)) =~= ws);
    } else {
        let d = ws.drop_last();
        assert forall|i: int| 0 <= i < d.len() implies is_word(#[trigger] d[i]) by {
            assert(d[i] == ws[i]);
        }
        lemma_words_join(d);
        assert(is_word(ws.last()));
        lemma_words_single(ws.last());
        assert(" "@ =~= seq![' ']);
        lemma_words_space(join(d, " "@), ws.last());
        assert(words(join(ws, " "@)) =~= d + seq![ws.last()]);
        assert(d + seq![ws.last()] =~= ws);
    }
}

/// Words joined with spaces hold no newline.
pub proof fn lemma_join_no_newline(ws: Seq<Seq<char>>)
    requires
        forall|i: int| 0 <= i < ws.len() ==> is_word(#[trigger] ws[i]),
    ensures
        no_newline(join(ws, " "@)),
    decreases ws.len(),
{
    reveal_strlit(" ");
    if ws.len() == 1 {
        assert(is_word(ws[0]));
        assert forall|k: int| 0 <= k < ws[0].len() implies ws[0][k] != '\n' by {
            assert(!is_ws(ws[0][k]));
        }
    } else if ws.len() > 1 {
        let d = ws.drop_last();
        assert forall|i: int| 0 <= i < d.len() implies is_word(#[trigger] d[i]) by {
            assert(d[i] == ws[i]);
        }
        lemma_join_no_newline(d);
        let w = ws.last();
        assert(is_word(w));
        let j = join(ws, " "@);
        let jd = join(d, " "@);
        assert forall|k: int| 0 <= k < j.len() implies j[k] != '\n' by {
            if k < jd.len() {
                assert(j[k] == jd[k]);
            } else if k == jd.len() {
                assert(j[k] == ' ');
            } else {
                assert(j[k] == w[k - jd.len() - 1]);
                assert(!is_ws(w[k - jd.len() - 1]));
            }
        }
    }
}

/// The last character of words joined with spaces is that of the last word.
pub proof fn lemma_join_last(ws: Seq<Seq<char>>)
    requires
        ws.len() > 0,
        ws.last().len() > 0,
    ensures
        join(ws, " "@).len() > 0,
        join(ws, " "@).last() == ws.last().last(),
{
}

} // verus!
