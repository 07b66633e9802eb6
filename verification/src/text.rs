//! Character-level text operations on `Seq<char>`, with the exact meaning of
//! the string operations that the tool relies on (searching, replacing,
//! trimming, splitting into words or lines, and decimal parsing).
use vstd::prelude::*;
use vstd::utf8::{valid_utf8, decode_utf8};

verus! {

// ---------------------------------------------------------------------------
// Conversions between strings and character vectors
// ---------------------------------------------------------------------------

/// Copies the characters of a string slice into a vector.
pub fn chars_of(s: &str) -> (v: Vec<char>)
    ensures
        v@ == s@,
{
    let mut v: Vec<char> = Vec::new();
    for c in it: s.chars()
        invariant
            v@ == it.seq().take(it.index() as int),
            it.seq() == s@,
    {
        v.push(c);
    }
    v
}

/// Builds a `String` holding exactly the given characters
/// (`FromIterator<&char> for String`, which appends each character in turn).
#[verifier::external_body]
pub(crate) fn string_from_chars(v: &[char]) -> (s: String)
    ensures
        s@ == v@,
{
    v.iter().collect()
}

/// `std::str::from_utf8`: succeeds exactly on well-formed UTF-8, and the
/// resulting string holds the decoded scalar values.
#[verifier::external_body]
pub(crate) fn str_from_utf8(b: &[u8]) -> (r: Option<&str>)
    ensures
        r is Some <==> valid_utf8(b@),
        r matches Some(s) ==> s@ == decode_utf8(b@),
{
    std::str::from_utf8(b).ok()
}

/// What `str::to_lowercase` returns for a character sequence (Unicode
/// lowercase mapping of each character, with the final-sigma rule).
pub uninterp spec fn spec_lowercase(s: Seq<char>) -> Seq<char>;

/// `str::to_lowercase`. Its result is named by `spec_lowercase`; the Unicode
/// mapping tables are not restated here.
#[verifier::external_body]
pub(crate) fn to_lowercase(s: &str) -> (r: String)
    ensures
        r@ == spec_lowercase(s@),
{
    s.to_lowercase()
}

/// Whether two character slices are equal.
pub fn same_chars(a: &[char], b: &[char]) -> (r: bool)
    ensures
        r == (a@ == b@),
{
    let n = a.len();
    if n != b.len() {
        return false;
    }
    let mut i: usize = 0;
    while i < n
        invariant
            n == a@.len(),
            n == b@.len(),
            0 <= i <= n,
            forall|j: int| 0 <= j < i ==> a@[j] == b@[j],
        decreases n - i,
    {
        if a[i] != b[i] {
            return false;
        }
        i = i + 1;
    }
    assert(a@ =~= b@);
    true
}

/// Whether two string slices are equal (`==` on `&str`).
pub fn str_eq(a: &str, b: &str) -> (r: bool)
    ensures
        r == (a@ == b@),
{
    let x = chars_of(a);
    let y = chars_of(b);
    same_chars(x.as_slice(), y.as_slice())
}

/// Appends the characters `s[from..to]` to `out`.
pub fn push_range(out: &mut Vec<char>, s: &[char], from: usize, to: usize)
    requires
        from <= to <= s@.len(),
    ensures
        final(out)@ == old(out)@ + s@.subrange(from as int, to as int),
{
    let mut i: usize = from;
    while i < to
        invariant
            from <= i <= to <= s@.len(),
            out@ == old(out)@ + s@.subrange(from as int, i as int),
        decreases to - i,
    {
        out.push(s[i]);
        i = i + 1;
        assert(s@.subrange(from as int, i as int) =~= s@.subrange(from as int, i - 1) + seq![s@[i - 1]]);
    }
}

/// A vector holding the characters of `s`.
pub fn copy_chars(s: &[char]) -> (r: Vec<char>)
    ensures
        r@ == s@,
{
    let mut r: Vec<char> = Vec::new();
    push_all(&mut r, s);
    r
}

/// Appends all characters of `s` to `out`.
pub fn push_all(out: &mut Vec<char>, s: &[char])
    ensures
        final(out)@ == old(out)@ + s@,
{
    push_range(out, s, 0, s.len());
    assert(s@.subrange(0, s@.len() as int) =~= s@);
}

// ---------------------------------------------------------------------------
// Whitespace
// ---------------------------------------------------------------------------

/// The Unicode `White_Space` property, which `char::is_whitespace` tests.
pub open spec fn is_ws(c: char) -> bool {
    let u = c as u32;
    ||| 9 <= u <= 13
    ||| u == 32
    ||| u == 0x85
    ||| u == 0xA0
    ||| u == 0x1680
    ||| 0x2000 <= u <= 0x200A
    ||| u == 0x2028
    ||| u == 0x2029
    ||| u == 0x202F
    ||| u == 0x205F
    ||| u == 0x3000
}

/// Tests `is_ws`.
pub fn is_whitespace(c: char) -> (b: bool)
    ensures
        b == is_ws(c),
{
    let u = c as u32;
    (9 <= u && u <= 13) || u == 32 || u == 0x85 || u == 0xA0 || u == 0x1680 || (0x2000 <= u && u
        <= 0x200A) || u == 0x2028 || u == 0x2029 || u == 0x202F || u == 0x205F || u == 0x3000
}

/// Removes leading whitespace.
pub open spec fn trim_start(s: Seq<char>) -> Seq<char>
    decreases s.len(),
{
    if s.len() > 0 && is_ws(s[0]) {
        trim_start(s.drop_first())
    } else {
        s
    }
}

/// Removes trailing whitespace.
pub open spec fn trim_end(s: Seq<char>) -> Seq<char>
    decreases s.len(),
{
    if s.len() > 0 && is_ws(s.last()) {
        trim_end(s.drop_last())
    } else {
        s
    }
}

/// Removes leading and trailing whitespace (`str::trim`).
pub open spec fn trim(s: Seq<char>) -> Seq<char> {
    trim_end(trim_start(s))
}

proof fn lemma_trim_start_skip(s: Seq<char>, i: int)
    requires
        0 <= i <= s.len(),
        forall|j: int| 0 <= j < i ==> is_ws(#[trigger] s[j]),
    ensures
        trim_start(s) == trim_start(s.skip(i)),
    decreases i,
{
    if i > 0 {
        assert(s.skip(1) =~= s.drop_first());
        lemma_trim_start_skip(s.drop_first(), i - 1);
        assert(s.drop_first().skip(i - 1) =~= s.skip(i));
    } else {
        assert(s.skip(0) =~= s);
    }
}

proof fn lemma_trim_end_take(s: Seq<char>, n: int)
    requires
        0 <= n <= s.len(),
        forall|j: int| n <= j < s.len() ==> is_ws(#[trigger] s[j]),
    ensures
        trim_end(s) == trim_end(s.take(n)),
    decreases s.len() - n,
{
    if n < s.len() {
        assert(s.take(s.len() - 1) =~= s.drop_last());
        lemma_trim_end_take(s.drop_last(), n);
        assert(s.drop_last().take(n) =~= s.take(n));
    } else {
        assert(s.take(n) =~= s);
    }
}

/// `str::trim` on characters.
pub fn trim_chars(s: &[char]) -> (r: Vec<char>)
    ensures
        r@ == trim(s@),
{
    let mut a: usize = 0;
    while a < s.len() && is_whitespace(s[a])
        invariant
            a <= s@.len(),
            forall|j: int| 0 <= j < a ==> is_ws(#[trigger] s@[j]),
        decreases s@.len() - a,
    {
        a = a + 1;
    }
    proof {
        lemma_trim_start_skip(s@, a as int);
        if a < s@.len() {
            assert(s@.skip(a as int)[0] == s@[a as int]);
        }
        assert(trim_start(s@.skip(a as int)) == s@.skip(a as int));
    }
    let mut b: usize = s.len();
    while b > a && is_whitespace(s[b - 1])
        invariant
            a <= b <= s@.len(),
            forall|j: int| b <= j < s@.len() ==> is_ws(#[trigger] s@[j]),
        decreases b,
    {
        b = b - 1;
    }
    let ghost t = s@.skip(a as int);
    proof {
        assert forall|j: int| b - a <= j < t.len() implies is_ws(#[trigger] t[j]) by {
            assert(t[j] == s@[j + a]);
        }
        lemma_trim_end_take(t, b - a);
        if b > a {
            assert(t.take(b - a).last() == s@[b - 1]);
        }
        assert(trim_end(t.take(b - a)) == t.take(b - a));
    }
    let mut r: Vec<char> = Vec::new();
    let mut i: usize = a;
    while i < b
        invariant
            a <= i <= b <= s@.len(),
            r@ == s@.subrange(a as int, i as int),
        decreases b - i,
    {
        r.push(s[i]);
        i = i + 1;
        assert(r@ =~= s@.subrange(a as int, i as int));
    }
    assert(r@ =~= t.take(b - a));
    r
}

// ---------------------------------------------------------------------------
// Searching
// ---------------------------------------------------------------------------

/// `p` occurs in `s` starting at index `i`.
pub open spec fn matches_at(s: Seq<char>, p: Seq<char>, i: int) -> bool {
    0 <= i && i + p.len() <= s.len() && s.subrange(i, i + p.len()) == p
}

/// First occurrence of `p` in `s` at or after `i`.
pub open spec fn find_from(s: Seq<char>, p: Seq<char>, i: int) -> Option<int>
    decreases s.len() + 1 - i,
{
    if i < 0 || i + p.len() > s.len() {
        None
    } else if matches_at(s, p, i) {
        Some(i)
    } else {
        find_from(s, p, i + 1)
    }
}

/// First occurrence of `p` in `s` (`str::find`).
pub open spec fn first_match(s: Seq<char>, p: Seq<char>) -> Option<int> {
    find_from(s, p, 0)
}

/// `p` occurs in `s` (`str::contains`).
pub open spec fn has_sub(s: Seq<char>, p: Seq<char>) -> bool {
    first_match(s, p) is Some
}

/// `s` starts with `p`.
pub open spec fn starts_with(s: Seq<char>, p: Seq<char>) -> bool {
    p.len() <= s.len() && s.take(p.len() as int) == p
}

/// `s` ends with `p`.
pub open spec fn ends_with(s: Seq<char>, p: Seq<char>) -> bool {
    p.len() <= s.len() && s.skip(s.len() - p.len()) == p
}

/// The meaning of `find_from`: the least matching index at or after `i`.
pub proof fn lemma_find_from(s: Seq<char>, p: Seq<char>, i: int)
    requires
        0 <= i,
    ensures
        find_from(s, p, i) matches Some(k) ==> i <= k && matches_at(s, p, k) && forall|j: int|
            i <= j < k ==> !matches_at(s, p, j),
        find_from(s, p, i) is None ==> forall|j: int| i <= j ==> !matches_at(s, p, j),
    decreases s.len() + 1 - i,
{
    if i + p.len() > s.len() {
    } else if matches_at(s, p, i) {
    } else {
        lemma_find_from(s, p, i + 1);
    }
}

/// Whether `p` occurs in `s` at index `i`.
pub fn matches_at_exec(s: &[char], p: &[char], i: usize) -> (b: bool)
    ensures
        b == matches_at(s@, p@, i as int),
{
    let sl = s.len();
    if p.len() > sl || i > sl - p.len() {
        return false;
    }
    let mut k: usize = 0;
    while k < p.len()
        invariant
            k <= p@.len(),
            sl == s@.len(),
            i + p@.len() <= s@.len(),
            forall|j: int| 0 <= j < k ==> s@[i + j] == p@[j],
        decreases p@.len() - k,
    {
        if s[i + k] != p[k] {
            assert(s@.subrange(i as int, i + p@.len())[k as int] != p@[k as int]);
            return false;
        }
        k = k + 1;
    }
    assert(s@.subrange(i as int, i + p@.len()) =~= p@);
    true
}

/// `str::find`: the index of the first occurrence of `p` in `s`.
pub fn find(s: &[char], p: &[char]) -> (r: Option<usize>)
    ensures
        match r {
            Some(k) => first_match(s@, p@) == Some(k as int),
            None => first_match(s@, p@) is None,
        },
{
    if p.len() > s.len() {
        return None;
    }
    if p.len() == 0 {
        assert(s@.subrange(0, 0) =~= p@);
        return Some(0);
    }
    let sl = s.len();
    let mut i: usize = 0;
    while i <= sl - p.len()
        invariant
            sl == s@.len(),
            p@.len() > 0,
            p@.len() <= s@.len(),
            i <= s@.len() - p@.len() + 1,
            find_from(s@, p@, 0) == find_from(s@, p@, i as int),
        decreases s@.len() - p@.len() + 1 - i,
    {
        if matches_at_exec(s, p, i) {
            return Some(i);
        }
        i = i + 1;
    }
    None
}

/// `str::contains`.
pub fn contains(s: &[char], p: &[char]) -> (b: bool)
    ensures
        b == has_sub(s@, p@),
{
    find(s, p).is_some()
}

/// `str::contains` with a string-literal pattern.
pub fn contains_str(s: &[char], p: &str) -> (b: bool)
    ensures
        b == has_sub(s@, p@),
{
    let pv = chars_of(p);
    contains(s, &pv)
}

/// `str::starts_with`.
pub fn starts_with_exec(s: &[char], p: &[char]) -> (b: bool)
    ensures
        b == starts_with(s@, p@),
{
    let b = matches_at_exec(s, p, 0);
    proof {
        if p@.len() <= s@.len() {
            assert(s@.subrange(0, p@.len() as int) =~= s@.take(p@.len() as int));
        }
    }
    b
}

/// `str::ends_with`.
pub fn ends_with_exec(s: &[char], p: &[char]) -> (b: bool)
    ensures
        b == ends_with(s@, p@),
{
    if p.len() > s.len() {
        return false;
    }
    let b = matches_at_exec(s, p, s.len() - p.len());
    assert(s@.subrange(s@.len() - p@.len(), s@.len() as int) =~= s@.skip(s@.len() - p@.len()));
    b
}

// ---------------------------------------------------------------------------
// Replacing and removing
// ---------------------------------------------------------------------------

/// `str::replace(p, r)`: every non-overlapping occurrence of `p`, found from
/// the left, is replaced by `r`; an empty `p` matches before every character
/// and at the end.
pub open spec fn replace_all(s: Seq<char>, p: Seq<char>, r: Seq<char>) -> Seq<char>
    decreases s.len(),
{
    if p.len() == 0 {
        if s.len() == 0 {
            r
        } else {
            r + seq![s[0]] + replace_all(s.drop_first(), p, r)
        }
    } else if s.len() < p.len() {
        s
    } else if s.take(p.len() as int) == p {
        r + replace_all(s.skip(p.len() as int), p, r)
    } else {
        seq![s[0]] + replace_all(s.drop_first(), p, r)
    }
}

/// `str::replace`.
pub fn replace(s: &[char], p: &[char], r: &[char]) -> (out: Vec<char>)
    ensures
        out@ == replace_all(s@, p@, r@),
{
    let mut out: Vec<char> = Vec::new();
    let mut i: usize = 0;
    assert(s@.skip(0) =~= s@);
    if p.len() == 0 {
        while i < s.len()
            invariant
                i <= s@.len(),
                p@.len() == 0,
                out@ + replace_all(s@.skip(i as int), p@, r@) == replace_all(s@, p@, r@),
            decreases s@.len() - i,
        {
            let ghost rest = s@.skip(i as int);
            assert(rest.drop_first() =~= s@.skip(i + 1));
            push_all(&mut out, r);
            out.push(s[i]);
            i = i + 1;
            assert(out@ + replace_all(s@.skip(i as int), p@, r@) =~= replace_all(s@, p@, r@));
        }
        push_all(&mut out, r);
        assert(s@.skip(i as int) =~= Seq::<char>::empty());
        assert(out@ =~= replace_all(s@, p@, r@));
        return out;
    }
    assert(s@.skip(0) =~= s@);
    while i < s.len()
        invariant
            i <= s@.len(),
            p@.len() > 0,
            out@ + replace_all(s@.skip(i as int), p@, r@) == replace_all(s@, p@, r@),
        decreases s@.len() - i,
    {
        let ghost rest = s@.skip(i as int);
        if matches_at_exec(s, p, i) {
            assert(rest.take(p@.len() as int) =~= s@.subrange(i as int, i + p@.len()));
            assert(rest.skip(p@.len() as int) =~= s@.skip(i + p@.len()));
            push_all(&mut out, r);
            i = i + p.len();
        } else {
            if p.len() <= s.len() - i {
                assert(rest.take(p@.len() as int) =~= s@.subrange(i as int, i + p@.len()));
                assert(rest.drop_first() =~= s@.skip(i + 1));
                out.push(s[i]);
                i = i + 1;
            } else {
                assert(replace_all(rest, p@, r@) == rest);
                push_range(&mut out, s, i, s.len());
                assert(out@ =~= replace_all(s@, p@, r@));
                return out;
            }
        }
        assert(out@ + replace_all(s@.skip(i as int), p@, r@) =~= replace_all(s@, p@, r@));
    }
    assert(s@.skip(i as int) =~= Seq::<char>::empty());
    assert(out@ =~= replace_all(s@, p@, r@));
    out
}

/// `str::replace` with string-literal pattern and replacement.
pub fn replace_str(s: &[char], p: &str, r: &str) -> (out: Vec<char>)
    ensures
        out@ == replace_all(s@, p@, r@),
{
    let pv = chars_of(p);
    let rv = chars_of(r);
    replace(s, &pv, &rv)
}

/// Removes every character that occurs in `cs` (`String::retain`).
pub open spec fn remove_chars(s: Seq<char>, cs: Seq<char>) -> Seq<char> {
    s.filter(|c: char| !cs.contains(c))
}

/// Removes from `s` every character that occurs in `cs`.
pub fn remove_chars_exec(s: &[char], cs: &[char]) -> (r: Vec<char>)
    ensures
        r@ == remove_chars(s@, cs@),
{
    let mut r: Vec<char> = Vec::new();
    let mut i: usize = 0;
    while i < s.len()
        invariant
            i <= s@.len(),
            r@ == remove_chars(s@.take(i as int), cs@),
        decreases s@.len() - i,
    {
        let c = s[i];
        let mut found = false;
        let mut k: usize = 0;
        while k < cs.len()
            invariant
                k <= cs@.len(),
                found <==> exists|j: int| 0 <= j < k && cs@[j] == c,
            decreases cs@.len() - k,
        {
            if cs[k] == c {
                found = true;
            }
            k = k + 1;
        }
        proof {
            if found {
                let j = choose|j: int| 0 <= j < cs@.len() && cs@[j] == c;
                assert(cs@.contains(c));
            }
            assert(s@.take(i + 1).drop_last() =~= s@.take(i as int));
            reveal(Seq::filter);
        }
        if !found {
            r.push(c);
        }
        i = i + 1;
    }
    assert(s@.take(s@.len() as int) =~= s@);
    r
}

/// `str::trim_end_matches(p)`: removes trailing copies of `p` as long as
/// there are any (an empty `p` removes nothing).
pub open spec fn trim_end_matches(s: Seq<char>, p: Seq<char>) -> Seq<char>
    decreases s.len(),
{
    if p.len() > 0 && ends_with(s, p) {
        trim_end_matches(s.take(s.len() - p.len()), p)
    } else {
        s
    }
}

/// `str::trim_end_matches`.
pub fn trim_end_matches_exec(s: &[char], p: &[char]) -> (r: Vec<char>)
    ensures
        r@ == trim_end_matches(s@, p@),
{
    let mut n: usize = s.len();
    assert(s@.take(n as int) =~= s@);
    if p.len() > 0 {
        loop
            invariant
                n <= s@.len(),
                p@.len() > 0,
                trim_end_matches(s@, p@) == trim_end_matches(s@.take(n as int), p@),
            ensures
                n <= s@.len(),
                trim_end_matches(s@, p@) == s@.take(n as int),
            decreases n,
        {
            if p.len() <= n && matches_at_exec(s, p, n - p.len()) {
                let ghost t = s@.take(n as int);
                assert(t.skip(t.len() - p@.len()) =~= s@.subrange(n - p@.len(), n as int));
                assert(t.take(t.len() - p@.len()) =~= s@.take(n - p@.len()));
                n = n - p.len();
            } else {
                proof {
                    let t = s@.take(n as int);
                    if p@.len() <= n {
                        assert(t.skip(t.len() - p@.len()) =~= s@.subrange(n - p@.len(), n as int));
                    }
                    assert(!ends_with(t, p@));
                    assert(trim_end_matches(t, p@) == t);
                }
                break;
            }
        }
    }
    let mut r: Vec<char> = Vec::new();
    push_range(&mut r, s, 0, n);
    assert(s@.subrange(0, n as int) =~= s@.take(n as int));
    r
}

/// `str::trim_end_matches` with a string-literal pattern.
pub fn trim_end_matches_str(s: &[char], p: &str) -> (r: Vec<char>)
    ensures
        r@ == trim_end_matches(s@, p@),
{
    let pv = chars_of(p);
    trim_end_matches_exec(s, &pv)
}

// ---------------------------------------------------------------------------
// Splitting
// ---------------------------------------------------------------------------

/// Words of `s` (`str::split_whitespace`), where `cur` is the word being read.
pub open spec fn words_acc(s: Seq<char>, cur: Seq<char>) -> Seq<Seq<char>>
    decreases s.len(),
{
    if s.len() == 0 {
        if cur.len() == 0 {
            seq![]
        } else {
            seq![cur]
        }
    } else if is_ws(s[0]) {
        if cur.len() == 0 {
            words_acc(s.drop_first(), seq![])
        } else {
            seq![cur] + words_acc(s.drop_first(), seq![])
        }
    } else {
        words_acc(s.drop_first(), cur.push(s[0]))
    }
}

/// The maximal runs of non-whitespace characters of `s`, in order
/// (`str::split_whitespace`).
pub open spec fn words(s: Seq<char>) -> Seq<Seq<char>> {
    words_acc(s, seq![])
}

/// The character vectors of a vector of character vectors.
pub open spec fn views(v: Seq<Vec<char>>) -> Seq<Seq<char>> {
    v.map_values(|w: Vec<char>| w@)
}

/// `str::split_whitespace`, collected.
pub fn split_whitespace(s: &[char]) -> (r: Vec<Vec<char>>)
    ensures
        views(r@) == words(s@),
{
    let mut r: Vec<Vec<char>> = Vec::new();
    let mut cur: Vec<char> = Vec::new();
    let mut i: usize = 0;
    assert(s@.skip(0) =~= s@);
    while i < s.len()
        invariant
            i <= s@.len(),
            views(r@) + words_acc(s@.skip(i as int), cur@) == words(s@),
        decreases s@.len() - i,
    {
        let ghost rest = s@.skip(i as int);
        assert(rest.drop_first() =~= s@.skip(i + 1));
        assert(rest[0] == s@[i as int]);
        if is_whitespace(s[i]) {
            if cur.len() > 0 {
                let ghost old_r = r@;
                let w = cur;
                r.push(w);
                cur = Vec::new();
                assert(views(r@) =~= views(old_r) + seq![w@]);
            } else {
                assert(cur@ =~= Seq::<char>::empty());
            }
        } else {
            cur.push(s[i]);
        }
        i = i + 1;
        assert(views(r@) + words_acc(s@.skip(i as int), cur@) =~= words(s@));
    }
    if cur.len() > 0 {
        let ghost old_r = r@;
        let w = cur;
        r.push(w);
        assert(views(r@) =~= views(old_r) + seq![w@]);
    }
    assert(s@.skip(i as int) =~= Seq::<char>::empty());
    assert(views(r@) =~= words(s@));
    r
}

/// Pieces of `s` between occurrences of `c` (`str::split(c)`), where `cur`
/// is the piece being read.
pub open spec fn split_acc(s: Seq<char>, c: char, cur: Seq<char>) -> Seq<Seq<char>>
    decreases s.len(),
{
    if s.len() == 0 {
        seq![cur]
    } else if s[0] == c {
        seq![cur] + split_acc(s.drop_first(), c, seq![])
    } else {
        split_acc(s.drop_first(), c, cur.push(s[0]))
    }
}

/// `str::split(c)`: the pieces between occurrences of `c`, empty ones included.
pub open spec fn split_on(s: Seq<char>, c: char) -> Seq<Seq<char>> {
    split_acc(s, c, seq![])
}

/// `str::split(c)`, collected.
pub fn split_char(s: &[char], c: char) -> (r: Vec<Vec<char>>)
    ensures
        views(r@) == split_on(s@, c),
{
    let mut r: Vec<Vec<char>> = Vec::new();
    let mut cur: Vec<char> = Vec::new();
    let mut i: usize = 0;
    assert(s@.skip(0) =~= s@);
    while i < s.len()
        invariant
            i <= s@.len(),
            views(r@) + split_acc(s@.skip(i as int), c, cur@) == split_on(s@, c),
        decreases s@.len() - i,
    {
        let ghost rest = s@.skip(i as int);
        assert(rest.drop_first() =~= s@.skip(i + 1));
        assert(rest[0] == s@[i as int]);
        if s[i] == c {
            let ghost old_r = r@;
            let w = cur;
            r.push(w);
            cur = Vec::new();
            assert(views(r@) =~= views(old_r) + seq![w@]);
        } else {
            cur.push(s[i]);
        }
        i = i + 1;
        assert(views(r@) + split_acc(s@.skip(i as int), c, cur@) =~= split_on(s@, c));
    }
    let ghost old_r = r@;
    let w = cur;
    r.push(w);
    assert(views(r@) =~= views(old_r) + seq![w@]);
    assert(s@.skip(i as int) =~= Seq::<char>::empty());
    assert(views(r@) =~= split_on(s@, c));
    r
}

/// A line as `BufRead::lines` yields it: a trailing carriage return before
/// the line feed is dropped.
pub open spec fn strip_cr(l: Seq<char>) -> Seq<char> {
    if l.len() > 0 && l.last() == '\r' {
        l.drop_last()
    } else {
        l
    }
}

/// Lines of `s`, where `cur` is the line being read.
pub open spec fn lines_acc(s: Seq<char>, cur: Seq<char>) -> Seq<Seq<char>>
    decreases s.len(),
{
    if s.len() == 0 {
        if cur.len() == 0 {
            seq![]
        } else {
            seq![cur]
        }
    } else if s[0] == '\n' {
        seq![strip_cr(cur)] + lines_acc(s.drop_first(), seq![])
    } else {
        lines_acc(s.drop_first(), cur.push(s[0]))
    }
}

/// The lines of a text as `BufRead::lines` yields them: split at `'\n'`, a
/// `'\r'` right before the `'\n'` dropped, and no line after a final `'\n'`.
pub open spec fn lines(s: Seq<char>) -> Seq<Seq<char>> {
    lines_acc(s, seq![])
}

proof fn lemma_lines_acc_no_line_feed(s: Seq<char>, cur: Seq<char>)
    requires
        !cur.contains('\n'),
    ensures
        forall|k: int| 0 <= k < lines_acc(s, cur).len() ==> !(#[trigger] lines_acc(s, cur)[k]).contains('\n'),
    decreases s.len(),
{
    if s.len() == 0 {
        if cur.len() > 0 {
            assert(lines_acc(s, cur) =~= seq![cur]);
        }
    } else if s[0] == '\n' {
        lemma_lines_acc_no_line_feed(s.drop_first(), seq![]);
        let first = strip_cr(cur);
        assert(!first.contains('\n')) by {
            if first.contains('\n') {
                let i = choose|i: int| 0 <= i < first.len() && first[i] == '\n';
                assert(cur[i] == '\n');
            }
        }
        let rest = lines_acc(s.drop_first(), seq![]);
        assert forall|k: int| 0 <= k < lines_acc(s, cur).len() implies !(#[trigger] lines_acc(s, cur)[k]).contains('\n') by {
            assert(lines_acc(s, cur) == seq![first] + rest);
            if k > 0 {
                assert(lines_acc(s, cur)[k] == rest[k - 1]);
            } else {
                assert(lines_acc(s, cur)[k] == first);
            }
        }
    } else {
        assert(!cur.push(s[0]).contains('\n')) by {
            if cur.push(s[0]).contains('\n') {
                let i = choose|i: int| 0 <= i < cur.push(s[0]).len() && cur.push(s[0])[i] == '\n';
                if i < cur.len() {
                    assert(cur[i] == '\n');
                }
            }
        }
        lemma_lines_acc_no_line_feed(s.drop_first(), cur.push(s[0]));
        assert(lines_acc(s, cur) == lines_acc(s.drop_first(), cur.push(s[0])));
    }
}

/// No line of a text holds a line feed.
pub proof fn lemma_lines_have_no_line_feed(s: Seq<char>)
    ensures
        forall|k: int| 0 <= k < lines(s).len() ==> !(#[trigger] lines(s)[k]).contains('\n'),
{
    lemma_lines_acc_no_line_feed(s, seq![]);
}

/// `BufRead::lines` over an in-memory text, collected.
pub fn split_lines(s: &[char]) -> (r: Vec<Vec<char>>)
    ensures
        views(r@) == lines(s@),
{
    let mut r: Vec<Vec<char>> = Vec::new();
    let mut cur: Vec<char> = Vec::new();
    let mut i: usize = 0;
    assert(s@.skip(0) =~= s@);
    while i < s.len()
        invariant
            i <= s@.len(),
            views(r@) + lines_acc(s@.skip(i as int), cur@) == lines(s@),
        decreases s@.len() - i,
    {
        let ghost rest = s@.skip(i as int);
        assert(rest.drop_first() =~= s@.skip(i + 1));
        assert(rest[0] == s@[i as int]);
        if s[i] == '\n' {
            let ghost old_r = r@;
            let ghost old_cur = cur@;
            let n = cur.len();
            if n > 0 && cur[n - 1] == '\r' {
                cur.pop();
                assert(cur@ =~= old_cur.drop_last());
            }
            let w = cur;
            r.push(w);
            cur = Vec::new();
            assert(views(r@) =~= views(old_r) + seq![strip_cr(old_cur)]);
        } else {
            cur.push(s[i]);
        }
        i = i + 1;
        assert(views(r@) + lines_acc(s@.skip(i as int), cur@) =~= lines(s@));
    }
    if cur.len() > 0 {
        let ghost old_r = r@;
        let w = cur;
        r.push(w);
        assert(views(r@) =~= views(old_r) + seq![w@]);
    }
    assert(s@.skip(i as int) =~= Seq::<char>::empty());
    assert(views(r@) =~= lines(s@));
    r
}

// ---------------------------------------------------------------------------
// Decimal numbers
// ---------------------------------------------------------------------------

/// An ASCII decimal digit (the only digits that `str::parse` accepts).
pub open spec fn is_digit(c: char) -> bool {
    '0' <= c && c <= '9'
}

/// All characters are ASCII decimal digits.
pub open spec fn all_digits(d: Seq<char>) -> bool {
    forall|i: int| 0 <= i < d.len() ==> is_digit(#[trigger] d[i])
}

/// The value of a string of decimal digits.
pub open spec fn digits_value(d: Seq<char>) -> nat
    decreases d.len(),
{
    if d.len() == 0 {
        0
    } else {
        digits_value(d.drop_last()) * 10 + ((d.last() as u32) - ('0' as u32)) as nat
    }
}

/// `str::parse` for an unsigned type whose largest value is `max`: an
/// optional `'+'`, then one or more digits whose value is at most `max`.
pub open spec fn parse_unsigned(s: Seq<char>, max: nat) -> Option<nat> {
    let d = if s.len() > 0 && s[0] == '+' {
        s.drop_first()
    } else {
        s
    };
    if d.len() > 0 && all_digits(d) && digits_value(d) <= max {
        Some(digits_value(d))
    } else {
        None
    }
}

/// `str::parse::<i32>`: an optional `'+'` or `'-'`, then one or more digits
/// whose signed value lies in the range of `i32`.
pub open spec fn parse_i32(s: Seq<char>) -> Option<int> {
    if s.len() > 0 && s[0] == '-' {
        let d = s.drop_first();
        if d.len() > 0 && all_digits(d) && digits_value(d) <= 0x8000_0000 {
            Some(-(digits_value(d) as int))
        } else {
            None
        }
    } else {
        match parse_unsigned(s, 0x7fff_ffff) {
            Some(v) => Some(v as int),
            None => None,
        }
    }
}

proof fn lemma_digits_value_grows(d: Seq<char>, n: int)
    requires
        0 <= n <= d.len(),
    ensures
        digits_value(d.take(n)) <= digits_value(d),
    decreases d.len() - n,
{
    if n < d.len() {
        lemma_digits_value_grows(d, n + 1);
        assert(d.take(n + 1).drop_last() =~= d.take(n));
    } else {
        assert(d.take(n) =~= d);
    }
}

/// Reads the digits `d[from..]` into a value no greater than `max`, or
/// `None` when some character is not a digit, there are no digits, or the
/// value exceeds `max`.
fn digits_at_most(d: &[char], from: usize, max: u64) -> (r: Option<u64>)
    requires
        from <= d@.len(),
    ensures
        ({
            let t = d@.skip(from as int);
            match r {
                Some(v) => t.len() > 0 && all_digits(t) && digits_value(t) <= max && v
                    == digits_value(t),
                None => !(t.len() > 0 && all_digits(t) && digits_value(t) <= max),
            }
        }),
{
    let ghost t = d@.skip(from as int);
    let dl = d.len();
    if from == dl {
        return None;
    }
    let mut v: u64 = 0;
    let mut i: usize = from;
    assert(t.take(0) =~= Seq::<char>::empty());
    while i < dl
        invariant
            dl == d@.len(),
            from <= i <= dl,
            t == d@.skip(from as int),
            all_digits(t.take(i - from)),
            v == digits_value(t.take(i - from)),
            v <= max,
        decreases dl - i,
    {
        let c = d[i];
        assert(t[i - from] == c);
        if !('0' <= c && c <= '9') {
            assert(!all_digits(t));
            return None;
        }
        let dv = (c as u32 - '0' as u32) as u64;
        assert(t.take(i - from + 1).drop_last() =~= t.take(i - from));
        if dv > max || v > (max - dv) / 10 {
            proof {
                assert(v * 10 + dv > max) by (nonlinear_arith)
                    requires
                        dv > max || v > (max - dv) / 10,
                        dv <= 9,
                ;
                lemma_digits_value_grows(t, i - from + 1);
            }
            return None;
        }
        proof {
            assert(v * 10 + dv <= max) by (nonlinear_arith)
                requires
                    v <= (max - dv) / 10,
                    dv <= max,
            ;
        }
        v = v * 10 + dv;
        i = i + 1;
        assert(all_digits(t.take(i - from)));
    }
    assert(t.take(i - from) =~= t);
    Some(v)
}

/// `str::parse` for an unsigned type whose largest value is `max`.
pub fn parse_unsigned_exec(s: &[char], max: u64) -> (r: Option<u64>)
    ensures
        match r {
            Some(v) => parse_unsigned(s@, max as nat) == Some(v as nat),
            None => parse_unsigned(s@, max as nat) is None,
        },
{
    let from: usize = if s.len() > 0 && s[0] == '+' {
        1
    } else {
        0
    };
    assert(s@.skip(1) =~= s@.drop_first());
    assert(s@.skip(0) =~= s@);
    digits_at_most(s, from, max)
}

/// `str::parse::<i32>`.
pub fn parse_i32_exec(s: &[char]) -> (r: Option<i32>)
    ensures
        match r {
            Some(v) => parse_i32(s@) == Some(v as int),
            None => parse_i32(s@) is None,
        },
{
    if s.len() > 0 && s[0] == '-' {
        assert(s@.skip(1) =~= s@.drop_first());
        match digits_at_most(s, 1, 0x8000_0000) {
            Some(v) => {
                let w: i64 = 0 - (v as i64);
                Some(w as i32)
            },
            None => None,
        }
    } else {
        match parse_unsigned_exec(s, 0x7fff_ffff) {
            Some(v) => Some(v as i32),
            None => None,
        }
    }
}

} // verus!
