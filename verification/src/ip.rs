//! IP addresses: their order, the addresses a router reports as in use, and
//! the management addresses and segments that are still free.
use vstd::prelude::*;
use vstd::utf8::{valid_utf8, decode_utf8};
use crate::text::{
    chars_of, find, first_match, lemma_find_from, parse_i32, parse_unsigned, parse_unsigned_exec, split_char,
    split_on, split_whitespace, views, words,
};
use crate::launcher::strs;

verus! {

// ---------------------------------------------------------------------------
// Order of addresses
// ---------------------------------------------------------------------------

/// The octets of the dot-separated pieces that parse as `u8`; the others are
/// skipped.
pub open spec fn octets_of(pieces: Seq<Seq<char>>) -> Seq<u8>
    decreases pieces.len(),
{
    if pieces.len() == 0 {
        seq![]
    } else {
        match parse_unsigned(pieces.last(), 255) {
            Some(v) => octets_of(pieces.drop_last()).push(v as u8),
            None => octets_of(pieces.drop_last()),
        }
    }
}

/// The octets of an address (`split('.')`, each piece parsed as `u8`).
pub open spec fn octets(s: Seq<char>) -> Seq<u8> {
    octets_of(split_on(s, '.'))
}

/// Compares two octet lists on their common length: the first differing
/// octet decides (-1: less, 1: greater); 0 when one is a prefix of the other.
pub open spec fn octet_order(a: Seq<u8>, b: Seq<u8>) -> int
    decreases a.len(),
{
    if a.len() == 0 || b.len() == 0 {
        0
    } else if a[0] < b[0] {
        -1
    } else if a[0] > b[0] {
        1
    } else {
        octet_order(a.drop_first(), b.drop_first())
    }
}

/// The order in which addresses are sorted.
pub open spec fn ip_order(a: Seq<char>, b: Seq<char>) -> int {
    octet_order(octets(a), octets(b))
}

/// Swapping the operands negates the comparison.
pub proof fn lemma_octet_order_antisymmetric(a: Seq<u8>, b: Seq<u8>)
    ensures
        octet_order(a, b) == -octet_order(b, a),
        -1 <= octet_order(a, b) <= 1,
    decreases a.len(),
{
    if a.len() > 0 && b.len() > 0 && a[0] == b[0] {
        lemma_octet_order_antisymmetric(a.drop_first(), b.drop_first());
    }
}

/// On octet lists of one length the comparison is the lexicographic order,
/// and so transitive.
pub proof fn lemma_octet_order_transitive(a: Seq<u8>, b: Seq<u8>, c: Seq<u8>)
    requires
        a.len() == b.len(),
        b.len() == c.len(),
        octet_order(a, b) <= 0,
        octet_order(b, c) <= 0,
    ensures
        octet_order(a, c) <= 0,
        octet_order(a, b) == 0 && octet_order(b, c) == 0 ==> octet_order(a, c) == 0,
        octet_order(a, b) < 0 || octet_order(b, c) < 0 ==> octet_order(a, c) < 0,
    decreases a.len(),
{
    if a.len() > 0 && a[0] == b[0] && b[0] == c[0] {
        lemma_octet_order_transitive(a.drop_first(), b.drop_first(), c.drop_first());
    }
}

/// The octets of an address.
pub fn octets_exec(s: &str) -> (r: Vec<u8>)
    ensures
        r@ == octets(s@),
{
    let c = chars_of(s);
    let pieces = split_char(c.as_slice(), '.');
    let mut r: Vec<u8> = Vec::new();
    let mut i: usize = 0;
    assert(views(pieces@).take(0) =~= Seq::<Seq<char>>::empty());
    while i < pieces.len()
        invariant
            i <= pieces@.len(),
            r@ == octets_of(views(pieces@).take(i as int)),
        decreases pieces@.len() - i,
    {
        assert(views(pieces@).take(i + 1).drop_last() =~= views(pieces@).take(i as int));
        assert(views(pieces@).take(i + 1).last() == pieces@[i as int]@);
        match parse_unsigned_exec(pieces[i].as_slice(), 255) {
            Some(v) => {
                r.push(v as u8);
            },
            None => {},
        }
        i = i + 1;
    }
    assert(views(pieces@).take(pieces@.len() as int) =~= views(pieces@));
    r
}

fn octet_order_exec(a: &Vec<u8>, b: &Vec<u8>) -> (r: i8)
    ensures
        r as int == octet_order(a@, b@),
{
    let mut i: usize = 0;
    assert(a@.skip(0) =~= a@);
    assert(b@.skip(0) =~= b@);
    while i < a.len() && i < b.len()
        invariant
            i <= a@.len(),
            i <= b@.len(),
            octet_order(a@, b@) == octet_order(a@.skip(i as int), b@.skip(i as int)),
        decreases a@.len() - i,
    {
        assert(a@.skip(i as int)[0] == a@[i as int]);
        assert(b@.skip(i as int)[0] == b@[i as int]);
        if a[i] < b[i] {
            return -1;
        }
        if a[i] > b[i] {
            return 1;
        }
        assert(a@.skip(i as int).drop_first() =~= a@.skip(i + 1));
        assert(b@.skip(i as int).drop_first() =~= b@.skip(i + 1));
        i = i + 1;
    }
    0
}

/// `p` lists the positions `0..n`, each once.
pub open spec fn is_permutation(p: Seq<int>, n: nat) -> bool {
    &&& p.len() == n
    &&& forall|k: int| 0 <= k < n ==> 0 <= #[trigger] p[k] < n
    &&& forall|k: int, l: int| 0 <= k < l < n ==> #[trigger] p[k] != #[trigger] p[l]
}

/// `out` is a reordering of `input` that is sorted between neighbours and
/// stable: `p[k]` is the position in `input` of `out[k]`, and addresses that
/// compare equal keep their order.
pub open spec fn sorted_stable_reordering(input: Seq<Seq<char>>, out: Seq<Seq<char>>, p: Seq<int>) -> bool {
    &&& is_permutation(p, input.len())
    &&& out.len() == input.len()
    &&& forall|k: int| 0 <= k < out.len() ==> #[trigger] out[k] == input[p[k]]
    &&& forall|k: int| 0 <= k < out.len() - 1 ==> ip_order(#[trigger] out[k], out[k + 1]) <= 0
    &&& forall|k: int, l: int|
        0 <= k < l < out.len() && ip_order(#[trigger] out[k], #[trigger] out[l]) == 0 ==> p[k] < p[l]
}

/// Sorts addresses by their octets (a stable sort: addresses that compare
/// equal keep their order).
#[verifier::spinoff_prover]
#[verifier::rlimit(60)]
pub fn sort_ip_addresses(ip_addresses: Vec<String>) -> (r: Vec<String>)
    ensures
        exists|p: Seq<int>| sorted_stable_reordering(strs(ip_addresses@), strs(r@), p),
        r@.to_multiset() == ip_addresses@.to_multiset(),
{
    let ghost input = strs(ip_addresses@);
    let ghost orig = ip_addresses@;
    let n = ip_addresses.len();
    let mut rest = ip_addresses;
    let mut out: Vec<String> = Vec::new();
    let mut keys: Vec<Vec<u8>> = Vec::new();
    let ghost mut p: Seq<int> = Seq::empty();
    let mut i: usize = 0;
    proof {
        broadcast use vstd::multiset::group_multiset_axioms, vstd::seq_lib::group_to_multiset_ensures;

        assert(rest@ =~= orig.skip(0));
        assert(out@.to_multiset().add(rest@.to_multiset()) =~= orig.to_multiset());
    }
    while i < n
        invariant
            n == orig.len(),
            input == strs(orig),
            i <= n,
            rest@ == orig.skip(i as int),
            out@.to_multiset().add(rest@.to_multiset()) == orig.to_multiset(),
            out@.len() == i,
            keys@.len() == i,
            p.len() == i,
            forall|k: int| 0 <= k < i ==> (#[trigger] keys@[k])@ == octets(out@[k]@),
            forall|k: int| 0 <= k < i ==> 0 <= #[trigger] p[k] < i,
            forall|k: int, l: int| 0 <= k < l < i ==> #[trigger] p[k] != #[trigger] p[l],
            forall|k: int| 0 <= k < i ==> #[trigger] out@[k] == orig[p[k]],
            forall|k: int| 0 <= k < i - 1 ==> ip_order(#[trigger] out@[k]@, out@[k + 1]@) <= 0,
            forall|k: int, l: int|
                0 <= k < l < i && ip_order(#[trigger] out@[k]@, #[trigger] out@[l]@) == 0 ==> p[k]
                    < p[l],
        decreases n - i,
    {
        assert(rest@[0] == orig[i as int]);
        let ghost old_rest = rest@;
        let x = rest.remove(0);
        assert(rest@ =~= orig.skip(i + 1));

        let kx = octets_exec(x.as_str());
        let mut j: usize = out.len();
        while j > 0 && octet_order_exec(&keys[j - 1], &kx) > 0
            invariant
                j <= out@.len(),
                out@.len() == i,
                keys@.len() == i,
                forall|k: int| 0 <= k < i ==> (#[trigger] keys@[k])@ == octets(out@[k]@),
                kx@ == octets(x@),
                forall|m: int| j <= m < i ==> ip_order(#[trigger] out@[m]@, x@) > 0,
            decreases j,
        {
            j = j - 1;
        }
        let ghost old_out = out@;
        let ghost old_p = p;
        proof {
            assert forall|m: int| j <= m < i implies ip_order(x@, #[trigger] old_out[m]@) < 0 by {
                lemma_octet_order_antisymmetric(octets(x@), octets(old_out[m]@));
            }
            if j > 0 {
                assert(ip_order(old_out[j - 1]@, x@) <= 0);
            }
        }
        out.insert(j, x);
        keys.insert(j, kx);
        proof {
            lemma_move_keeps_multiset(old_out, old_rest, j as int, orig);
            assert(out@ == old_out.insert(j as int, x));
            assert(rest@ == old_rest.remove(0));
            p = old_p.insert(j as int, i as int);
            assert forall|k: int| 0 <= k < i + 1 implies #[trigger] out@[k] == orig[p[k]] by {
                if k < j {
                } else if k == j {
                } else {
                    assert(out@[k] == old_out[k - 1]);
                }
            }
            assert forall|k: int| 0 <= k < i + 1 - 1 implies ip_order(
                #[trigger] out@[k]@,
                out@[k + 1]@,
            ) <= 0 by {
                if k + 1 < j {
                    assert(out@[k] == old_out[k] && out@[k + 1] == old_out[k + 1]);
                } else if k + 1 == j {
                    assert(out@[k] == old_out[k]);
                } else if k == j {
                    assert(out@[k + 1] == old_out[k]);
                } else {
                    assert(out@[k] == old_out[k - 1] && out@[k + 1] == old_out[k]);
                }
            }
            assert forall|k: int, l: int|
                0 <= k < l < i + 1 && ip_order(#[trigger] out@[k]@, #[trigger] out@[l]@) == 0 implies p[k]
                < p[l] by {
                if l < j {
                    assert(out@[k] == old_out[k] && out@[l] == old_out[l]);
                } else if l == j {
                    assert(out@[k] == old_out[k]);
                } else if k == j {
                    assert(out@[l] == old_out[l - 1]);
                    assert(ip_order(x@, old_out[l - 1]@) < 0);
                } else if k < j {
                    assert(out@[k] == old_out[k] && out@[l] == old_out[l - 1]);
                } else {
                    assert(out@[k] == old_out[k - 1] && out@[l] == old_out[l - 1]);
                }
            }
            assert forall|k: int| 0 <= k < i + 1 implies (#[trigger] keys@[k])@ == octets(
                out@[k]@,
            ) by {
                if k > j {
                    assert(out@[k] == old_out[k - 1]);
                }
            }
        }
        i = i + 1;
    }
    proof {
        broadcast use vstd::multiset::group_multiset_axioms, vstd::seq_lib::group_to_multiset_ensures;

        assert(sorted_stable_reordering(input, strs(out@), p));
        assert(rest@ =~= Seq::<String>::empty());
        assert(out@.to_multiset() =~= orig.to_multiset());
    }
    out
}

/// Sorting addresses that all have the same number of octets orders every
/// two of them, not only neighbours: an earlier address never compares
/// greater than a later one.
pub proof fn lemma_sorted_addresses_ordered(input: Seq<Seq<char>>, out: Seq<Seq<char>>, p: Seq<int>)
    requires
        sorted_stable_reordering(input, out, p),
        forall|a: int, b: int|
            0 <= a < input.len() && 0 <= b < input.len() ==> octets(#[trigger] input[a]).len()
                == octets(#[trigger] input[b]).len(),
    ensures
        forall|k: int, l: int|
            0 <= k <= l < out.len() ==> ip_order(#[trigger] out[k], #[trigger] out[l]) <= 0,
{
    assert forall|k: int, l: int| 0 <= k <= l < out.len() implies ip_order(
        #[trigger] out[k],
        #[trigger] out[l],
    ) <= 0 by {
        lemma_sorted_from(input, out, p, k, l);
    }
}

proof fn lemma_sorted_from(input: Seq<Seq<char>>, out: Seq<Seq<char>>, p: Seq<int>, k: int, l: int)
    requires
        sorted_stable_reordering(input, out, p),
        forall|a: int, b: int|
            0 <= a < input.len() && 0 <= b < input.len() ==> octets(#[trigger] input[a]).len()
                == octets(#[trigger] input[b]).len(),
        0 <= k <= l < out.len(),
    ensures
        ip_order(out[k], out[l]) <= 0,
    decreases l - k,
{
    if k == l {
        lemma_octet_order_antisymmetric(octets(out[k]), octets(out[k]));
    } else {
        lemma_sorted_from(input, out, p, k, l - 1);
        assert(ip_order(out[l - 1], out[l]) <= 0);
        assert(out[k] == input[p[k]]);
        assert(out[l - 1] == input[p[l - 1]]);
        assert(out[l] == input[p[l]]);
        assert(octets(input[p[k]]).len() == octets(input[p[l - 1]]).len());
        assert(octets(input[p[l - 1]]).len() == octets(input[p[l]]).len());
        lemma_octet_order_transitive(octets(out[k]), octets(out[l - 1]), octets(out[l]));
    }
}

// ---------------------------------------------------------------------------
// Decimal text of numbers
// ---------------------------------------------------------------------------

/// The ASCII digit of `d` (`0 <= d < 10`).
pub open spec fn digit_char(d: nat) -> char {
    (48 + d) as char
}

/// The decimal text of a natural number, as `Display` writes it.
pub open spec fn decimal(n: nat) -> Seq<char>
    decreases n,
{
    if n < 10 {
        seq![digit_char(n)]
    } else {
        decimal(n / 10).push(digit_char(n % 10))
    }
}

/// The decimal text of an integer, as `Display` writes it.
pub open spec fn signed_decimal(v: int) -> Seq<char> {
    if v < 0 {
        seq!['-'] + decimal((-v) as nat)
    } else {
        decimal(v as nat)
    }
}

fn digit_exec(d: u64) -> (c: char)
    requires
        d < 10,
    ensures
        c == digit_char(d as nat),
{
    if d == 0 {
        '0'
    } else if d == 1 {
        '1'
    } else if d == 2 {
        '2'
    } else if d == 3 {
        '3'
    } else if d == 4 {
        '4'
    } else if d == 5 {
        '5'
    } else if d == 6 {
        '6'
    } else if d == 7 {
        '7'
    } else if d == 8 {
        '8'
    } else {
        '9'
    }
}

/// Writes the decimal text of `n`.
pub fn decimal_exec(n: u64) -> (r: Vec<char>)
    ensures
        r@ == decimal(n as nat),
    decreases n,
{
    let c = digit_exec(n % 10);
    if n < 10 {
        let mut r: Vec<char> = Vec::new();
        r.push(c);
        assert(r@ =~= decimal(n as nat));
        r
    } else {
        let mut r = decimal_exec(n / 10);
        r.push(c);
        r
    }
}

/// Writes the decimal text of `v`.
pub fn signed_decimal_exec(v: i64) -> (r: Vec<char>)
    requires
        v > i64::MIN,
    ensures
        r@ == signed_decimal(v as int),
{
    if v < 0 {
        let mut r: Vec<char> = Vec::new();
        r.push('-');
        let d = decimal_exec((0 - v) as u64);
        crate::text::push_all(&mut r, d.as_slice());
        assert(r@ =~= signed_decimal(v as int));
        r
    } else {
        decimal_exec(v as u64)
    }
}

// ---------------------------------------------------------------------------
// Addresses in use, from a router's terse route listing
// ---------------------------------------------------------------------------

/// What `format!("\n{:?}", std::str::from_utf8(b))` writes for a line of
/// bytes: a line feed, then `Ok("…")` with the text escaped as `Debug`
/// escapes it, or the `Err(Utf8Error { … })` record.
pub uninterp spec fn spec_debug_utf8_line(b: Seq<u8>) -> Seq<char>;

/// `format!("\n{:?}", std::str::from_utf8(b))`; the `Debug` escaping rules
/// of `str` and `Utf8Error` are not restated, the result is named by
/// `spec_debug_utf8_line`.
#[verifier::external_body]
fn debug_utf8_line(b: &[u8]) -> (r: Vec<char>)
    ensures
        r@ == spec_debug_utf8_line(b@),
{
    format!("\n{:?}", std::str::from_utf8(b)).chars().collect()
}

/// The index of the first line feed in `b`, at or after `i`.
pub open spec fn newline_from(b: Seq<u8>, i: int) -> Option<int>
    decreases b.len() - i,
{
    if i < 0 || i >= b.len() {
        None
    } else if b[i] == 10 {
        Some(i)
    } else {
        newline_from(b, i + 1)
    }
}

/// After one chunk: the buffer grows by the chunk; when it holds a line
/// feed, the bytes before the first one become an entry (in their `Debug`
/// form) and are taken out together with the line feed.
pub open spec fn after_chunk(buf: Seq<u8>, chunk: Seq<u8>) -> (Seq<u8>, Option<Seq<char>>) {
    let b = buf + chunk;
    match newline_from(b, 0) {
        Some(p) => (b.skip(p + 1), Some(spec_debug_utf8_line(b.take(p)))),
        None => (b, None),
    }
}

/// The buffer left and the entries taken while reading `chunks` in order.
pub open spec fn read_chunks(chunks: Seq<Seq<u8>>) -> (Seq<u8>, Seq<Seq<char>>)
    decreases chunks.len(),
{
    if chunks.len() == 0 {
        (seq![], seq![])
    } else {
        let (buf, entries) = read_chunks(chunks.drop_last());
        let (buf2, e) = after_chunk(buf, chunks.last());
        (
            buf2,
            match e {
                Some(x) => entries.push(x),
                None => entries,
            },
        )
    }
}

/// The entries of a route listing read as `chunks`: one per chunk that
/// completed a line, then the lines of what is left, or `None` when what is
/// left is not well-formed UTF-8.
pub open spec fn route_entries(chunks: Seq<Seq<u8>>) -> Option<Seq<Seq<char>>> {
    let (rest, entries) = read_chunks(chunks);
    if valid_utf8(rest) {
        Some(entries + crate::text::lines(decode_utf8(rest)))
    } else {
        None
    }
}

/// The piece of `e` between the first and the second occurrence of `pat`
/// (`e.split(pat).nth(1)`); an empty `pat` gives the first character.
pub open spec fn second_piece(e: Seq<char>, pat: Seq<char>) -> Option<Seq<char>> {
    if pat.len() == 0 {
        if e.len() == 0 {
            Some(seq![])
        } else {
            Some(e.take(1))
        }
    } else {
        match first_match(e, pat) {
            None => None,
            Some(k) => {
                let rest = e.skip(k + pat.len());
                match first_match(rest, pat) {
                    Some(k2) => Some(rest.take(k2)),
                    None => Some(rest),
                }
            },
        }
    }
}

/// The value that an entry gives for `pat`: the first word after it.
pub open spec fn value_after(e: Seq<char>, pat: Seq<char>) -> Option<Seq<char>> {
    match second_piece(e, pat) {
        Some(piece) => if words(piece).len() > 0 {
            Some(words(piece)[0])
        } else {
            None
        },
        None => None,
    }
}

/// The values that the entries give for `pat`.
pub open spec fn values_after(entries: Seq<Seq<char>>, pat: Seq<char>) -> Set<Seq<char>> {
    Set::new(|w: Seq<char>| exists|i: int| 0 <= i < entries.len() && value_after(#[trigger] entries[i], pat) == Some(w))
}

/// Why a route listing could not be read.
#[derive(Clone, Copy, Debug, PartialEq, Eq, Structural)]
pub enum RouteError {
    /// The text after the last processed line feed is not UTF-8.
    InvalidUtf8,
}

fn chars_equal(a: &Vec<char>, b: &Vec<char>) -> (r: bool)
    ensures
        r == (a@ == b@),
{
    if a.len() != b.len() {
        return false;
    }
    let mut i: usize = 0;
    while i < a.len()
        invariant
            a@.len() == b@.len(),
            i <= a@.len(),
            forall|k: int| 0 <= k < i ==> a@[k] == b@[k],
        decreases a@.len() - i,
    {
        if a[i] != b[i] {
            return false;
        }
        i = i + 1;
    }
    assert(a@ =~= b@);
    true
}

/// Whether `v` holds `w`.
fn holds(v: &Vec<Vec<char>>, w: &Vec<char>) -> (r: bool)
    ensures
        r == views(v@).contains(w@),
{
    let mut i: usize = 0;
    while i < v.len()
        invariant
            i <= v@.len(),
            forall|k: int| 0 <= k < i ==> views(v@)[k] != w@,
        decreases v@.len() - i,
    {
        if chars_equal(&v[i], w) {
            assert(views(v@)[i as int] == w@);
            return true;
        }
        i = i + 1;
    }
    false
}

fn copy_range_u8(out: &mut Vec<u8>, s: &Vec<u8>, from: usize, to: usize)
    requires
        from <= to <= s@.len(),
    ensures
        final(out)@ == old(out)@ + s@.subrange(from as int, to as int),
{
    let mut i: usize = from;
    while i < to
        invariant
            from <= i <= to <= s@.len(),
            out@ == old(out)@ + s@.subrange(from as int, i as int),
        decreases to - i,
    {
        out.push(s[i]);
        i = i + 1;
        assert(s@.subrange(from as int, i as int) =~= s@.subrange(from as int, i - 1) + seq![s@[i - 1]]);
    }
}

/// Reads the chunks of a route listing into its entries.
pub fn read_route_entries(chunks: &Vec<Vec<u8>>) -> (r: Result<Vec<Vec<char>>, RouteError>)
    ensures
        match r {
            Ok(v) => route_entries(chunks@.map_values(|c: Vec<u8>| c@)) == Some(views(v@)),
            Err(_) => route_entries(chunks@.map_values(|c: Vec<u8>| c@)) is None,
        },
{
    let ghost cs = chunks@.map_values(|c: Vec<u8>| c@);
    let mut buf: Vec<u8> = Vec::new();
    let mut entries: Vec<Vec<char>> = Vec::new();
    let mut i: usize = 0;
    assert(cs.take(0) =~= Seq::<Seq<u8>>::empty());
    while i < chunks.len()
        invariant
            i <= chunks@.len(),
            cs == chunks@.map_values(|c: Vec<u8>| c@),
            read_chunks(cs.take(i as int)) == (buf@, views(entries@)),
        decreases chunks@.len() - i,
    {
        let ghost old_buf = buf@;
        let ghost old_entries = views(entries@);
        assert(cs.take(i + 1).drop_last() =~= cs.take(i as int));
        assert(cs.take(i + 1).last() == chunks@[i as int]@);
        let chunk = &chunks[i];
        copy_range_u8(&mut buf, chunk, 0, chunk.len());
        assert(chunk@.subrange(0, chunk@.len() as int) =~= chunk@);
        let ghost b = buf@;
        let mut p: usize = 0;
        assert(newline_from(b, 0) == newline_from(b, p as int));
        while p < buf.len() && buf[p] != 10
            invariant
                b == buf@,
                p <= buf@.len(),
                newline_from(b, 0) == newline_from(b, p as int),
            decreases buf@.len() - p,
        {
            p = p + 1;
        }
        if p < buf.len() {
            let mut line: Vec<u8> = Vec::new();
            copy_range_u8(&mut line, &buf, 0, p);
            assert(b.subrange(0, p as int) =~= b.take(p as int));
            let e = debug_utf8_line(line.as_slice());
            let mut rest: Vec<u8> = Vec::new();
            copy_range_u8(&mut rest, &buf, p + 1, buf.len());
            assert(b.subrange(p + 1, b.len() as int) =~= b.skip(p + 1));
            buf = rest;
            entries.push(e);
            assert(views(entries@) =~= old_entries.push(spec_debug_utf8_line(b.take(p as int))));
        }
        i = i + 1;
    }
    assert(cs.take(chunks@.len() as int) =~= cs);
    let s = match crate::text::str_from_utf8(buf.as_slice()) {
        Some(s) => s,
        None => {
            return Err(RouteError::InvalidUtf8);
        },
    };
    let text = chars_of(s);
    let ls = crate::text::split_lines(text.as_slice());
    let ghost before = views(entries@);
    let mut k: usize = 0;
    while k < ls.len()
        invariant
            k <= ls@.len(),
            views(entries@) == before + views(ls@).take(k as int),
        decreases ls@.len() - k,
    {
        let c = crate::text::copy_chars(ls[k].as_slice());
        assert(c@ == views(ls@)[k as int]);
        let ghost mid = views(entries@);
        entries.push(c);
        assert(views(entries@) =~= mid + seq![c@]);
        assert(views(ls@).take(k + 1) =~= views(ls@).take(k as int) + seq![ls@[k as int]@]);
        assert(views(entries@) =~= before + views(ls@).take(k + 1));
        k = k + 1;
    }
    assert(views(ls@).take(ls@.len() as int) =~= views(ls@));
    Ok(entries)
}

fn value_after_exec(e: &Vec<char>, pat: &Vec<char>) -> (r: Option<Vec<char>>)
    ensures
        match r {
            Some(w) => value_after(e@, pat@) == Some(w@),
            None => value_after(e@, pat@) is None,
        },
{
    let piece: Vec<char> = if pat.len() == 0 {
        let mut p: Vec<char> = Vec::new();
        if e.len() > 0 {
            p.push(e[0]);
            assert(p@ =~= e@.take(1));
        } else {
            assert(p@ =~= Seq::<char>::empty());
        }
        p
    } else {
        match find(e.as_slice(), pat.as_slice()) {
            None => {
                return None;
            },
            Some(k) => {
                proof {
                    lemma_find_from(e@, pat@, 0);
                }
                let el = e.len();
                assert(k + pat@.len() <= el);
                let mut rest: Vec<char> = Vec::new();
                crate::text::push_range(&mut rest, e.as_slice(), k + pat.len(), e.len());
                assert(e@.subrange(k + pat@.len(), e@.len() as int) =~= e@.skip(k + pat@.len()));
                match find(rest.as_slice(), pat.as_slice()) {
                    Some(k2) => {
                        proof {
                            lemma_find_from(rest@, pat@, 0);
                        }
                        let mut t: Vec<char> = Vec::new();
                        crate::text::push_range(&mut t, rest.as_slice(), 0, k2);
                        assert(rest@.subrange(0, k2 as int) =~= rest@.take(k2 as int));
                        t
                    },
                    None => rest,
                }
            },
        }
    };
    assert(second_piece(e@, pat@) == Some(piece@));
    let ws = split_whitespace(piece.as_slice());
    if ws.len() > 0 {
        Some(crate::text::copy_chars(ws[0].as_slice()))
    } else {
        None
    }
}

/// The distinct values that `entries` give for `pat`, in the order in which
/// they first occur.
pub fn distinct_values_after(entries: &Vec<Vec<char>>, pat: &Vec<char>) -> (r: Vec<Vec<char>>)
    ensures
        views(r@).no_duplicates(),
        views(r@).to_set() == values_after(views(entries@), pat@),
{
    let ghost es = views(entries@);
    let mut r: Vec<Vec<char>> = Vec::new();
    let mut i: usize = 0;
    while i < entries.len()
        invariant
            i <= entries@.len(),
            es == views(entries@),
            views(r@).no_duplicates(),
            forall|w: Seq<char>| views(r@).contains(w) <==> exists|k: int| 0 <= k < i && value_after(#[trigger] es[k], pat@) == Some(w),
        decreases entries@.len() - i,
    {
        let ghost before = views(r@);
        let ghost got = value_after(es[i as int], pat@);
        match value_after_exec(&entries[i], pat) {
            Some(w) => {
                assert(es[i as int] == entries@[i as int]@);
                assert(got == Some(w@));
                if !holds(&r, &w) {
                    r.push(w);
                    assert(views(r@) =~= before.push(w@));
                    proof { lemma_push_contains(before, w@); }
                }
                assert(forall|x: Seq<char>| views(r@).contains(x) <==> (before.contains(x) || got == Some(x)));
            },
            None => {
                assert(es[i as int] == entries@[i as int]@);
                assert(forall|x: Seq<char>| views(r@).contains(x) <==> (before.contains(x) || got == Some(x)));
            },
        }
        proof {
            assert forall|w: Seq<char>| views(r@).contains(w) <==> exists|k: int| 0 <= k < i + 1 && value_after(#[trigger] es[k], pat@) == Some(w) by {
                if got == Some(w) {
                    assert(value_after(es[i as int], pat@) == Some(w));
                }
                if exists|k: int| 0 <= k < i + 1 && value_after(#[trigger] es[k], pat@) == Some(w) {
                    let k = choose|k: int| 0 <= k < i + 1 && value_after(#[trigger] es[k], pat@) == Some(w);
                    if k < i {
                        assert(before.contains(w));
                    }
                }
            }
        }
        i = i + 1;
    }
    assert(views(r@).to_set() =~= values_after(es, pat@));
    r
}

fn to_strings(v: &Vec<Vec<char>>) -> (r: Vec<String>)
    ensures
        strs(r@) == views(v@),
{
    let mut r: Vec<String> = Vec::new();
    let mut i: usize = 0;
    while i < v.len()
        invariant
            i <= v@.len(),
            strs(r@) == views(v@).take(i as int),
        decreases v@.len() - i,
    {
        let s = crate::text::string_from_chars(v[i].as_slice());
        assert(s@ == views(v@)[i as int]);
        let ghost mid = strs(r@);
        r.push(s);
        assert(strs(r@) =~= mid + seq![s@]);
        assert(strs(r@) =~= views(v@).take(i + 1));
        i = i + 1;
    }
    assert(views(v@).take(v@.len() as int) =~= views(v@));
    r
}

/// The addresses in use that a route listing shows: the value after
/// `looking_for` in each entry of the listing read from `chunks`, each
/// once, sorted as `sort_ip_addresses` sorts.
pub fn find_ip_or_segment_in_use(chunks: &Vec<Vec<u8>>, looking_for: &str) -> (r: Result<Vec<String>, RouteError>)
    ensures
        match r {
            Ok(v) => {
                &&& route_entries(chunks@.map_values(|c: Vec<u8>| c@)) is Some
                &&& strs(v@).no_duplicates()
                &&& strs(v@).to_set() == values_after(route_entries(chunks@.map_values(|c: Vec<u8>| c@))->0, looking_for@)
                &&& forall|k: int| 0 <= k < v@.len() - 1 ==> ip_order(#[trigger] strs(v@)[k], strs(v@)[k + 1]) <= 0
            },
            Err(_) => route_entries(chunks@.map_values(|c: Vec<u8>| c@)) is None,
        },
{
    let entries = match read_route_entries(chunks) {
        Ok(e) => e,
        Err(e) => {
            return Err(e);
        },
    };
    let pat = chars_of(looking_for);
    let values = distinct_values_after(&entries, &pat);
    let list = to_strings(&values);
    let sorted = sort_ip_addresses(list);
    proof {
        let p = choose|p: Seq<int>| sorted_stable_reordering(strs(list@), strs(sorted@), p);
        lemma_reordering_keeps_set(strs(list@), strs(sorted@), p);
    }
    Ok(sorted)
}

// ---------------------------------------------------------------------------
// Free management addresses and segments
// ---------------------------------------------------------------------------

/// Whether `v` holds a string with the characters `w`.
fn holds_str(v: &Vec<String>, w: &Vec<char>) -> (r: bool)
    ensures
        r == strs(v@).contains(w@),
{
    let mut i: usize = 0;
    while i < v.len()
        invariant
            i <= v@.len(),
            forall|k: int| 0 <= k < i ==> strs(v@)[k] != w@,
        decreases v@.len() - i,
    {
        let c = chars_of(v[i].as_str());
        if chars_equal(&c, w) {
            assert(strs(v@)[i as int] == w@);
            return true;
        }
        i = i + 1;
    }
    false
}

/// The management address `10.<middle>.<j>.<k>`.
pub open spec fn management_ip(middle: Seq<char>, j: nat, k: nat) -> Seq<char> {
    "10."@ + middle + "."@ + decimal(j) + "."@ + decimal(k)
}

/// The management addresses of a node whose third octets start at `first`:
/// third octet `first` to `first + 3`, each with fourth octet 130 to 254.
pub open spec fn management_ip_list(middle: Seq<char>, first: nat) -> Seq<Seq<char>> {
    Seq::new(500, |i: int| management_ip(middle, (first + i / 125) as nat, (130 + i % 125) as nat))
}

/// The first third octet of a node: its segment as `u8`, zero when it is
/// not one.
pub open spec fn first_third_octet(segment: Seq<char>) -> nat {
    match parse_unsigned(segment, 255) {
        Some(v) => v,
        None => 0,
    }
}

/// The free management addresses of a node, and whether its segment had to
/// be read as zero.
#[derive(Debug)]
pub struct AvailableIps {
    pub segment_unreadable: bool,
    pub ips: Vec<String>,
}

/// The set of a sequence after a push.
pub proof fn lemma_push_to_set<T>(s: Seq<T>, v: T)
    ensures
        s.push(v).to_set() == s.to_set().insert(v),
{
    lemma_push_contains(s, v);
    assert(s.push(v).to_set() =~= s.to_set().insert(v));
}

/// The management addresses of the node (middle octet `middle_octet`,
/// segment `node_segment_initial`) that are not in use, each once.
pub fn find_available_management_ip(in_use: &Vec<String>, middle_octet: &str, node_segment_initial: &str) -> (r: AvailableIps)
    requires
        first_third_octet(node_segment_initial@) + 4 <= 255,
    ensures
        r.segment_unreadable == (parse_unsigned(node_segment_initial@, 255) is None),
        strs(r.ips@).no_duplicates(),
        strs(r.ips@).to_set() == management_ip_list(middle_octet@, first_third_octet(node_segment_initial@)).to_set().difference(strs(in_use@).to_set()),
{
    let seg = chars_of(node_segment_initial);
    let (first, unreadable): (u64, bool) = match parse_unsigned_exec(seg.as_slice(), 255) {
        Some(v) => (v, false),
        None => (0, true),
    };
    let ghost list = management_ip_list(middle_octet@, first as nat);
    let ghost used = strs(in_use@).to_set();
    let middle = chars_of(middle_octet);
    let mut ips: Vec<String> = Vec::new();
    let mut idx: u64 = 0;
    assert(list.take(0).to_set() =~= Set::<Seq<char>>::empty());
    assert(strs(ips@).to_set() =~= Set::<Seq<char>>::empty());
    while idx < 500
        invariant
            first + 4 <= 255,
            idx <= 500,
            middle@ == middle_octet@,
            list == management_ip_list(middle_octet@, first as nat),
            used == strs(in_use@).to_set(),
            strs(ips@).no_duplicates(),
            strs(ips@).to_set() == list.take(idx as int).to_set().difference(used),
        decreases 500 - idx,
    {
        let j = first + idx / 125;
        let k = 130 + idx % 125;
        let mut t: Vec<char> = chars_of("10.");
        crate::text::push_all(&mut t, middle.as_slice());
        crate::text::push_all(&mut t, chars_of(".").as_slice());
        crate::text::push_all(&mut t, decimal_exec(j).as_slice());
        crate::text::push_all(&mut t, chars_of(".").as_slice());
        crate::text::push_all(&mut t, decimal_exec(k).as_slice());
        assert(t@ =~= list[idx as int]);
        let ghost before = strs(ips@);
        proof {
            assert(list.take(idx + 1) =~= list.take(idx as int).push(t@));
            lemma_push_to_set(list.take(idx as int), t@);
        }
        if !holds_str(in_use, &t) && !holds_str(&ips, &t) {
            ips.push(crate::text::string_from_chars(t.as_slice()));
            proof {
                assert(strs(ips@) =~= before.push(t@));
                lemma_push_to_set(before, t@);
            }
        }
        assert(strs(ips@).to_set() =~= list.take(idx + 1).to_set().difference(used));
        idx = idx + 1;
    }
    assert(list.take(500) =~= list);
    AvailableIps { segment_unreadable: unreadable, ips }
}

/// The segments of `complete` that are not in use, each once, sorted as
/// `sort_ip_addresses` sorts.
pub fn find_available_segments(complete: &Vec<String>, in_use: &Vec<String>) -> (r: Vec<String>)
    ensures
        strs(r@).no_duplicates(),
        strs(r@).to_set() == strs(complete@).to_set().difference(strs(in_use@).to_set()),
        forall|k: int| 0 <= k < r@.len() - 1 ==> ip_order(#[trigger] strs(r@)[k], strs(r@)[k + 1]) <= 0,
{
    let ghost all = strs(complete@);
    let ghost used = strs(in_use@).to_set();
    let mut avail: Vec<String> = Vec::new();
    let mut i: usize = 0;
    assert(all.take(0).to_set() =~= Set::<Seq<char>>::empty());
    assert(strs(avail@).to_set() =~= Set::<Seq<char>>::empty());
    while i < complete.len()
        invariant
            i <= complete@.len(),
            all == strs(complete@),
            used == strs(in_use@).to_set(),
            strs(avail@).no_duplicates(),
            strs(avail@).to_set() == all.take(i as int).to_set().difference(used),
        decreases complete@.len() - i,
    {
        let c = chars_of(complete[i].as_str());
        let ghost before = strs(avail@);
        assert(c@ == all[i as int]);
        proof {
            assert(all.take(i + 1) =~= all.take(i as int).push(c@));
            lemma_push_to_set(all.take(i as int), c@);
        }
        if !holds_str(in_use, &c) && !holds_str(&avail, &c) {
            avail.push(complete[i].clone());
            proof {
                assert(strs(avail@) =~= before.push(c@));
                lemma_push_to_set(before, c@);
            }
        }
        assert(strs(avail@).to_set() =~= all.take(i + 1).to_set().difference(used));
        i = i + 1;
    }
    assert(all.take(complete@.len() as int) =~= all);
    let sorted = sort_ip_addresses(avail);
    proof {
        let p = choose|p: Seq<int>| sorted_stable_reordering(strs(avail@), strs(sorted@), p);
        lemma_reordering_keeps_set(strs(avail@), strs(sorted@), p);
    }
    sorted
}

/// The route query for gateways in `10.<a>.<b>`.
pub open spec fn gateway_query(a: Seq<char>, b: Seq<char>) -> Seq<char> {
    "ip route print terse without-paging where gateway~\"10."@ + a + "."@ + b + "\"\r\n"@
}

/// The five gateway queries of a node: the first with its segment as
/// given, the next four with the segment plus 1 to 4.
pub open spec fn gateway_queries_spec(segment1: Seq<char>, segment2: Seq<char>) -> Seq<Seq<char>> {
    let v = parse_i32(segment2)->0;
    Seq::new(5, |k: int| if k == 0 {
        gateway_query(segment1, segment2)
    } else {
        gateway_query(segment1, signed_decimal(v + k))
    })
}

/// The five gateway queries of the node with middle octet `segment1` and
/// segment `segment2` (the segment must be an `i32` with room for 5 more).
pub fn gateway_queries(segment1: &str, segment2: &str) -> (r: Vec<String>)
    requires
        parse_i32(segment2@) is Some,
        parse_i32(segment2@)->0 + 5 <= i32::MAX,
    ensures
        strs(r@) == gateway_queries_spec(segment1@, segment2@),
{
    let seg2 = chars_of(segment2);
    let v = crate::text::parse_i32_exec(seg2.as_slice()).unwrap();
    let mut r: Vec<String> = Vec::new();
    let mut k: i64 = 0;
    while k < 5
        invariant
            0 <= k <= 5,
            v as int == parse_i32(segment2@)->0,
            v + 5 <= i32::MAX,
            seg2@ == segment2@,
            strs(r@) == gateway_queries_spec(segment1@, segment2@).take(k as int),
        decreases 5 - k,
    {
        let mut t: Vec<char> = chars_of("ip route print terse without-paging where gateway~\"10.");
        crate::text::push_all(&mut t, chars_of(segment1).as_slice());
        crate::text::push_all(&mut t, chars_of(".").as_slice());
        if k == 0 {
            crate::text::push_all(&mut t, seg2.as_slice());
        } else {
            crate::text::push_all(&mut t, signed_decimal_exec(v as i64 + k).as_slice());
        }
        crate::text::push_all(&mut t, chars_of("\"\r\n").as_slice());
        let ghost before = strs(r@);
        let line = crate::text::string_from_chars(t.as_slice());
        r.push(line);
        assert(strs(r@) =~= before + seq![line@]);
        assert(strs(r@) =~= gateway_queries_spec(segment1@, segment2@).take(k + 1));
        k = k + 1;
    }
    assert(gateway_queries_spec(segment1@, segment2@).take(5) =~= gateway_queries_spec(segment1@, segment2@));
    r
}

/// What a sequence holds after a push.
pub proof fn lemma_push_contains<T>(s: Seq<T>, v: T)
    ensures
        forall|x: T| #[trigger] s.push(v).contains(x) <==> (s.contains(x) || x == v),
{
    assert forall|x: T| #[trigger] s.push(v).contains(x) <==> (s.contains(x) || x == v) by {
        if s.push(v).contains(x) {
            let k = choose|k: int| 0 <= k < s.push(v).len() && s.push(v)[k] == x;
            if k < s.len() {
                assert(s[k] == x);
            }
        }
        if s.contains(x) {
            let k = choose|k: int| 0 <= k < s.len() && s[k] == x;
            assert(s.push(v)[k] == x);
        }
        if x == v {
            assert(s.push(v)[s.len() as int] == x);
        }
    }
}

/// A reordering of a list without duplicates has no duplicates and the
/// same elements.
pub proof fn lemma_reordering_keeps_set(input: Seq<Seq<char>>, out: Seq<Seq<char>>, p: Seq<int>)
    requires
        sorted_stable_reordering(input, out, p),
        input.no_duplicates(),
    ensures
        out.no_duplicates(),
        out.to_set() == input.to_set(),
{
    assert forall|k: int, l: int| 0 <= k < out.len() && 0 <= l < out.len() && k != l implies out[k] != out[l] by {
        if k < l {
            assert(p[k] != p[l]);
        } else {
            assert(p[l] != p[k]);
        }
    }
    assert forall|w: Seq<char>| input.contains(w) implies out.contains(w) by {
        let m = choose|m: int| 0 <= m < input.len() && input[m] == w;
        lemma_permutation_onto(p, input.len(), m);
        let k = choose|k: int| 0 <= k < input.len() && p[k] == m;
        assert(out[k] == w);
    }
    assert(out.to_set() =~= input.to_set());
}

/// A permutation of `0..n` takes every value in `0..n`.
pub proof fn lemma_permutation_onto(p: Seq<int>, n: nat, v: int)
    requires
        is_permutation(p, n),
        0 <= v < n,
    ensures
        exists|k: int| 0 <= k < n && p[k] == v,
{
    let img = p.to_set();
    let range = vstd::set_lib::set_int_range(0, n as int);
    assert forall|x: int| img.contains(x) implies range.contains(x) by {
        let k = choose|k: int| 0 <= k < p.len() && p[k] == x;
    }
    assert(p.no_duplicates()) by {
        assert forall|k: int, l: int| 0 <= k < p.len() && 0 <= l < p.len() && k != l implies p[k] != p[l] by {
            if k < l {
            } else {
            }
        }
    }
    p.unique_seq_to_set();
    vstd::set_lib::lemma_int_range(0, n as int);
    if !img.contains(v) {
        vstd::set_lib::lemma_len_subset(img, range.remove(v));
        assert(false);
    }
    let k = choose|k: int| 0 <= k < p.len() && p[k] == v;
}

/// Moving the first element of `rest` into `out` keeps the multiset of both.
proof fn lemma_move_keeps_multiset<T>(out: Seq<T>, rest: Seq<T>, j: int, whole: Seq<T>)
    requires
        rest.len() > 0,
        0 <= j <= out.len(),
        out.to_multiset().add(rest.to_multiset()) == whole.to_multiset(),
    ensures
        out.insert(j, rest[0]).to_multiset().add(rest.remove(0).to_multiset()) == whole.to_multiset(),
{
    broadcast use vstd::multiset::group_multiset_axioms;

    vstd::seq_lib::to_multiset_insert(out, j, rest[0]);
    vstd::seq_lib::to_multiset_remove(rest, 0);
    vstd::seq_lib::to_multiset_contains(rest, rest[0]);
    assert(out.insert(j, rest[0]).to_multiset().add(rest.remove(0).to_multiset()) =~= whole.to_multiset());
}

} // verus!
