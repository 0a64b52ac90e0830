//! Byte-level text helpers: searching, splitting and comparing.
//!
//! Everything on the wire is treated as bytes. Text that the protocol fixes
//! (header names, the status line prefix, line ends) is ASCII, and `ascii`
//! names the bytes of such a text in contracts.

use itertools::Itertools;
use vstd::prelude::*;
use vstd::slice::slice_subrange;
use vstd::utf8::{decode_utf8, encode_utf8, valid_utf8};

verus! {

/// The space.
pub const SP: u8 = 32;

/// The carriage return.
pub const CR: u8 = 13;

/// The line feed.
pub const LF: u8 = 10;

/// The slash, which separates the segments of a path.
pub const SLASH: u8 = 47;

/// The bytes of a text made of ASCII characters only.
pub open spec fn ascii(s: Seq<char>) -> Seq<u8> {
    Seq::new(s.len(), |i: int| s[i] as u8)
}

/// The byte sequences that a vector of byte vectors holds.
pub open spec fn rows(v: Seq<Vec<u8>>) -> Seq<Seq<u8>> {
    Seq::new(v.len(), |i: int| v[i]@)
}

/// `pat` occurs in `s` at index `i`.
pub open spec fn matches_at(s: Seq<u8>, pat: Seq<u8>, i: int) -> bool {
    &&& 0 <= i
    &&& i + pat.len() <= s.len()
    &&& s.subrange(i, i + pat.len()) == pat
}

/// The least index at or after `from` at which `pat` occurs in `s`, or
/// `s.len()` where it occurs nowhere from there on.
pub open spec fn first_match(s: Seq<u8>, pat: Seq<u8>, from: int) -> int
    decreases s.len() - from,
{
    if from >= s.len() {
        s.len() as int
    } else if matches_at(s, pat, from) {
        from
    } else {
        first_match(s, pat, from + 1)
    }
}

/// What `s` falls into when every occurrence of `pat`, found left to right
/// from `from` on and never overlapping, is cut out. A piece may be empty.
pub open spec fn pieces_from(s: Seq<u8>, pat: Seq<u8>, from: int) -> Seq<Seq<u8>>
    recommends
        0 <= from <= s.len(),
    decreases s.len() - from,
{
    let k = first_match(s, pat, from);
    if 0 <= from <= k && k + pat.len() <= s.len() && pat.len() > 0 {
        seq![s.subrange(from, k)] + pieces_from(s, pat, k + pat.len())
    } else {
        seq![s.subrange(from, s.len() as int)]
    }
}

/// The pieces of `s` between the occurrences of `pat`.
pub open spec fn pieces(s: Seq<u8>, pat: Seq<u8>) -> Seq<Seq<u8>> {
    pieces_from(s, pat, 0)
}

/// The piece holds at least one byte.
pub open spec fn non_empty(piece: Seq<u8>) -> bool {
    piece.len() > 0
}

/// The non-empty pieces of `s` between the occurrences of the byte `sep`.
pub open spec fn segments(s: Seq<u8>, sep: u8) -> Seq<Seq<u8>> {
    pieces(s, seq![sep]).filter(|piece: Seq<u8>| non_empty(piece))
}

/// The parts of `s` before and after the first occurrence of `pat`.
pub open spec fn split_once(s: Seq<u8>, pat: Seq<u8>) -> Option<(Seq<u8>, Seq<u8>)> {
    let k = first_match(s, pat, 0);
    if k < s.len() {
        Some((s.subrange(0, k), s.subrange(k + pat.len(), s.len() as int)))
    } else {
        None
    }
}

/// The parts put together again, with `sep` between each two.
pub open spec fn join(parts: Seq<Seq<u8>>, sep: Seq<u8>) -> Seq<u8>
    decreases parts.len(),
{
    if parts.len() == 0 {
        Seq::empty()
    } else if parts.len() == 1 {
        parts[0]
    } else {
        parts[0] + sep + join(parts.skip(1), sep)
    }
}

/// The byte `b` stands nowhere in `s`.
pub open spec fn free_of(s: Seq<u8>, b: u8) -> bool {
    forall|i: int| 0 <= i < s.len() ==> #[trigger] s[i] != b
}

/// What `str::to_uppercase` makes of a text: its upper-case form by the
/// rules of Unicode.
pub uninterp spec fn uppercase_of(text: Seq<char>) -> Seq<char>;

/// `first_match` is in range, is a match unless it is the length, and no
/// match starts before it.
pub proof fn lemma_first_match(s: Seq<u8>, pat: Seq<u8>, from: int)
    requires
        0 <= from <= s.len(),
        pat.len() > 0,
    ensures
        from <= first_match(s, pat, from) <= s.len(),
        first_match(s, pat, from) < s.len() ==> matches_at(s, pat, first_match(s, pat, from)),
        forall|j: int| from <= j < first_match(s, pat, from) ==> !matches_at(s, pat, j),
    decreases s.len() - from,
{
    if from < s.len() && !matches_at(s, pat, from) {
        lemma_first_match(s, pat, from + 1);
    }
}

/// An index that is a match (or the length) with no match before it is the
/// first match.
pub proof fn lemma_first_match_is(s: Seq<u8>, pat: Seq<u8>, from: int, k: int)
    requires
        0 <= from <= k <= s.len(),
        k < s.len() ==> matches_at(s, pat, k),
        forall|j: int| from <= j < k ==> !matches_at(s, pat, j),
    ensures
        first_match(s, pat, from) == k,
    decreases k - from,
{
    if from < k {
        lemma_first_match_is(s, pat, from + 1, k);
    }
}

/// Where the byte `sep` stands at `k` and nowhere in `from..k`, the first
/// match of `sep` from `from` is `k`.
pub proof fn lemma_first_byte_is(s: Seq<u8>, sep: u8, from: int, k: int)
    requires
        0 <= from <= k <= s.len(),
        k < s.len() ==> s[k] == sep,
        forall|j: int| from <= j < k ==> s[j] != sep,
    ensures
        first_match(s, seq![sep], from) == k,
{
    let pat = seq![sep];
    assert forall|j: int| from <= j < k implies !matches_at(s, pat, j) by {
        if matches_at(s, pat, j) {
            assert(s.subrange(j, j + 1)[0] == pat[0]);
        }
    }
    if k < s.len() {
        assert(s.subrange(k, k + 1) =~= pat);
    }
    lemma_first_match_is(s, pat, from, k);
}

/// Cutting loses nothing: the pieces, put together with the pattern between
/// them, are the text that was cut.
pub proof fn lemma_pieces_join(s: Seq<u8>, pat: Seq<u8>, from: int)
    requires
        0 <= from <= s.len(),
    ensures
        pieces_from(s, pat, from).len() > 0,
        join(pieces_from(s, pat, from), pat) == s.subrange(from, s.len() as int),
    decreases s.len() - from,
{
    let k = first_match(s, pat, from);
    if pat.len() > 0 {
        lemma_first_match(s, pat, from);
        if k + pat.len() <= s.len() {
            let rest = pieces_from(s, pat, k + pat.len());
            lemma_pieces_join(s, pat, k + pat.len());
            let all = pieces_from(s, pat, from);
            assert(all.skip(1) =~= rest);
            assert(s.subrange(k, k + pat.len()) == pat);
            assert(s.subrange(from, k) + s.subrange(k, k + pat.len()) + s.subrange(
                k + pat.len(),
                s.len() as int,
            ) =~= s.subrange(from, s.len() as int));
        }
    }
}

/// No piece between occurrences of a byte holds that byte.
pub proof fn lemma_pieces_free_of_sep(s: Seq<u8>, sep: u8, from: int)
    requires
        0 <= from <= s.len(),
    ensures
        forall|i: int|
            0 <= i < pieces_from(s, seq![sep], from).len() ==> free_of(
                #[trigger] pieces_from(s, seq![sep], from)[i],
                sep,
            ),
    decreases s.len() - from,
{
    let pat = seq![sep];
    let k = first_match(s, pat, from);
    lemma_first_match(s, pat, from);
    assert forall|j: int| from <= j < k implies s[j] != sep by {
        if s[j] == sep {
            assert(s.subrange(j, j + 1) =~= pat);
            assert(matches_at(s, pat, j));
        }
    }
    if k + 1 <= s.len() {
        lemma_pieces_free_of_sep(s, sep, k + 1);
        let rest = pieces_from(s, pat, k + 1);
        let all = pieces_from(s, pat, from);
        assert forall|i: int| 0 <= i < all.len() implies free_of(#[trigger] all[i], sep) by {
            if i > 0 {
                assert(all[i] == rest[i - 1]);
            }
        }
    }
}

/// Every segment holds at least one byte, and none holds the separator.
pub proof fn lemma_segments_clean(s: Seq<u8>, sep: u8)
    ensures
        forall|i: int|
            0 <= i < segments(s, sep).len() ==> (#[trigger] segments(s, sep)[i]).len() > 0
                && free_of(segments(s, sep)[i], sep),
{
    let all = pieces(s, seq![sep]);
    let keep = |piece: Seq<u8>| non_empty(piece);
    lemma_pieces_free_of_sep(s, sep, 0);
    assert forall|i: int| 0 <= i < all.filter(keep).len() implies (#[trigger] all.filter(
        keep,
    )[i]).len() > 0 && free_of(all.filter(keep)[i], sep) by {
        let piece = all.filter(keep)[i];
        all.lemma_filter_pred(keep, i);
        assert(all.filter(keep).contains(piece));
        all.lemma_filter_contains_rev(keep, piece);
        let j = choose|j: int| 0 <= j < all.len() && all[j] == piece;
        assert(free_of(all[j], sep));
    }
}

/// A match in the second of two joined strings is a match in the whole, as
/// far to the right as the first is long.
pub proof fn lemma_matches_shift(a: Seq<u8>, b: Seq<u8>, pat: Seq<u8>, j: int)
    requires
        0 <= j,
    ensures
        matches_at(a + b, pat, a.len() + j) == matches_at(b, pat, j),
{
    if j + pat.len() <= b.len() {
        assert((a + b).subrange(a.len() + j, a.len() + j + pat.len()) =~= b.subrange(
            j,
            j + pat.len(),
        ));
    }
}

/// Searching the second of two joined strings finds what searching the
/// whole finds from the joint on.
pub proof fn lemma_first_match_shift(a: Seq<u8>, b: Seq<u8>, pat: Seq<u8>, i: int)
    requires
        0 <= i <= b.len(),
        pat.len() > 0,
    ensures
        first_match(a + b, pat, a.len() + i) == a.len() + first_match(b, pat, i),
{
    let k = first_match(b, pat, i);
    lemma_first_match(b, pat, i);
    assert forall|j: int| a.len() + i <= j < a.len() + k implies !matches_at(a + b, pat, j) by {
        lemma_matches_shift(a, b, pat, j - a.len());
    }
    if k < b.len() {
        lemma_matches_shift(a, b, pat, k);
    }
    lemma_first_match_is(a + b, pat, a.len() + i, a.len() + k);
}

/// The pieces of the second of two joined strings are the pieces of the
/// whole from the joint on.
pub proof fn lemma_pieces_shift(a: Seq<u8>, b: Seq<u8>, pat: Seq<u8>, i: int)
    requires
        0 <= i <= b.len(),
    ensures
        pieces_from(a + b, pat, a.len() + i) == pieces_from(b, pat, i),
    decreases b.len() - i,
{
    if pat.len() > 0 {
        lemma_first_match_shift(a, b, pat, i);
        lemma_first_match(b, pat, i);
        let k = first_match(b, pat, i);
        if k + pat.len() <= b.len() {
            assert((a + b).subrange(a.len() + i, a.len() + k) =~= b.subrange(i, k));
            lemma_pieces_shift(a, b, pat, k + pat.len());
        } else {
            assert((a + b).subrange(a.len() + i, (a + b).len() as int) =~= b.subrange(
                i,
                b.len() as int,
            ));
        }
    } else {
        assert((a + b).subrange(a.len() + i, (a + b).len() as int) =~= b.subrange(
            i,
            b.len() as int,
        ));
    }
}

/// Two strings with the byte `sep` between them fall into the pieces of the
/// first and then the pieces of the second.
pub proof fn lemma_pieces_concat(a: Seq<u8>, b: Seq<u8>, sep: u8, i: int)
    requires
        0 <= i <= a.len(),
    ensures
        pieces_from(a + seq![sep] + b, seq![sep], i) == pieces_from(a, seq![sep], i) + pieces(
            b,
            seq![sep],
        ),
    decreases a.len() - i,
{
    let pat = seq![sep];
    let whole = a + pat + b;
    let k = first_match(a, pat, i);
    lemma_first_match(a, pat, i);
    assert forall|j: int| i <= j < k implies whole[j] != sep by {
        if a[j] == sep {
            assert(a.subrange(j, j + 1) =~= pat);
            assert(matches_at(a, pat, j));
        }
    }
    if k < a.len() {
        assert(a.subrange(k, k + 1) == pat);
        assert(a[k] == a.subrange(k, k + 1)[0]);
        assert(whole[k] == sep);
        lemma_first_byte_is(whole, sep, i, k);
        assert(whole.subrange(i, k) =~= a.subrange(i, k));
        lemma_pieces_concat(a, b, sep, k + 1);
    } else {
        assert(whole[a.len() as int] == sep);
        lemma_first_byte_is(whole, sep, i, a.len() as int);
        assert(whole.subrange(i, a.len() as int) =~= a.subrange(i, a.len() as int));
        lemma_pieces_shift(a + pat, b, pat, 0);
    }
}

/// Cutting goes piece by piece: the segments of two strings with a
/// separator between them are the segments of the first and then those of
/// the second. So a separator more, beside another or at an end, changes
/// nothing.
pub proof fn lemma_segments_concat(a: Seq<u8>, b: Seq<u8>, sep: u8)
    ensures
        segments(a + seq![sep] + b, sep) == segments(a, sep) + segments(b, sep),
        segments(seq![sep] + b, sep) == segments(b, sep),
        segments(a + seq![sep], sep) == segments(a, sep),
{
    let pat = seq![sep];
    let keep = |piece: Seq<u8>| non_empty(piece);
    let empty = Seq::<u8>::empty();
    lemma_pieces_concat(a, b, sep, 0);
    Seq::filter_distributes_over_add(pieces(a, pat), pieces(b, pat), keep);
    lemma_pieces_concat(empty, b, sep, 0);
    Seq::filter_distributes_over_add(pieces(empty, pat), pieces(b, pat), keep);
    lemma_pieces_concat(a, empty, sep, 0);
    Seq::filter_distributes_over_add(pieces(a, pat), pieces(empty, pat), keep);
    assert(empty + pat + b =~= pat + b);
    assert(a + pat + empty =~= a + pat);
    lemma_segments_of_nothing(sep);
    assert(segments(b, sep) =~= Seq::<Seq<u8>>::empty() + segments(b, sep));
    assert(segments(a, sep) =~= segments(a, sep) + Seq::<Seq<u8>>::empty());
}

/// The empty string has no segment.
pub proof fn lemma_segments_of_nothing(sep: u8)
    ensures
        segments(Seq::<u8>::empty(), sep) == Seq::<Seq<u8>>::empty(),
{
    let keep = |piece: Seq<u8>| non_empty(piece);
    let empty = Seq::<u8>::empty();
    assert(empty.subrange(0, 0) =~= empty);
    assert(pieces(empty, seq![sep]) =~= seq![empty]);
    reveal_with_fuel(Seq::filter, 2);
    assert(seq![empty].drop_last() =~= Seq::<Seq<u8>>::empty());
    assert(seq![empty].filter(keep) =~= Seq::<Seq<u8>>::empty());
}

/// A string that is not empty and holds no separator is its one segment.
pub proof fn lemma_segments_of_one(part: Seq<u8>, sep: u8)
    requires
        part.len() > 0,
        free_of(part, sep),
    ensures
        segments(part, sep) == seq![part],
{
    let keep = |piece: Seq<u8>| non_empty(piece);
    lemma_first_byte_is(part, sep, 0, part.len() as int);
    assert(part.subrange(0, part.len() as int) =~= part);
    assert(pieces(part, seq![sep]) =~= seq![part]);
    reveal_with_fuel(Seq::filter, 2);
    assert(seq![part].drop_last() =~= Seq::<Seq<u8>>::empty());
    assert(seq![part].filter(keep) =~= seq![part]);
}

/// Cutting undoes joining: parts that are not empty and hold no separator,
/// joined with the separator between them, are cut into those parts again.
pub proof fn lemma_segments_of_join(parts: Seq<Seq<u8>>, sep: u8)
    requires
        forall|i: int|
            0 <= i < parts.len() ==> (#[trigger] parts[i]).len() > 0 && free_of(parts[i], sep),
    ensures
        segments(join(parts, seq![sep]), sep) == parts,
    decreases parts.len(),
{
    let keep = |piece: Seq<u8>| non_empty(piece);
    let empty = Seq::<u8>::empty();
    if parts.len() == 0 {
        lemma_segments_of_nothing(sep);
        assert(parts =~= Seq::<Seq<u8>>::empty());
    } else if parts.len() == 1 {
        lemma_segments_of_one(parts[0], sep);
        assert(seq![parts[0]] =~= parts);
    } else {
        let rest = parts.skip(1);
        assert forall|i: int| 0 <= i < rest.len() implies (#[trigger] rest[i]).len() > 0
            && free_of(rest[i], sep) by {
            assert(rest[i] == parts[i + 1]);
        }
        lemma_segments_of_join(rest, sep);
        lemma_segments_of_one(parts[0], sep);
        lemma_segments_concat(parts[0], join(rest, seq![sep]), sep);
        assert(seq![parts[0]] + rest =~= parts);
    }
}

/// Collects the items of `bytes` with `Itertools::collect_vec`, which gathers
/// everything its iterator yields, in order, into a vector.
#[verifier::external_body]
fn collected(bytes: &[u8]) -> (out: Vec<u8>)
    ensures
        out@ == bytes@,
{
    bytes.iter().copied().collect_vec()
}

/// The error of `String::from_utf8`. Nothing is known of what it holds.
#[verifier::external_type_specification]
#[verifier::external_body]
pub struct ExFromUtf8Error(std::string::FromUtf8Error);

/// `String::from_utf8` gives the text whose UTF-8 encoding the bytes are,
/// and an error exactly where the bytes are not valid UTF-8.
pub assume_specification[ String::from_utf8 ](vec: Vec<u8>) -> (r: Result<
    String,
    std::string::FromUtf8Error,
>)
    ensures
        r is Ok <==> valid_utf8(vec@),
        r is Ok ==> encode_utf8(r->Ok_0@) == vec@,
;

/// `str::to_uppercase`: the upper-case form of the text. All that is claimed
/// is that the result depends on the text alone.
#[verifier::external_body]
fn upper_case(text: &str) -> (out: String)
    ensures
        out@ == uppercase_of(text@),
{
    text.to_uppercase()
}

/// The text that the bytes spell in UTF-8, in upper case; nothing where
/// the bytes are not valid UTF-8.
pub fn to_uppercase(bytes: &[u8]) -> (r: Option<String>)
    ensures
        r is Some <==> valid_utf8(bytes@),
        r is Some ==> r->0@ == uppercase_of(decode_utf8(bytes@)),
{
    broadcast use vstd::utf8::encode_utf8_decode_utf8;

    let owned = copy_range(bytes, 0, bytes.len());
    assert(owned@ =~= bytes@);
    match String::from_utf8(owned) {
        Ok(text) => {
            assert(decode_utf8(encode_utf8(text@)) == text@);
            Some(upper_case(text.as_str()))
        },
        Err(_) => None,
    }
}

/// Whether two texts are the same.
pub fn same_text(a: &str, b: &str) -> (r: bool)
    ensures
        r == (a@ == b@),
{
    broadcast use vstd::utf8::encode_utf8_decode_utf8;

    let equal = same(a.as_bytes(), b.as_bytes());
    proof {
        if equal {
            assert(decode_utf8(encode_utf8(a@)) == decode_utf8(encode_utf8(b@)));
        }
    }
    equal
}

/// An owned copy of `bytes[from..to]`.
pub fn copy_range(bytes: &[u8], from: usize, to: usize) -> (out: Vec<u8>)
    requires
        from <= to <= bytes@.len(),
    ensures
        out@ == bytes@.subrange(from as int, to as int),
{
    collected(slice_subrange(bytes, from, to))
}

/// The bytes of an ASCII text, borrowed.
pub fn text(s: &str) -> (bytes: &[u8])
    requires
        s.is_ascii(),
    ensures
        bytes@ == ascii(s@),
{
    broadcast use vstd::string::is_ascii_spec_bytes;

    let bytes = s.as_bytes();
    assert(bytes@ =~= ascii(s@));
    bytes
}

/// The bytes of an ASCII text.
pub fn literal(s: &str) -> (out: Vec<u8>)
    requires
        s.is_ascii(),
    ensures
        out@ == ascii(s@),
{
    collected(text(s))
}

/// Appends `more` to `out`.
pub fn append(out: &mut Vec<u8>, more: &[u8])
    ensures
        final(out)@ == old(out)@ + more@,
{
    let mut i: usize = 0;
    while i < more.len()
        invariant
            i <= more.len(),
            out@ == old(out)@ + more@.take(i as int),
        decreases more.len() - i,
    {
        out.push(more[i]);
        i += 1;
        assert(out@ =~= old(out)@ + more@.take(i as int));
    }
    assert(more@.take(more.len() as int) =~= more@);
}

/// Appends the bytes of an ASCII text to `out`.
pub fn append_text(out: &mut Vec<u8>, s: &str)
    requires
        s.is_ascii(),
    ensures
        final(out)@ == old(out)@ + ascii(s@),
{
    append(out, text(s));
}

/// Whether two byte strings are equal.
pub fn same(a: &[u8], b: &[u8]) -> (r: bool)
    ensures
        r == (a@ == b@),
{
    if a.len() != b.len() {
        return false;
    }
    let mut i: usize = 0;
    while i < a.len()
        invariant
            i <= a.len(),
            a.len() == b.len(),
            forall|j: int| 0 <= j < i ==> a@[j] == b@[j],
        decreases a.len() - i,
    {
        if a[i] != b[i] {
            return false;
        }
        i += 1;
    }
    assert(a@ =~= b@);
    true
}

/// Whether `bytes` spell the ASCII text `s`.
pub fn is_text(bytes: &[u8], s: &str) -> (r: bool)
    requires
        s.is_ascii(),
    ensures
        r == (bytes@ == ascii(s@)),
{
    same(bytes, text(s))
}

/// Whether `pat` occurs in `s` at `i`.
pub fn occurs_at(s: &[u8], pat: &[u8], i: usize) -> (r: bool)
    ensures
        r == matches_at(s@, pat@, i as int),
{
    if i > s.len() || pat.len() > s.len() - i {
        return false;
    }
    let mut k: usize = 0;
    while k < pat.len()
        invariant
            k <= pat.len(),
            i + pat.len() <= s.len(),
            forall|j: int| 0 <= j < k ==> s@[i + j] == pat@[j],
        decreases pat.len() - k,
    {
        if s[i + k] != pat[k] {
            assert(s@.subrange(i as int, i + pat.len())[k as int] != pat@[k as int]);
            return false;
        }
        k += 1;
    }
    assert(s@.subrange(i as int, i + pat.len()) =~= pat@);
    true
}

/// The index of the first occurrence of `pat` in `s` at or after `from`, or
/// the length of `s`.
pub fn find(s: &[u8], pat: &[u8], from: usize) -> (at: usize)
    ensures
        at == first_match(s@, pat@, from as int),
        at <= s.len(),
        from <= s.len() ==> from <= at,
        at < s.len() ==> at + pat.len() <= s.len(),
{
    if from >= s.len() {
        return s.len();
    }
    let mut i: usize = from;
    while i < s.len()
        invariant
            from <= i <= s.len(),
            forall|j: int| from <= j < i ==> !matches_at(s@, pat@, j),
        decreases s.len() - i,
    {
        if occurs_at(s, pat, i) {
            proof {
                lemma_first_match_is(s@, pat@, from as int, i as int);
            }
            return i;
        }
        i += 1;
    }
    proof {
        lemma_first_match_is(s@, pat@, from as int, i as int);
    }
    i
}

/// Cuts `s` at every occurrence of `pat` and returns all the pieces, empty
/// ones included. An empty `pat` occurs nowhere: `s` is then the one piece.
pub fn split_on(s: &[u8], pat: &[u8]) -> (out: Vec<Vec<u8>>)
    ensures
        rows(out@) == pieces(s@, pat@),
{
    let mut out: Vec<Vec<u8>> = Vec::new();
    if pat.len() == 0 {
        out.push(copy_range(s, 0, s.len()));
        assert(rows(out@) =~= pieces(s@, pat@));
        return out;
    }
    let mut from: usize = 0;
    loop
        invariant
            from <= s.len(),
            pat.len() > 0,
            pieces(s@, pat@) == rows(out@) + pieces_from(s@, pat@, from as int),
        decreases s.len() - from,
    {
        let k = find(s, pat, from);
        let ghost before = rows(out@);
        if k >= s.len() {
            out.push(copy_range(s, from, s.len()));
            assert(rows(out@) =~= before + pieces_from(s@, pat@, from as int));
            return out;
        }
        out.push(copy_range(s, from, k));
        assert(rows(out@) =~= before + seq![s@.subrange(from as int, k as int)]);
        from = k + pat.len();
    }
}

/// The pieces of `all` that are not empty, in their order.
pub fn keep_non_empty(all: Vec<Vec<u8>>) -> (out: Vec<Vec<u8>>)
    ensures
        rows(out@) == rows(all@).filter(|piece: Seq<u8>| non_empty(piece)),
{
    let ghost keep = |piece: Seq<u8>| non_empty(piece);
    let mut out: Vec<Vec<u8>> = Vec::new();
    let mut i: usize = 0;
    proof {
        reveal(Seq::filter);
        assert(rows(all@).take(0) =~= Seq::<Seq<u8>>::empty());
    }
    while i < all.len()
        invariant
            i <= all.len(),
            keep == |piece: Seq<u8>| non_empty(piece),
            rows(out@) == rows(all@).take(i as int).filter(keep),
        decreases all.len() - i,
    {
        let ghost before = rows(out@);
        proof {
            reveal(Seq::filter);
            assert(rows(all@).take(i + 1).drop_last() =~= rows(all@).take(i as int));
        }
        if all[i].len() > 0 {
            out.push(all[i].clone());
            assert(rows(out@) =~= before.push(all@[i as int]@));
        }
        i += 1;
    }
    assert(rows(all@).take(all.len() as int) =~= rows(all@));
    out
}

/// Splits `path` at each `splitter` and drops the empty pieces, so that
/// `/a//b/` split at `/` gives `a` and `b`.
pub fn split_into(path: &[u8], splitter: u8) -> (out: Vec<Vec<u8>>)
    ensures
        rows(out@) == segments(path@, splitter),
{
    let pat: Vec<u8> = vec![splitter];
    assert(pat@ =~= seq![splitter]);
    keep_non_empty(split_on(path, pat.as_slice()))
}

/// Cuts `s` in two at the first occurrence of `pat`.
pub fn cut_once(s: &[u8], pat: &[u8]) -> (r: Option<(Vec<u8>, Vec<u8>)>)
    ensures
        match r {
            Some(pair) => split_once(s@, pat@) == Some((pair.0@, pair.1@)),
            None => split_once(s@, pat@) is None,
        },
{
    let k = find(s, pat, 0);
    if k < s.len() {
        Some((copy_range(s, 0, k), copy_range(s, k + pat.len(), s.len())))
    } else {
        None
    }
}

} // verus!
