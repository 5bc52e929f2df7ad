//! A lenient reader of `multipart/form-data` bodies, and the boundary
//! handling around it.
use vstd::prelude::*;
use vstd::utf8::{decode_utf8, encode_utf8, valid_utf8};

use crate::text::{
    chars_of, find, find_chars, lemma_find_from, occurs_at, split_chars, split_on, starts_with_ignore_ascii_case,
    starts_with_ignore_ascii_case_chars, str_eq, string_of, sub_chars, trim, trim_chars,
};

verus! {

broadcast use vstd::string::group_string_axioms;

// ---------------------------------------------------------------------------
// UTF-8 decoding (std)
// ---------------------------------------------------------------------------

/// What `String::from_utf8_lossy` makes of a byte sequence.
pub uninterp spec fn utf8_lossy(bytes: Seq<u8>) -> Seq<char>;

/// The text of a header block: its decoding when it is valid UTF-8, and
/// otherwise what `String::from_utf8_lossy` makes of it.
#[verifier::opaque]
pub open spec fn lossy_text(bytes: Seq<u8>) -> Seq<char> {
    if valid_utf8(bytes) {
        decode_utf8(bytes)
    } else {
        utf8_lossy(bytes)
    }
}

/// `String::from_utf8_lossy`: the text of `bytes`, with each invalid
/// sequence replaced by U+FFFD. Claimed: the result is `utf8_lossy` of the
/// bytes, and valid UTF-8 comes back decoded unchanged, as std documents.
#[verifier::external_body]
fn utf8_lossy_string(bytes: &[u8]) -> (r: String)
    ensures
        r@ == utf8_lossy(bytes@),
        valid_utf8(bytes@) ==> r@ == decode_utf8(bytes@),
{
    String::from_utf8_lossy(bytes).into_owned()
}

/// `String::from_utf8`: the text of `bytes` when they are valid UTF-8.
/// Claimed: `Some` exactly for valid UTF-8, holding its decoding.
#[verifier::external_body]
pub(crate) fn utf8_string(bytes: Vec<u8>) -> (r: Option<String>)
    ensures
        r is Some <==> valid_utf8(bytes@),
        r matches Some(s) ==> s@ == decode_utf8(bytes@),
{
    String::from_utf8(bytes).ok()
}

// ---------------------------------------------------------------------------
// Specification of the reader
// ---------------------------------------------------------------------------

/// A carriage return or a line feed.
pub open spec fn is_line_break(b: u8) -> bool {
    b == 13u8 || b == 10u8
}

/// `s` without leading CR/LF bytes.
pub open spec fn strip_breaks_start(s: Seq<u8>) -> Seq<u8>
    decreases s.len(),
{
    if s.len() > 0 && is_line_break(s[0]) {
        strip_breaks_start(s.drop_first())
    } else {
        s
    }
}

/// `s` without trailing CR/LF bytes.
pub open spec fn strip_breaks_end(s: Seq<u8>) -> Seq<u8>
    decreases s.len(),
{
    if s.len() > 0 && is_line_break(s.last()) {
        strip_breaks_end(s.drop_last())
    } else {
        s
    }
}

/// `s` without CR/LF bytes at either end.
pub open spec fn strip_breaks(s: Seq<u8>) -> Seq<u8> {
    strip_breaks_end(strip_breaks_start(s))
}

/// The delimiter that precedes every part: `--` and the boundary.
pub open spec fn delimiter_of(boundary: Seq<char>) -> Seq<u8> {
    seq![45u8, 45u8] + encode_utf8(boundary)
}

/// The positions of the delimiter in `body` from `i` on, found left to right
/// without overlap.
pub open spec fn delimiter_positions(body: Seq<u8>, delim: Seq<u8>, i: int) -> Seq<int>
    decreases body.len() - i,
{
    if i < 0 || i >= body.len() || delim.len() == 0 {
        Seq::<int>::empty()
    } else if occurs_at(body, delim, i) {
        seq![i] + delimiter_positions(body, delim, i + delim.len())
    } else {
        delimiter_positions(body, delim, i + 1)
    }
}

/// Where the headers of a part end and its data begins: at the first blank
/// line written with CRLF, else at the first one written with LF.
pub open spec fn header_split(part: Seq<u8>) -> Option<(int, int)> {
    match find(part, seq![13u8, 10u8, 13u8, 10u8]) {
        Some(p) => Some((p, p + 4)),
        None => match find(part, seq![10u8, 10u8]) {
            Some(p) => Some((p, p + 2)),
            None => None,
        },
    }
}

/// The text between `key` and the next `"` on a header line.
pub open spec fn quoted_value(line: Seq<char>, key: Seq<char>) -> Option<Seq<char>> {
    match find(line, key) {
        Some(i) => {
            let rest = line.skip(i + key.len());
            match find(rest, seq!['"']) {
                Some(j) => Some(rest.take(j)),
                None => None,
            }
        },
        None => None,
    }
}

/// The field name and file name that the `Content-Disposition` lines among
/// `lines` give, a later line overriding an earlier one.
pub open spec fn disposition_fields(lines: Seq<Seq<char>>) -> (Seq<char>, Option<Seq<char>>)
    decreases lines.len(),
{
    if lines.len() == 0 {
        (Seq::<char>::empty(), None)
    } else {
        let prev = disposition_fields(lines.drop_last());
        let line = trim(lines.last());
        if starts_with_ignore_ascii_case(line, "content-disposition:"@) {
            (
                match quoted_value(line, "name=\""@) {
                    Some(v) => v,
                    None => prev.0,
                },
                match quoted_value(line, "filename=\""@) {
                    Some(v) => Some(v),
                    None => prev.1,
                },
            )
        } else {
            prev
        }
    }
}

/// The part that one segment between two delimiters holds: its field name,
/// file name and data, when it has a header block and a non-empty name.
pub open spec fn part_of(segment: Seq<u8>) -> Option<(Seq<char>, Option<Seq<char>>, Seq<u8>)> {
    let part = strip_breaks(segment);
    match header_split(part) {
        Some((he, ds)) => {
            let fields = disposition_fields(split_on(lossy_text(part.take(he)), '\n'));
            if fields.0.len() > 0 {
                Some((fields.0, fields.1, part.skip(ds)))
            } else {
                None
            }
        },
        None => None,
    }
}

/// The parts found between consecutive delimiter positions `pos`.
pub open spec fn parts_between(body: Seq<u8>, delim: Seq<u8>, pos: Seq<int>) -> Seq<
    (Seq<char>, Option<Seq<char>>, Seq<u8>),
>
    decreases pos.len(),
{
    if pos.len() < 2 {
        Seq::empty()
    } else {
        let rest = parts_between(body, delim, pos.drop_first());
        match part_of(body.subrange(pos[0] + delim.len(), pos[1])) {
            Some(p) => seq![p] + rest,
            None => rest,
        }
    }
}

/// The parts of a multipart body with the given boundary.
pub open spec fn lenient_multipart(body: Seq<u8>, boundary: Seq<char>) -> Seq<
    (Seq<char>, Option<Seq<char>>, Seq<u8>),
> {
    let delim = delimiter_of(boundary);
    parts_between(body, delim, delimiter_positions(body, delim, 0))
}

/// A part as plain values.
pub open spec fn part_view(p: (String, Option<String>, Vec<u8>)) -> (
    Seq<char>,
    Option<Seq<char>>,
    Seq<u8>,
) {
    (
        p.0@,
        match p.1 {
            Some(f) => Some(f@),
            None => None,
        },
        p.2@,
    )
}

// ---------------------------------------------------------------------------
// Byte helpers
// ---------------------------------------------------------------------------

pub(crate) fn sub_bytes(s: &[u8], from: usize, to: usize) -> (r: Vec<u8>)
    requires
        from <= to <= s@.len(),
    ensures
        r@ == s@.subrange(from as int, to as int),
{
    let mut out: Vec<u8> = Vec::new();
    let mut i = from;
    while i < to
        invariant
            from <= i <= to <= s@.len(),
            out@ == s@.subrange(from as int, i as int),
        decreases to - i,
    {
        out.push(s[i]);
        assert(s@.subrange(from as int, i + 1) =~= s@.subrange(from as int, i as int).push(
            s@[i as int],
        ));
        i = i + 1;
    }
    out
}

fn occurs_at_bytes(s: &[u8], p: &[u8], at: usize) -> (r: bool)
    ensures
        r == occurs_at(s@, p@, at as int),
{
    if at > s.len() || p.len() > s.len() - at {
        return false;
    }
    let mut i: usize = 0;
    while i < p.len()
        invariant
            p.len() == p@.len(),
            s.len() == s@.len(),
            at + p@.len() <= s@.len(),
            i <= p@.len(),
            forall|k: int| 0 <= k < i ==> s@[at + k] == p@[k],
        decreases p.len() - i,
    {
        if s[at + i] != p[i] {
            assert(s@.subrange(at as int, at + p@.len())[i as int] != p@[i as int]);
            return false;
        }
        i = i + 1;
    }
    assert(s@.subrange(at as int, at + p@.len()) =~= p@);
    true
}

pub(crate) fn find_bytes(s: &[u8], p: &[u8]) -> (r: Option<usize>)
    ensures
        r matches Some(i) ==> find(s@, p@) == Some(i as int),
        r is None ==> find(s@, p@) is None,
{
    if p.len() > s.len() {
        return None;
    }
    let last = s.len() - p.len();
    let mut i: usize = 0;
    loop
        invariant
            i <= last,
            last + p@.len() == s@.len(),
            find(s@, p@) == find_from_u8(s@, p@, i as int),
        decreases last - i,
    {
        if occurs_at_bytes(s, p, i) {
            return Some(i);
        }
        if i == last {
            assert(find_from_u8(s@, p@, i + 1) is None);
            return None;
        }
        i = i + 1;
    }
}

spec fn find_from_u8(s: Seq<u8>, p: Seq<u8>, i: int) -> Option<int> {
    crate::text::find_from(s, p, i)
}

/// `s` without CR/LF bytes at either end.
fn strip_breaks_bytes(s: &[u8]) -> (r: Vec<u8>)
    ensures
        r@ == strip_breaks(s@),
{
    let n = s.len();
    let mut i: usize = 0;
    assert(s@.skip(0) =~= s@);
    while i < n && (s[i] == 13u8 || s[i] == 10u8)
        invariant
            i <= n == s@.len(),
            strip_breaks_start(s@) == strip_breaks_start(s@.skip(i as int)),
        decreases n - i,
    {
        assert(s@.skip(i as int).drop_first() =~= s@.skip(i + 1));
        i = i + 1;
    }
    let mut j: usize = n;
    while j > i && (s[j - 1] == 13u8 || s[j - 1] == 10u8)
        invariant
            i <= j <= n == s@.len(),
            strip_breaks_start(s@) == s@.skip(i as int),
            strip_breaks_end(s@.subrange(i as int, n as int)) == strip_breaks_end(
                s@.subrange(i as int, j as int),
            ),
        decreases j - i,
    {
        assert(s@.subrange(i as int, j as int).drop_last() =~= s@.subrange(i as int, j - 1));
        j = j - 1;
    }
    assert(s@.skip(i as int) =~= s@.subrange(i as int, n as int));
    sub_bytes(s, i, j)
}

// ---------------------------------------------------------------------------
// The reader
// ---------------------------------------------------------------------------

/// The text between `key` and the next `"` on a header line.
fn quoted_value_chars(line: &Vec<char>, key: &Vec<char>) -> (r: Option<Vec<char>>)
    ensures
        r matches Some(v) ==> quoted_value(line@, key@) == Some(v@),
        r is None ==> quoted_value(line@, key@) is None,
{
    proof {
        lemma_find_from(line@, key@, 0);
    }
    match find_chars(line, key) {
        Some(i) => {
            assert(i + key@.len() <= line@.len());
            assert(line@.len() == line.len() && key@.len() == key.len());
            let rest = sub_chars(line, i + key.len(), line.len());
            assert(rest@ =~= line@.skip(i + key@.len()));
            let mut quote: Vec<char> = Vec::new();
            quote.push('"');
            assert(quote@ =~= seq!['"']);
            proof {
                lemma_find_from(rest@, quote@, 0);
            }
            match find_chars(&rest, &quote) {
                Some(j) => {
                    let v = sub_chars(&rest, 0, j);
                    assert(v@ =~= rest@.take(j as int));
                    Some(v)
                },
                None => None,
            }
        },
        None => None,
    }
}

/// The field name, file name and data of one segment between delimiters.
fn read_part(segment: &[u8]) -> (r: Option<(String, Option<String>, Vec<u8>)>)
    ensures
        r matches Some(p) ==> part_of(segment@) == Some(part_view(p)),
        r is None ==> part_of(segment@) is None,
{
    let part = strip_breaks_bytes(segment);
    let crlf2: [u8; 4] = [13u8, 10u8, 13u8, 10u8];
    let lf2: [u8; 2] = [10u8, 10u8];
    assert(crlf2@ =~= seq![13u8, 10u8, 13u8, 10u8]);
    assert(lf2@ =~= seq![10u8, 10u8]);
    proof {
        lemma_find_from(part@, crlf2@, 0);
        lemma_find_from(part@, lf2@, 0);
    }
    let crlf2_s: &[u8] = &crlf2;
    let lf2_s: &[u8] = &lf2;
    assert(crlf2_s@ == crlf2@ && lf2_s@ == lf2@);
    let (headers_end, data_start) = match find_bytes(part.as_slice(), crlf2_s) {
        Some(p) => {
            assert(p + 4 <= part@.len() == part.len());
            (p, p + 4)
        },
        None => match find_bytes(part.as_slice(), lf2_s) {
            Some(p) => {
                assert(p + 2 <= part@.len() == part.len());
                (p, p + 2)
            },
            None => {
                return None;
            },
        },
    };
    let header_bytes = sub_bytes(part.as_slice(), 0, headers_end);
    assert(header_bytes@ =~= part@.take(headers_end as int));
    let header_text = utf8_lossy_string(header_bytes.as_slice());
    proof {
        reveal(lossy_text);
    }
    let header_chars = chars_of(header_text.as_str());
    let lines = split_chars(&header_chars, '\n');
    let ghost lv = split_on(header_chars@, '\n');
    let cd = chars_of("content-disposition:");
    let name_key = chars_of("name=\"");
    let filename_key = chars_of("filename=\"");
    let mut name: Vec<char> = Vec::new();
    let mut filename: Option<Vec<char>> = None;
    let mut k: usize = 0;
    assert(lv.take(0) =~= Seq::<Seq<char>>::empty());
    while k < lines.len()
        invariant
            k <= lines@.len() == lv.len(),
            forall|m: int| 0 <= m < lines@.len() ==> #[trigger] lines@[m]@ == lv[m],
            cd@ == "content-disposition:"@,
            name_key@ == "name=\""@,
            filename_key@ == "filename=\""@,
            disposition_fields(lv.take(k as int)) == (name@, match filename {
                Some(f) => Some(f@),
                None => None,
            }),
        decreases lines@.len() - k,
    {
        assert(lv.take(k + 1).drop_last() =~= lv.take(k as int));
        assert(lv.take(k + 1).last() == lines@[k as int]@);
        let line = trim_chars(&lines[k]);
        if starts_with_ignore_ascii_case_chars(&line, &cd) {
            match quoted_value_chars(&line, &name_key) {
                Some(v) => {
                    name = v;
                },
                None => {},
            }
            match quoted_value_chars(&line, &filename_key) {
                Some(v) => {
                    filename = Some(v);
                },
                None => {},
            }
        }
        k = k + 1;
    }
    assert(lv.take(lv.len() as int) =~= lv);
    if name.len() == 0 {
        return None;
    }
    let data = sub_bytes(part.as_slice(), data_start, part.len());
    assert(data@ =~= part@.skip(data_start as int));
    let fname = match filename {
        Some(f) => Some(string_of(&f)),
        None => None,
    };
    Some((string_of(&name), fname, data))
}

/// The delimiter bytes `--` followed by the boundary.
fn delimiter_bytes(boundary: &str) -> (r: Vec<u8>)
    ensures
        r@ == delimiter_of(boundary@),
{
    let b = boundary.as_bytes();
    let mut out: Vec<u8> = Vec::new();
    out.push(45u8);
    out.push(45u8);
    let mut i: usize = 0;
    while i < b.len()
        invariant
            i <= b@.len(),
            b@ == encode_utf8(boundary@),
            out@ == seq![45u8, 45u8] + b@.take(i as int),
        decreases b.len() - i,
    {
        out.push(b[i]);
        assert(seq![45u8, 45u8] + b@.take(i + 1) =~= (seq![45u8, 45u8] + b@.take(i as int)).push(
            b@[i as int],
        ));
        i = i + 1;
    }
    assert(b@.take(b@.len() as int) =~= b@);
    out
}

#[verifier::rlimit(40)]
#[verifier::spinoff_prover]
/// Splits a `multipart/form-data` body into its parts without failing on
/// malformed input: each part is its field name, its file name if any and
/// its data; a part without a header block or without a name is skipped.
pub fn parse_lenient_multipart(body: &[u8], boundary: &str) -> (r: Vec<(String, Option<String>, Vec<u8>)>)
    ensures
        r@.len() == lenient_multipart(body@, boundary@).len(),
        forall|k: int|
            0 <= k < r@.len() ==> part_view(#[trigger] r@[k]) == lenient_multipart(
                body@,
                boundary@,
            )[k],
{
    let delim = delimiter_bytes(boundary);
    let dl = delim.len();
    let ghost d = delim@;
    // Find the delimiters, left to right, without overlap.
    let mut positions: Vec<usize> = Vec::new();
    let ghost mut pv: Seq<int> = Seq::empty();
    let mut i: usize = 0;
    while i < body.len()
        invariant
            dl == d.len() >= 2,
            delim@ == d,
            i <= body@.len(),
            body.len() == body@.len(),
            positions@.len() == pv.len(),
            forall|k: int| 0 <= k < pv.len() ==> #[trigger] pv[k] == positions@[k] as int,
            delimiter_positions(body@, d, 0) == pv + delimiter_positions(body@, d, i as int),
            forall|k: int| 0 <= k < pv.len() ==> #[trigger] pv[k] + dl <= i,
            forall|k: int| 0 <= k < pv.len() - 1 ==> #[trigger] pv[k] + dl <= pv[k + 1],
        decreases body.len() - i,
    {
        let found = occurs_at_bytes(body, delim.as_slice(), i);
        assert(!(i < 0 || i >= body@.len() || d.len() == 0));
        if found {
            assert(occurs_at(body@, d, i as int));
            assert(delimiter_positions(body@, d, i as int) == seq![i as int]
                + delimiter_positions(body@, d, i + dl));
            assert(pv + (seq![i as int] + delimiter_positions(body@, d, i + dl)) =~= pv.push(
                i as int,
            ) + delimiter_positions(body@, d, i + dl));
            positions.push(i);
            proof {
                pv = pv.push(i as int);
            }
            i = i + dl;
        } else {
            assert(delimiter_positions(body@, d, i as int) == delimiter_positions(
                body@,
                d,
                i + 1,
            ));
            i = i + 1;
        }
    }
    assert(delimiter_positions(body@, d, i as int) =~= Seq::<int>::empty());
    assert(pv =~= delimiter_positions(body@, d, 0));
    // Read the segment between each pair of consecutive delimiters.
    let mut parts: Vec<(String, Option<String>, Vec<u8>)> = Vec::new();
    let ghost mut acc: Seq<(Seq<char>, Option<Seq<char>>, Seq<u8>)> = Seq::empty();
    if positions.len() < 2 {
        return parts;
    }
    let mut k: usize = 0;
    assert(pv.skip(0) =~= pv);
    assert(acc + parts_between(body@, d, pv) =~= parts_between(body@, d, pv));
    while k + 1 < positions.len()
        invariant
            dl == d.len(),
            body.len() == body@.len(),
            positions@.len() == pv.len() >= 2,
            k + 1 <= pv.len(),
            forall|m: int| 0 <= m < pv.len() ==> #[trigger] pv[m] == positions@[m] as int,
            forall|m: int| 0 <= m < pv.len() ==> #[trigger] pv[m] + dl <= body@.len(),
            forall|m: int| 0 <= m < pv.len() - 1 ==> #[trigger] pv[m] + dl <= pv[m + 1],
            parts@.len() == acc.len(),
            forall|m: int| 0 <= m < acc.len() ==> #[trigger] part_view(parts@[m]) == acc[m],
            parts_between(body@, d, pv) == acc + parts_between(body@, d, pv.skip(k as int)),
        decreases pv.len() - k,
    {
        assert(pv[k as int] + dl <= pv[k + 1]);
        assert(pv[k + 1] + dl <= body@.len());
        let start = positions[k] + dl;
        let end = positions[k + 1];
        let segment = sub_bytes(body, start, end);
        let ghost rest = pv.skip(k as int);
        assert(rest[0] == pv[k as int]);
        assert(rest[1] == pv[k + 1]);
        assert(rest.drop_first() =~= pv.skip(k + 1));
        assert(parts_between(body@, d, rest) == match part_of(segment@) {
            Some(p) => seq![p] + parts_between(body@, d, pv.skip(k + 1)),
            None => parts_between(body@, d, pv.skip(k + 1)),
        });
        match read_part(segment.as_slice()) {
            Some(p) => {
                parts.push(p);
                proof {
                    assert(acc + (seq![part_view(p)] + parts_between(body@, d, pv.skip(k + 1)))
                        =~= acc.push(part_view(p)) + parts_between(body@, d, pv.skip(k + 1)));
                    acc = acc.push(part_view(p));
                }
            },
            None => {},
        }
        k = k + 1;
    }
    assert(parts_between(body@, d, pv.skip(k as int)) =~= Seq::empty());
    assert(acc + Seq::empty() =~= acc);
    parts
}

} // verus!
