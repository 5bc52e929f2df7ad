//! How a form body is framed, and that the lenient reader gives back the
//! fields of a body framed in the usual way.
use vstd::prelude::*;
use vstd::utf8::{
    decode_utf8, encode_utf8, encode_utf8_decode_utf8, encode_utf8_valid_utf8, is_ascii_chars,
    is_ascii_chars_encode_utf8, valid_utf8,
};

use crate::multipart::{
    delimiter_of, delimiter_positions, disposition_fields, header_split, is_line_break,
    lenient_multipart, lossy_text, part_of, parts_between, quoted_value, strip_breaks,
    strip_breaks_end, strip_breaks_start,
};
use crate::text::{
    ascii_lower, eq_ignore_ascii_case, find, find_from, is_unicode_whitespace, lemma_find_first,
    lemma_find_from, lemma_split_no_sep, lemma_trim_fixed, occurs_at, split_on,
    starts_with_ignore_ascii_case, trim,
};

verus! {

broadcast use vstd::string::group_string_axioms;

/// A character that a field name of this framing may hold: printable
/// ASCII other than `"`.
pub open spec fn is_name_char(c: char) -> bool {
    ' ' <= c && c <= '~' && c != '"'
}

/// The header line of a form field.
pub open spec fn field_header(name: Seq<char>) -> Seq<char> {
    "Content-Disposition: form-data; name=\""@ + name + "\""@
}

/// One field as it follows its delimiter: a line break, its header, a
/// blank line, its data and a line break.
pub open spec fn field_segment(name: Seq<char>, data: Seq<u8>) -> Seq<u8> {
    seq![13u8, 10u8] + encode_utf8(field_header(name)) + seq![13u8, 10u8, 13u8, 10u8] + data + seq![
        13u8,
        10u8,
    ]
}

/// A field that this framing carries through the reader: a non-empty name
/// of name characters, and data that is not empty and does not end in a
/// line break.
pub open spec fn framable_field(name: Seq<char>, data: Seq<u8>) -> bool {
    &&& name.len() > 0
    &&& forall|i: int| 0 <= i < name.len() ==> is_name_char(#[trigger] name[i])
    &&& data.len() > 0
    &&& !is_line_break(data.last())
}

/// The header line of a field of this framing.
proof fn lemma_header_line(name: Seq<char>)
    requires
        forall|i: int| 0 <= i < name.len() ==> is_name_char(#[trigger] name[i]),
    ensures
        field_header(name).len() == name.len() + 39,
        is_ascii_chars(field_header(name)),
        forall|i: int|
            0 <= i < field_header(name).len() ==> #[trigger] field_header(name)[i] != '\r'
                && field_header(name)[i] != '\n',
        forall|i: int|
            0 <= i < field_header(name).len() ==> (#[trigger] field_header(name)[i] == '"' <==> (i
                == 37 || i == name.len() + 38)),
        field_header(name).skip(38) == name + "\""@,
        field_header(name)[0] == 'C',
        field_header(name)[28] == 't',
{
    reveal_strlit("Content-Disposition: form-data; name=\"");
    reveal_strlit("\"");
    let p = "Content-Disposition: form-data; name=\""@;
    let line = field_header(name);
    assert(p.len() == 38);
    assert forall|i: int| 0 <= i < line.len() implies '\0' <= #[trigger] line[i] <= '\u{7f}' && line[i]
        != '\r' && line[i] != '\n' && (line[i] == '"' <==> (i == 37 || i == name.len() + 38)) by {
        if i < 38 {
            assert(line[i] == p[i]);
        } else if i < 38 + name.len() {
            assert(line[i] == name[i - 38]);
            assert(is_name_char(name[i - 38]));
        }
    }
    assert(line.skip(38) =~= name + "\""@);
}

/// The reader reads one segment of this framing as its field.
proof fn lemma_segment_part(name: Seq<char>, data: Seq<u8>)
    requires
        framable_field(name, data),
    ensures
        part_of(field_segment(name, data)) == Some((name, None::<Seq<char>>, data)),
{
    let line = field_header(name);
    lemma_header_line(name);
    let hdr = encode_utf8(line);
    is_ascii_chars_encode_utf8(line);
    let seg = field_segment(name, data);
    let crlf2 = seq![13u8, 10u8, 13u8, 10u8];
    let part = hdr + crlf2 + data;
    // The line breaks around the part are stripped.
    assert(hdr[0] == 67u8);
    assert(seg.drop_first().drop_first() =~= part + seq![13u8, 10u8]);
    assert(strip_breaks_start(part + seq![13u8, 10u8]) == part + seq![13u8, 10u8]);
    assert(strip_breaks_start(seg.drop_first()) == strip_breaks_start(seg.drop_first().drop_first()));
    assert(strip_breaks_start(seg) == part + seq![13u8, 10u8]);
    assert((part + seq![13u8, 10u8]).drop_last() =~= part + seq![13u8]);
    assert((part + seq![13u8]).drop_last() =~= part);
    assert(part.last() == data.last());
    assert((part + seq![13u8, 10u8]).last() == 10u8);
    assert(strip_breaks_end(part + seq![13u8, 10u8]) == strip_breaks_end(part + seq![13u8]));
    assert((part + seq![13u8]).last() == 13u8);
    assert(strip_breaks_end(part + seq![13u8]) == strip_breaks_end(part));
    assert(strip_breaks_end(part) == part);
    assert(strip_breaks(seg) == part);
    // The header block ends at the first blank line.
    assert forall|m: int| 0 <= m < hdr.len() implies !occurs_at(part, crlf2, m) by {
        assert(part[m] == hdr[m]);
        assert(line[m] as u8 == hdr[m]);
        assert(line[m] != '\r');
        if occurs_at(part, crlf2, m) {
            assert(part.subrange(m, m + 4)[0] == part[m]);
        }
    }
    assert(part.subrange(hdr.len() as int, hdr.len() + 4int) =~= crlf2);
    lemma_find_first(part, crlf2, 0, hdr.len() as int);
    assert(header_split(part) == Some((hdr.len() as int, hdr.len() + 4int)));
    // The header block reads as the header line.
    assert(part.take(hdr.len() as int) =~= hdr);
    encode_utf8_valid_utf8(line);
    encode_utf8_decode_utf8(line);
    reveal(lossy_text);
    assert(lossy_text(part.take(hdr.len() as int)) == line);
    assert(!line.contains('\n')) by {
        if line.contains('\n') {
            let i = choose|i: int| 0 <= i < line.len() && line[i] == '\n';
            assert(line[i] != '\n');
        }
    }
    lemma_split_no_sep(line, '\n');
    assert(split_on(line, '\n') == seq![line]);
    // The line is a disposition line that names the field and no file.
    reveal_strlit("Content-Disposition: form-data; name=\"");
    reveal_strlit("content-disposition:");
    reveal_strlit("name=\"");
    reveal_strlit("filename=\"");
    reveal_strlit("\"");
    let p = "Content-Disposition: form-data; name=\""@;
    assert(p.len() == 38);
    assert(line.last() == '"');
    lemma_trim_fixed(line);
    let cd = "content-disposition:"@;
    assert forall|i: int| 0 <= i < 20 implies ascii_lower(#[trigger] line.take(20)[i]) == ascii_lower(
        cd[i],
    ) by {
        assert(line.take(20)[i] == p[i]);
    }
    assert(starts_with_ignore_ascii_case(trim(line), cd));
    let nk = "name=\""@;
    assert(line.subrange(32, 38) =~= nk);
    assert forall|m: int| 0 <= m < 32 implies !occurs_at(line, nk, m) by {
        if occurs_at(line, nk, m) {
            assert(line.subrange(m, m + 6)[0] == p[m]);
            assert(line.subrange(m, m + 6)[1] == p[m + 1]);
        }
    }
    lemma_find_first(line, nk, 0, 32);
    let rest = line.skip(38);
    assert(rest =~= name + "\""@);
    assert forall|m: int| 0 <= m < name.len() implies !occurs_at(rest, seq!['"'], m) by {
        if occurs_at(rest, seq!['"'], m) {
            assert(rest.subrange(m, m + 1)[0] == rest[m]);
            assert(rest[m] == line[m + 38]);
        }
    }
    assert(rest.subrange(name.len() as int, name.len() + 1int) =~= seq!['"']);
    lemma_find_first(rest, seq!['"'], 0, name.len() as int);
    assert(rest.take(name.len() as int) =~= name);
    assert(quoted_value(line, nk) == Some(name));
    let fk = "filename=\""@;
    lemma_find_from(line, fk, 0);
    if let Some(m) = find(line, fk) {
        assert(line.subrange(m, m + 10)[9] == fk[9]);
        assert(line[m + 9] == '"');
        assert(m != 28) by {
            if m == 28 {
                assert(line.subrange(m, m + 10)[0] == line[28]);
            }
        }
        assert(line.skip(m + 10) =~= Seq::<char>::empty());
    }
    assert(quoted_value(line, fk) is None);
    assert(disposition_fields(seq![line].drop_last()) == (Seq::<char>::empty(), None::<Seq<char>>)) by {
        assert(seq![line].drop_last() =~= Seq::<Seq<char>>::empty());
    }
    assert(disposition_fields(seq![line]) == (name, None::<Seq<char>>));
    assert(part.skip(hdr.len() + 4int) =~= data);
}

/// The end of a form body after its last delimiter.
pub open spec fn closing() -> Seq<u8> {
    seq![45u8, 45u8, 13u8, 10u8]
}

/// A form body: each field after a delimiter, then the closing delimiter.
pub open spec fn form_body(boundary: Seq<char>, fields: Seq<(Seq<char>, Seq<u8>)>) -> Seq<u8>
    decreases fields.len(),
{
    if fields.len() == 0 {
        delimiter_of(boundary) + closing()
    } else {
        delimiter_of(boundary) + field_segment(fields[0].0, fields[0].1) + form_body(
            boundary,
            fields.drop_first(),
        )
    }
}

/// The delimiter does not occur in a segment, not even running on into
/// the delimiter that follows it.
pub open spec fn delimiter_free(segment: Seq<u8>, delim: Seq<u8>) -> bool {
    forall|m: int| 0 <= m < segment.len() ==> !occurs_at(segment + delim, delim, m)
}

/// Fields that a body framed with `boundary` carries through the reader:
/// each field is framable and free of the delimiter, and the delimiter does
/// not occur in the closing.
pub open spec fn framable(boundary: Seq<char>, fields: Seq<(Seq<char>, Seq<u8>)>) -> bool {
    &&& forall|k: int|
        0 <= k < fields.len() ==> framable_field(#[trigger] fields[k].0, fields[k].1) && delimiter_free(
            field_segment(fields[k].0, fields[k].1),
            delimiter_of(boundary),
        )
    &&& forall|m: int| 0 <= m < 4 ==> !occurs_at(closing(), delimiter_of(boundary), m)
}

/// Positions moved by `off`.
pub open spec fn shifted(pos: Seq<int>, off: int) -> Seq<int> {
    pos.map_values(|p: int| p + off)
}

/// The fields as the reader gives them: without file names.
pub open spec fn plain_fields(fields: Seq<(Seq<char>, Seq<u8>)>) -> Seq<
    (Seq<char>, Option<Seq<char>>, Seq<u8>),
> {
    fields.map_values(|f: (Seq<char>, Seq<u8>)| (f.0, None::<Seq<char>>, f.1))
}

/// The positions of the delimiters of a form body.
pub open spec fn frame_positions(boundary: Seq<char>, fields: Seq<(Seq<char>, Seq<u8>)>) -> Seq<int>
    decreases fields.len(),
{
    if fields.len() == 0 {
        seq![0int]
    } else {
        seq![0int] + shifted(
            frame_positions(boundary, fields.drop_first()),
            (delimiter_of(boundary).len() + field_segment(fields[0].0, fields[0].1).len()) as int,
        )
    }
}

/// Scanning over positions where the delimiter does not occur.
proof fn lemma_positions_skip(body: Seq<u8>, d: Seq<u8>, i: int, j: int)
    requires
        0 <= i <= j <= body.len(),
        d.len() > 0,
        forall|m: int| i <= m < j ==> !occurs_at(body, d, m),
    ensures
        delimiter_positions(body, d, i) == delimiter_positions(body, d, j),
    decreases j - i,
{
    if i < j {
        lemma_positions_skip(body, d, i + 1, j);
    }
}

/// The delimiters of `x + y` from `|x| + m` on are those of `y` from `m`
/// on, moved by `|x|`.
proof fn lemma_positions_shift(x: Seq<u8>, y: Seq<u8>, d: Seq<u8>, m: int)
    requires
        0 <= m,
        d.len() > 0,
    ensures
        delimiter_positions(x + y, d, x.len() + m) == shifted(delimiter_positions(y, d, m), x.len() as int),
    decreases y.len() - m,
{
    let xy = x + y;
    let i = x.len() + m;
    if m >= y.len() {
        assert(shifted(Seq::<int>::empty(), x.len() as int) =~= Seq::<int>::empty());
    } else {
        if m + d.len() <= y.len() {
            assert(xy.subrange(i, i + d.len()) =~= y.subrange(m, m + d.len()));
        }
        assert(occurs_at(xy, d, i) == occurs_at(y, d, m));
        if occurs_at(y, d, m) {
            lemma_positions_shift(x, y, d, m + d.len());
            assert(shifted(seq![m] + delimiter_positions(y, d, m + d.len()), x.len() as int) =~= seq![
                i,
            ] + shifted(delimiter_positions(y, d, m + d.len()), x.len() as int));
        } else {
            lemma_positions_shift(x, y, d, m + 1);
        }
    }
}

/// The parts between moved positions of `x + y` are those of `y`.
proof fn lemma_parts_shift(x: Seq<u8>, y: Seq<u8>, d: Seq<u8>, pos: Seq<int>)
    requires
        forall|k: int|
            0 <= k < pos.len() - 1 ==> 0 <= #[trigger] pos[k] && pos[k] + d.len() <= pos[k + 1]
                <= y.len(),
    ensures
        parts_between(x + y, d, shifted(pos, x.len() as int)) == parts_between(y, d, pos),
    decreases pos.len(),
{
    if pos.len() >= 2 {
        let sp = shifted(pos, x.len() as int);
        assert(sp.drop_first() =~= shifted(pos.drop_first(), x.len() as int));
        assert(pos[0] + d.len() <= pos[1] <= y.len());
        assert((x + y).subrange(sp[0] + d.len(), sp[1]) =~= y.subrange(pos[0] + d.len(), pos[1]));
        assert forall|k: int|
            0 <= k < pos.drop_first().len() - 1 implies 0 <= #[trigger] pos.drop_first()[k]
            && pos.drop_first()[k] + d.len() <= pos.drop_first()[k + 1] <= y.len() by {
            assert(pos.drop_first()[k] == pos[k + 1]);
            assert(pos.drop_first()[k + 1] == pos[k + 2]);
        }
        lemma_parts_shift(x, y, d, pos.drop_first());
    }
}

/// Where the reader finds the delimiters of a form body, and what it reads
/// between them.
proof fn lemma_form_frame(boundary: Seq<char>, fields: Seq<(Seq<char>, Seq<u8>)>)
    requires
        framable(boundary, fields),
    ensures
        ({
            let body = form_body(boundary, fields);
            let d = delimiter_of(boundary);
            let pos = frame_positions(boundary, fields);
            &&& delimiter_positions(body, d, 0) == pos
            &&& pos.len() == fields.len() + 1
            &&& pos[0] == 0
            &&& forall|k: int| 0 <= k < pos.len() ==> 0 <= #[trigger] pos[k] && pos[k] + d.len() + 4 <= body.len()
            &&& forall|k: int| 0 <= k < pos.len() - 1 ==> #[trigger] pos[k] + d.len() <= pos[k + 1]
            &&& parts_between(body, d, pos) == plain_fields(fields)
        }),
    decreases fields.len(),
{
    let body = form_body(boundary, fields);
    let d = delimiter_of(boundary);
    let pos = frame_positions(boundary, fields);
    assert(d.len() >= 2);
    if fields.len() == 0 {
        assert(body.subrange(0, d.len() as int) =~= d);
        assert forall|m: int| d.len() <= m < body.len() implies !occurs_at(body, d, m) by {
            if m + d.len() <= body.len() {
                assert(body.subrange(m, m + d.len()) =~= closing().subrange(m - d.len(), m - d.len() + d.len()));
                assert(!occurs_at(closing(), d, m - d.len()));
            }
        }
        lemma_positions_skip(body, d, d.len() as int, body.len() as int);
        assert(plain_fields(fields) =~= Seq::<(Seq<char>, Option<Seq<char>>, Seq<u8>)>::empty());
    } else {
        let rest = fields.drop_first();
        let name = fields[0].0;
        let data = fields[0].1;
        let seg = field_segment(name, data);
        let x = d + seg;
        let body2 = form_body(boundary, rest);
        assert(framable(boundary, rest)) by {
            assert forall|k: int| 0 <= k < rest.len() implies framable_field(#[trigger] rest[k].0, rest[k].1)
                && delimiter_free(field_segment(rest[k].0, rest[k].1), d) by {
                assert(rest[k] == fields[k + 1]);
            }
        }
        assert(framable_field(fields[0].0, fields[0].1) && delimiter_free(seg, d));
        lemma_form_frame(boundary, rest);
        let pos2 = frame_positions(boundary, rest);
        assert(body == x + body2);
        // The first delimiter opens the body.
        assert(body.subrange(0, d.len() as int) =~= d);
        // No delimiter starts inside the first segment.
        assert(body2.len() >= d.len());
        assert(body2.subrange(0, d.len() as int) =~= d) by {
            if rest.len() == 0 {
                assert(body2 == d + closing());
            } else {
                assert(body2 == d + field_segment(rest[0].0, rest[0].1) + form_body(
                    boundary,
                    rest.drop_first(),
                ));
            }
        }
        assert(body.subrange(d.len() as int, (x.len() + d.len()) as int) =~= seg + d);
        assert forall|m: int| d.len() <= m < x.len() implies !occurs_at(body, d, m) by {
            if occurs_at(body, d, m) {
                assert(body.subrange(m, m + d.len()) =~= (seg + d).subrange(
                    m - d.len(),
                    m - d.len() + d.len(),
                ));
                assert(occurs_at(seg + d, d, m - d.len()));
            }
        }
        lemma_positions_skip(body, d, d.len() as int, x.len() as int);
        lemma_positions_shift(x, body2, d, 0);
        assert(delimiter_positions(body, d, 0) == seq![0int] + delimiter_positions(body, d, d.len() as int));
        assert(delimiter_positions(body, d, 0) =~= pos);
        // What the reader reads.
        lemma_segment_part(name, data);
        assert(body.subrange(d.len() as int, x.len() as int) =~= seg);
        assert(pos.drop_first() =~= shifted(pos2, x.len() as int));
        lemma_parts_shift(x, body2, d, pos2);
        assert(plain_fields(fields) =~= seq![(name, None::<Seq<char>>, data)] + plain_fields(rest));
        assert forall|k: int| 0 <= k < pos.len() implies 0 <= #[trigger] pos[k] && pos[k] + d.len() + 4
            <= body.len() by {
            if k > 0 {
                assert(pos[k] == pos2[k - 1] + x.len());
            }
        }
        assert forall|k: int| 0 <= k < pos.len() - 1 implies #[trigger] pos[k] + d.len() <= pos[k + 1] by {
            if k > 0 {
                assert(pos[k] == pos2[k - 1] + x.len());
                assert(pos[k + 1] == pos2[k] + x.len());
            } else {
                assert(pos[1] == pos2[0] + x.len());
            }
        }
    }
}

/// Law: the reader gives back, in order and without file names, the fields
/// of a body framed in the usual way (a delimiter, a
/// `Content-Disposition: form-data; name="..."` line, a blank line, the
/// data and a line break for each field, then the closing delimiter), for
/// fields with non-empty names of printable ASCII without `"`, with data
/// that is not empty and does not end in a line break, and in which the
/// delimiter does not occur.
pub proof fn lemma_read_framed_form(boundary: Seq<char>, fields: Seq<(Seq<char>, Seq<u8>)>)
    requires
        framable(boundary, fields),
    ensures
        lenient_multipart(form_body(boundary, fields), boundary) == plain_fields(fields),
{
    lemma_form_frame(boundary, fields);
}

} // verus!
