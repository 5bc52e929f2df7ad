//! What a request carries in multipart form: the boundary that its
//! `Content-Type` declares or its body shows, and the fields of an image
//! edit request.
use vstd::prelude::*;
use vstd::utf8::{decode_utf8, encode_utf8, valid_utf8};

use crate::multipart::{sub_bytes, find_bytes, is_line_break, part_view, utf8_string};
use crate::text::{
    chars_of, find, find_chars, lemma_find_first, lemma_find_from, lemma_trim_idempotent, occurs_at,
    str_eq, string_of, sub_chars, trim, trim_chars,
};

verus! {

broadcast use vstd::string::group_string_axioms;

// ---------------------------------------------------------------------------
// Boundaries
// ---------------------------------------------------------------------------

/// The boundary that a `Content-Type` value declares: what follows
/// `boundary=`, trimmed.
pub open spec fn declared_boundary(content_type: Seq<char>) -> Option<Seq<char>> {
    match find(content_type, "boundary="@) {
        Some(i) => Some(trim(content_type.skip(i + 9))),
        None => None,
    }
}

/// The boundary that a `Content-Type` header value declares, if any.
pub fn boundary_from_content_type(content_type: &str) -> (r: Option<String>)
    ensures
        r matches Some(b) ==> declared_boundary(content_type@) == Some(b@),
        r is None ==> declared_boundary(content_type@) is None,
{
    let ct = chars_of(content_type);
    let key = chars_of("boundary=");
    proof {
        reveal_strlit("boundary=");
        lemma_find_from(ct@, key@, 0);
    }
    match find_chars(&ct, &key) {
        Some(i) => {
            assert(i + 9 <= ct@.len() == ct.len());
            let rest = sub_chars(&ct, i + 9, ct.len());
            assert(rest@ =~= ct@.skip(i + 9));
            Some(string_of(&trim_chars(&rest)))
        },
        None => None,
    }
}

/// The `Content-Type` value of a form with the given boundary.
pub fn multipart_content_type(boundary: &str) -> (r: String)
    ensures
        r@ == "multipart/form-data; boundary="@ + boundary@,
{
    let mut s = String::from_str("multipart/form-data; boundary=");
    s.append(boundary);
    s
}

/// The position of the first CR or LF byte at or after `i`.
pub open spec fn first_break_from(body: Seq<u8>, i: int) -> Option<int>
    decreases body.len() - i,
{
    if i < 0 || i >= body.len() {
        None
    } else if is_line_break(body[i]) {
        Some(i)
    } else {
        first_break_from(body, i + 1)
    }
}

/// The boundary that a multipart body itself shows: the text after the
/// first `--` within its first hundred bytes, up to the end of that line,
/// when it is valid UTF-8 and, trimmed, neither empty nor a hundred bytes
/// long or more.
pub open spec fn detected_boundary(body: Seq<u8>) -> Option<Seq<char>> {
    match find(body, seq![45u8, 45u8]) {
        Some(i) => if i < 100 {
            match first_break_from(body, i + 2) {
                Some(e) => {
                    let line = body.subrange(i + 2, e);
                    if e > i + 2 && valid_utf8(line) {
                        let t = trim(decode_utf8(line));
                        if t.len() > 0 && encode_utf8(t).len() < 100 {
                            Some(t)
                        } else {
                            None
                        }
                    } else {
                        None
                    }
                },
                None => None,
            }
        } else {
            None
        },
        None => None,
    }
}

/// Reads the boundary off the first delimiter line of a multipart body,
/// for clients that send a `Content-Type` whose boundary does not match
/// the body.
pub fn detect_multipart_boundary(body: &[u8]) -> (r: Option<String>)
    ensures
        r matches Some(b) ==> detected_boundary(body@) == Some(b@),
        r is None ==> detected_boundary(body@) is None,
{
    let dashes: [u8; 2] = [45u8, 45u8];
    assert(dashes@ =~= seq![45u8, 45u8]);
    let dashes_s: &[u8] = &dashes;
    assert(dashes_s@ == dashes@);
    proof {
        lemma_find_from(body@, dashes@, 0);
    }
    let start = match find_bytes(body, dashes_s) {
        Some(i) => i,
        None => {
            return None;
        },
    };
    if start >= 100 {
        return None;
    }
    let from = start + 2;
    let mut j: usize = from;
    while j < body.len() && body[j] != 13u8 && body[j] != 10u8
        invariant
            from <= j <= body@.len() == body.len(),
            first_break_from(body@, from as int) == first_break_from(body@, j as int),
        decreases body.len() - j,
    {
        j = j + 1;
    }
    if j >= body.len() {
        return None;
    }
    if j == from {
        return None;
    }
    let line = sub_bytes(body, from, j);
    match utf8_string(line) {
        Some(text) => {
            let t = string_of(&trim_chars(&chars_of(text.as_str())));
            let ts = t.as_str();
            let n = ts.as_bytes().len();
            if !ts.is_empty() && n < 100 {
                Some(t)
            } else {
                None
            }
        },
        None => None,
    }
}

// ---------------------------------------------------------------------------
// The image edit form
// ---------------------------------------------------------------------------

/// The data of the last part named `name`.
pub open spec fn last_named(parts: Seq<(Seq<char>, Option<Seq<char>>, Seq<u8>)>, name: Seq<char>) -> Option<
    Seq<u8>,
>
    decreases parts.len(),
{
    if parts.len() == 0 {
        None
    } else if parts.last().0 == name {
        Some(parts.last().2)
    } else {
        last_named(parts.drop_last(), name)
    }
}

/// The data of the last part named `image` or `image[]`.
pub open spec fn last_image(parts: Seq<(Seq<char>, Option<Seq<char>>, Seq<u8>)>) -> Option<Seq<u8>>
    decreases parts.len(),
{
    if parts.len() == 0 {
        None
    } else if parts.last().0 == "image"@ || parts.last().0 == "image[]"@ {
        Some(parts.last().2)
    } else {
        last_image(parts.drop_last())
    }
}

/// The text of the last part named `name`, when its data is UTF-8.
pub open spec fn last_text(parts: Seq<(Seq<char>, Option<Seq<char>>, Seq<u8>)>, name: Seq<char>) -> Option<
    Seq<char>,
> {
    match last_named(parts, name) {
        Some(d) => if valid_utf8(d) {
            Some(decode_utf8(d))
        } else {
            None
        },
        None => None,
    }
}

/// The last part named `name` after one more part.
proof fn lemma_last_named_push(
    prev: Seq<(Seq<char>, Option<Seq<char>>, Seq<u8>)>,
    p: (Seq<char>, Option<Seq<char>>, Seq<u8>),
    name: Seq<char>,
)
    ensures
        last_named(prev.push(p), name) == if p.0 == name {
            Some(p.2)
        } else {
            last_named(prev, name)
        },
{
    assert(prev.push(p).drop_last() =~= prev);
}

/// The last image part after one more part.
proof fn lemma_last_image_push(
    prev: Seq<(Seq<char>, Option<Seq<char>>, Seq<u8>)>,
    p: (Seq<char>, Option<Seq<char>>, Seq<u8>),
)
    ensures
        last_image(prev.push(p)) == if p.0 == "image"@ || p.0 == "image[]"@ {
            Some(p.2)
        } else {
            last_image(prev)
        },
{
    assert(prev.push(p).drop_last() =~= prev);
}

/// The field names of an edit request differ from one another.
proof fn lemma_field_names_distinct()
    ensures
        "prompt"@ != "model"@,
        "prompt"@ != "image"@,
        "prompt"@ != "image[]"@,
        "model"@ != "image"@,
        "model"@ != "image[]"@,
{
    reveal_strlit("prompt");
    reveal_strlit("model");
    reveal_strlit("image");
    reveal_strlit("image[]");
    assert("prompt"@.len() != "model"@.len());
    assert("prompt"@.len() != "image"@.len());
    assert("prompt"@.len() != "image[]"@.len());
    assert("model"@[0] != "image"@[0]);
    assert("model"@.len() != "image[]"@.len());
}

/// The fields of an image edit request.
pub struct EditForm {
    pub prompt: String,
    pub image: Vec<u8>,
    pub model: Option<String>,
}

/// Reads the fields of an image edit request from its parts: the prompt,
/// the image (sent as `image` or `image[]`) and the model, a later part
/// overriding an earlier one. The prompt and the image are required.
pub fn edit_form(parts: &Vec<(String, Option<String>, Vec<u8>)>) -> (r: Result<EditForm, String>)
    ensures
        ({
            let pv = parts@.map_values(|p: (String, Option<String>, Vec<u8>)| part_view(p));
            &&& last_text(pv, "prompt"@) is None ==> (r matches Err(m) && m@ == "Missing prompt field"@)
            &&& (last_text(pv, "prompt"@) is Some && last_image(pv) is None) ==> (r matches Err(m) && m@
                == "Missing image field"@)
            &&& r matches Ok(f) ==> last_text(pv, "prompt"@) == Some(f.prompt@) && last_image(pv)
                == Some(f.image@) && last_text(pv, "model"@) == match f.model {
                Some(m) => Some(m@),
                None => None,
            }
            &&& (last_text(pv, "prompt"@) is Some && last_image(pv) is Some) ==> r is Ok
        }),
{
    let ghost pv = parts@.map_values(|p: (String, Option<String>, Vec<u8>)| part_view(p));
    let mut prompt: Option<String> = None;
    let mut image: Option<Vec<u8>> = None;
    let mut model: Option<String> = None;
    let mut k: usize = 0;
    assert(pv.take(0) =~= Seq::<(Seq<char>, Option<Seq<char>>, Seq<u8>)>::empty());
    while k < parts.len()
        invariant
            k <= parts@.len() == pv.len(),
            pv == parts@.map_values(|p: (String, Option<String>, Vec<u8>)| part_view(p)),
            last_text(pv.take(k as int), "prompt"@) == match prompt {
                Some(s) => Some(s@),
                None => None,
            },
            last_text(pv.take(k as int), "model"@) == match model {
                Some(s) => Some(s@),
                None => None,
            },
            last_image(pv.take(k as int)) == match image {
                Some(v) => Some(v@),
                None => None,
            },
        decreases parts@.len() - k,
    {
        let ghost prev = pv.take(k as int);
        let ghost p = part_view(parts@[k as int]);
        proof {
            assert(pv.take(k + 1) =~= prev.push(p));
            lemma_last_named_push(prev, p, "prompt"@);
            lemma_last_named_push(prev, p, "model"@);
            lemma_last_image_push(prev, p);
            lemma_field_names_distinct();
        }
        let name = parts[k].0.as_str();
        let data = &parts[k].2;
        if str_eq(name, "prompt") {
            prompt = utf8_string(sub_bytes(data.as_slice(), 0, data.len()));
            assert(data@.subrange(0, data@.len() as int) =~= data@);
        } else if str_eq(name, "image") || str_eq(name, "image[]") {
            image = Some(sub_bytes(data.as_slice(), 0, data.len()));
            assert(data@.subrange(0, data@.len() as int) =~= data@);
        } else if str_eq(name, "model") {
            model = utf8_string(sub_bytes(data.as_slice(), 0, data.len()));
            assert(data@.subrange(0, data@.len() as int) =~= data@);
        }
        k = k + 1;
    }
    assert(pv.take(pv.len() as int) =~= pv);
    let prompt = match prompt {
        Some(p) => p,
        None => {
            return Err(String::from_str("Missing prompt field"));
        },
    };
    let image = match image {
        Some(b) => b,
        None => {
            return Err(String::from_str("Missing image field"));
        },
    };
    Ok(EditForm { prompt, image, model })
}

/// Law: the `Content-Type` written for a boundary read off a body
/// declares exactly that boundary, so the request is then read with it.
pub proof fn lemma_detected_boundary_declared(body: Seq<u8>)
    ensures
        detected_boundary(body) matches Some(b) ==> declared_boundary(
            "multipart/form-data; boundary="@ + b,
        ) == Some(b),
{
    if let Some(b) = detected_boundary(body) {
        let prefix = "multipart/form-data; boundary="@;
        let key = "boundary="@;
        reveal_strlit("multipart/form-data; boundary=");
        reveal_strlit("boundary=");
        let ct = prefix + b;
        assert(prefix.len() == 30);
        assert(ct.subrange(21, 30) =~= key);
        assert forall|m: int| 0 <= m < 21 implies !occurs_at(ct, key, m) by {
            assert(ct[m] == prefix[m]);
            assert(prefix[m] != 'b');
            assert(ct.subrange(m, m + 9)[0] == ct[m]);
        }
        lemma_find_first(ct, key, 0, 21);
        assert(ct.skip(30) =~= b);
        let line_start = find(body, seq![45u8, 45u8])->0 + 2;
        let line_end = first_break_from(body, line_start)->0;
        lemma_trim_idempotent(decode_utf8(body.subrange(line_start, line_end)));
    }
}

} // verus!
