use comfy_serve::form::{
    boundary_from_content_type, detect_multipart_boundary, edit_form, multipart_content_type,
};
use comfy_serve::parse_lenient_multipart;

fn part(name: &str, data: &[u8]) -> (String, Option<String>, Vec<u8>) {
    (name.to_string(), None, data.to_vec())
}

#[test]
fn multipart_parts_with_crlf() {
    let body = b"--XB\r\nContent-Disposition: form-data; name=\"prompt\"\r\n\r\nmake it blue\r\n--XB\r\nContent-Disposition: form-data; name=\"image\"; filename=\"in.png\"\r\nContent-Type: image/png\r\n\r\n\x89PNG\r\n--XB--\r\n";
    let parts = parse_lenient_multipart(body, "XB");
    assert_eq!(parts.len(), 2);
    assert_eq!(parts[0], ("prompt".to_string(), None, b"make it blue".to_vec()));
    assert_eq!(parts[1], ("image".to_string(), Some("in.png".to_string()), b"\x89PNG".to_vec()));
}

#[test]
fn multipart_parts_with_bare_lf() {
    let body = b"--b\ncontent-disposition: form-data; name=\"model\"\n\nflux\n--b--";
    let parts = parse_lenient_multipart(body, "b");
    assert_eq!(parts, vec![("model".to_string(), None, b"flux".to_vec())]);
}

#[test]
fn multipart_skips_unnamed_and_headerless_parts() {
    let body = b"--b\r\nContent-Type: text/plain\r\n\r\nx\r\n--b\r\nno blank line\r\n--b\r\nContent-Disposition: form-data; name=\"ok\"\r\n\r\n1\r\n--b--";
    let parts = parse_lenient_multipart(body, "b");
    assert_eq!(parts, vec![("ok".to_string(), None, b"1".to_vec())]);
    assert!(parse_lenient_multipart(b"no delimiters here", "b").is_empty());
    assert!(parse_lenient_multipart(b"--b\r\nContent-Disposition: form-data; name=\"x\"\r\n\r\n1", "b").is_empty());
}

#[test]
fn boundary_from_header() {
    assert_eq!(boundary_from_content_type("multipart/form-data; boundary=abc123 "), Some("abc123".to_string()));
    assert_eq!(boundary_from_content_type("multipart/form-data;boundary=\"q\""), Some("\"q\"".to_string()));
    assert_eq!(boundary_from_content_type("application/json"), None);
    assert_eq!(multipart_content_type("xyz"), "multipart/form-data; boundary=xyz");
}

#[test]
fn boundary_read_from_body() {
    assert_eq!(detect_multipart_boundary(b"--------abc\r\nrest"), Some("------abc".to_string()));
    assert_eq!(detect_multipart_boundary(b"\r\n--xyz \nrest"), Some("xyz".to_string()));
    assert_eq!(detect_multipart_boundary(b"--\r\n"), None);
    assert_eq!(detect_multipart_boundary(b"--abc"), None);
    assert_eq!(detect_multipart_boundary(b"-- \r\n"), None);
    assert_eq!(detect_multipart_boundary(b""), None);
    let mut far = vec![b'a'; 120];
    far.extend_from_slice(b"--late\r\n");
    assert_eq!(detect_multipart_boundary(&far), None);
    let mut long = b"--".to_vec();
    long.extend_from_slice(&[b'x'; 100]);
    long.extend_from_slice(b"\r\n");
    assert_eq!(detect_multipart_boundary(&long), None);
    let mut edge = vec![b'a'; 99];
    edge.extend_from_slice(b"--ok\n");
    assert_eq!(detect_multipart_boundary(&edge), Some("ok".to_string()));
}

#[test]
fn edit_form_reads_fields() {
    let parts = vec![part("prompt", b"first"), part("image[]", b"IMG1"), part("prompt", b"second"), part("model", b"my-workflow")];
    let form = edit_form(&parts).unwrap();
    assert_eq!(form.prompt, "second");
    assert_eq!(form.image, b"IMG1".to_vec());
    assert_eq!(form.model, Some("my-workflow".to_string()));
}

#[test]
fn edit_form_requires_prompt_and_image() {
    assert_eq!(edit_form(&vec![part("image", b"x")]).err(), Some("Missing prompt field".to_string()));
    assert_eq!(edit_form(&vec![part("prompt", b"p")]).err(), Some("Missing image field".to_string()));
    assert_eq!(edit_form(&vec![part("prompt", b"ok"), part("image", b"x"), part("prompt", &[0xff])]).err(), Some("Missing prompt field".to_string()));
    let f = edit_form(&vec![part("prompt", b"p"), part("image", b"a"), part("image", b"b"), part("model", &[0xc3])]).unwrap();
    assert_eq!(f.image, b"b".to_vec());
    assert_eq!(f.model, None);
}

#[test]
fn detected_boundary_is_declared_again() {
    let body = b"--abc123\r\nContent-Disposition: form-data; name=\"prompt\"\r\n\r\nhi\r\n--abc123--\r\n";
    let b = detect_multipart_boundary(body).unwrap();
    assert_eq!(b, "abc123");
    let ct = multipart_content_type(&b);
    assert_eq!(boundary_from_content_type(&ct), Some(b.clone()));
    let parts = parse_lenient_multipart(body, &b);
    assert_eq!(parts, vec![("prompt".to_string(), None, b"hi".to_vec())]);
}

#[test]
fn framed_form_reads_back() {
    let fields: Vec<(&str, &[u8])> = vec![("prompt", b"a cat"), ("model", b"flux"), ("image", b"\x89PNG\r\n\x1a\nX")];
    let mut body = Vec::new();
    for (name, data) in &fields {
        body.extend_from_slice(b"--frm\r\n");
        body.extend_from_slice(format!("Content-Disposition: form-data; name=\"{}\"\r\n\r\n", name).as_bytes());
        body.extend_from_slice(data);
        body.extend_from_slice(b"\r\n");
    }
    body.extend_from_slice(b"--frm--\r\n");
    let parts = parse_lenient_multipart(&body, "frm");
    let expected: Vec<(String, Option<String>, Vec<u8>)> =
        fields.iter().map(|(n, d)| (n.to_string(), None, d.to_vec())).collect();
    assert_eq!(parts, expected);
}
