//! Image parameters: how an incoming value (a URL, a data URL or plain
//! base64) becomes bytes, and how those bytes reach the workflow.
use vstd::prelude::*;

use base64::Engine;

use crate::auth::{is_hyphenated_uuid, new_uuid_v4};
use crate::comfy::OutputAsset;
use crate::config::FieldInputTarget;
use crate::text::{
    chars_of, find, find_chars, join_str, lemma_find_from, starts_with, starts_with_chars,
    string_of, sub_chars, trim, trim_chars,
};

verus! {

broadcast use vstd::string::group_string_axioms;

// ---------------------------------------------------------------------------
// Outside code: base64
// ---------------------------------------------------------------------------

/// The standard base64 encoding (RFC 4648 alphabet, with padding) of
/// `data`.
pub uninterp spec fn base64_standard_encode(data: Seq<u8>) -> Seq<char>;

/// The bytes that the text `text` encodes in standard base64 with
/// canonical padding; `None` when it is not such an encoding.
pub uninterp spec fn base64_standard_decode(text: Seq<char>) -> Option<Seq<u8>>;

/// `base64::engine::general_purpose::STANDARD.encode`. Claimed: the result
/// is `base64_standard_encode` of the data, and decoding it with the same
/// engine gives the data back.
#[verifier::external_body]
fn base64_encode(data: &[u8]) -> (r: String)
    ensures
        r@ == base64_standard_encode(data@),
        base64_standard_decode(r@) == Some(data@),
{
    base64::engine::general_purpose::STANDARD.encode(data)
}

/// `base64::engine::general_purpose::STANDARD.decode`, with the error
/// turned into its message. Claimed: success exactly when
/// `base64_standard_decode` gives bytes, and then those bytes. The standard
/// engine demands canonical padding and zero trailing bits, so text that
/// decodes is exactly the encoding of what it decodes to. The text of the
/// error is not stated.
#[verifier::external_body]
fn base64_decode(text: &str) -> (r: Result<Vec<u8>, String>)
    ensures
        match r {
            Ok(v) => base64_standard_decode(text@) == Some(v@) && base64_standard_encode(v@)
                == text@,
            Err(_) => base64_standard_decode(text@) is None,
        },
{
    match base64::engine::general_purpose::STANDARD.decode(text) {
        Ok(v) => Ok(v),
        Err(e) => Err(e.to_string()),
    }
}

// ---------------------------------------------------------------------------
// Incoming image values
// ---------------------------------------------------------------------------

/// A value that names an image by its web address.
pub open spec fn is_url(s: Seq<char>) -> bool {
    starts_with(s, "http://"@) || starts_with(s, "https://"@)
}

/// The base64 text of a value: what follows `base64,` in a data URL, or
/// the whole value.
pub open spec fn base64_payload(s: Seq<char>) -> Seq<char> {
    match find(s, "base64,"@) {
        Some(i) => s.skip(i + 7),
        None => s,
    }
}

/// Where the bytes of an image parameter come from.
pub enum ImageSource {
    /// The value goes to the workflow as it is.
    Passthrough(String),
    /// The image must be downloaded from this address.
    Fetch(String),
    /// The image, decoded from base64.
    Bytes(Vec<u8>),
    /// The value is not valid base64; the message says why.
    Invalid(String),
}

/// Reads an image parameter. A text target takes the value as it is; an
/// image URL target takes a web address as it is; any other web address is
/// downloaded; anything else is base64, possibly inside a data URL.
pub fn image_source(input: &str, target: FieldInputTarget) -> (r: ImageSource)
    ensures
        target == FieldInputTarget::Text ==> (r matches ImageSource::Passthrough(s) && s@
            == input@),
        target != FieldInputTarget::Text && is_url(input@) && target
            == FieldInputTarget::ImageUrl ==> (r matches ImageSource::Passthrough(s) && s@
            == input@),
        target != FieldInputTarget::Text && is_url(input@) && target
            != FieldInputTarget::ImageUrl ==> (r matches ImageSource::Fetch(s) && s@ == input@),
        target != FieldInputTarget::Text && !is_url(input@) ==> match base64_standard_decode(
            trim(base64_payload(input@)),
        ) {
            Some(b) => r matches ImageSource::Bytes(v) && v@ == b && base64_standard_encode(b)
                == trim(base64_payload(input@)),
            None => r matches ImageSource::Invalid(m) && starts_with(m@, "Base64 Error: "@),
        },
{
    proof {
        reveal_strlit("base64,");
        reveal_strlit("Base64 Error: ");
    }
    if target == FieldInputTarget::Text {
        return ImageSource::Passthrough(String::from_str(input));
    }
    let s = chars_of(input);
    let url = starts_with_chars(&s, &chars_of("http://")) || starts_with_chars(
        &s,
        &chars_of("https://"),
    );
    if url {
        if target == FieldInputTarget::ImageUrl {
            return ImageSource::Passthrough(String::from_str(input));
        }
        return ImageSource::Fetch(String::from_str(input));
    }
    let marker = chars_of("base64,");
    proof {
        lemma_find_from(s@, marker@, 0);
    }
    let payload = match find_chars(&s, &marker) {
        Some(i) => {
            assert(marker@.len() == 7);
            assert(i + marker@.len() <= s@.len() && s@.len() == s.len());
            sub_chars(&s, i + 7, s.len())
        },
        None => sub_chars(&s, 0, s.len()),
    };
    assert(payload@ =~= base64_payload(input@));
    let text = string_of(&trim_chars(&payload));
    match base64_decode(text.as_str()) {
        Ok(v) => ImageSource::Bytes(v),
        Err(e) => {
            let m = join_str("Base64 Error: ", e.as_str());
            assert(m@.take(14) =~= "Base64 Error: "@);
            ImageSource::Invalid(m)
        },
    }
}

/// How the bytes of an image reach the workflow.
pub enum RawImagePlan {
    /// As base64 text in the field.
    Inline(String),
    /// Served by the proxy under `id` at `url` while the job runs.
    HostTemp { id: String, url: String },
    /// Uploaded to ComfyUI under `filename`; the field gets the stored name.
    Upload { filename: String },
    /// The target does not take image bytes.
    Invalid(String),
}

/// The host under which the proxy serves temporary images when the request
/// names none.
pub open spec fn host_or_default(host: Option<Seq<char>>) -> Seq<char> {
    match host {
        Some(h) => h,
        None => "127.0.0.1:3000"@,
    }
}

/// Decides how image bytes reach the workflow for a target: inline base64,
/// a temporary URL served by the proxy (named by a fresh UUID), or an
/// upload to ComfyUI (under a file name made from a fresh UUID).
pub fn raw_image_plan(raw: &Vec<u8>, target: FieldInputTarget, host: Option<&str>) -> (r: RawImagePlan)
    ensures
        target == FieldInputTarget::ImageBase64 ==> (r matches RawImagePlan::Inline(s) && s@
            == base64_standard_encode(raw@) && base64_standard_decode(s@) == Some(raw@)),
        target == FieldInputTarget::ImageUrl ==> (r matches RawImagePlan::HostTemp { id, url }
            && is_hyphenated_uuid(id@) && url@ == "http://"@ + host_or_default(
            match host {
                Some(h) => Some(h@),
                None => None,
            },
        ) + "/api/temp-images/"@ + id@),
        target == FieldInputTarget::ComfyUpload ==> (r matches RawImagePlan::Upload { filename }
            && exists|id: Seq<char>|
            is_hyphenated_uuid(id) && filename@ == "comfy_serve_temp_"@ + id + ".png"@),
        target == FieldInputTarget::Text ==> (r matches RawImagePlan::Invalid(m) && m@
            == "Invalid target for raw image bytes"@),
{
    match target {
        FieldInputTarget::ImageBase64 => RawImagePlan::Inline(base64_encode(raw.as_slice())),
        FieldInputTarget::ImageUrl => {
            let id = new_uuid_v4();
            let mut url = String::from_str("http://");
            match host {
                Some(h) => url.append(h),
                None => url.append("127.0.0.1:3000"),
            }
            url.append("/api/temp-images/");
            url.append(id.as_str());
            RawImagePlan::HostTemp { id, url }
        },
        FieldInputTarget::ComfyUpload => {
            let id = new_uuid_v4();
            let mut filename = join_str("comfy_serve_temp_", id.as_str());
            filename.append(".png");
            RawImagePlan::Upload { filename }
        },
        FieldInputTarget::Text => RawImagePlan::Invalid(
            String::from_str("Invalid target for raw image bytes"),
        ),
    }
}

/// The base64 text of an output, as the OpenAI-compatible endpoints return
/// it.
pub fn output_base64(asset: &OutputAsset) -> (r: String)
    ensures
        r@ == base64_standard_encode(asset.data@),
        base64_standard_decode(r@) == Some(asset.data@),
{
    base64_encode(asset.data.as_slice())
}

} // verus!
