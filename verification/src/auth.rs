//! Access control: the dashboard password (Argon2 hashes), the session
//! token of the dashboard and the API keys of the generation endpoints.
use vstd::prelude::*;
use vstd::string::StringSliceAdditionalSpecFns;

use argon2::password_hash::{PasswordHash, PasswordHasher, PasswordVerifier, SaltString};
use argon2::Argon2;
use rand_core::OsRng;

use crate::config::api_keys_of;
use crate::text::{
    chars_of, is_unicode_whitespace, join_str, lemma_blank_is_whitespace, lemma_replace_absent,
    lemma_split_no_sep, lemma_trim_fixed, occurs_at, replace_all, replace_chars, split_on, starts_with, str_eq,
    string_of, strings_view, trim, trim_chars,
};

verus! {

broadcast use vstd::string::group_string_axioms;

// ---------------------------------------------------------------------------
// Outside code: argon2 and uuid
// ---------------------------------------------------------------------------

/// A character of the B64 alphabet of PHC strings (`[A-Za-z0-9+/]`).
pub open spec fn is_b64_char(c: char) -> bool {
    ('A' <= c && c <= 'Z') || ('a' <= c && c <= 'z') || ('0' <= c && c <= '9') || c == '+' || c
        == '/'
}

/// A salt as `SaltString::generate` makes it: sixteen bytes in unpadded
/// B64, that is 22 characters whose last one carries two bits of data.
pub open spec fn is_fresh_salt(s: Seq<char>) -> bool {
    &&& s.len() == 22
    &&& forall|i: int| 0 <= i < s.len() ==> is_b64_char(#[trigger] s[i])
    &&& (s[21] == 'A' || s[21] == 'Q' || s[21] == 'g' || s[21] == 'w')
}

/// A character that a PHC string may hold: letters, digits and `$=,+/.-`.
pub open spec fn is_phc_char(c: char) -> bool {
    is_b64_char(c) || c == '$' || c == '=' || c == ',' || c == '.' || c == '-'
}

/// The PHC string of the Argon2 hash (default algorithm, version and
/// parameters) of `password` with the B64 salt `salt`.
pub uninterp spec fn argon2_phc(password: Seq<char>, salt: Seq<char>) -> Seq<char>;

/// Whether Argon2 verification of `password` against the PHC string `phc`
/// succeeds.
pub uninterp spec fn argon2_accepts(password: Seq<char>, phc: Seq<char>) -> bool;

/// Whether `PasswordHash::new` reads `phc` as a PHC string.
pub uninterp spec fn phc_parses(phc: Seq<char>) -> bool;

/// `SaltString::generate` with the operating system's random source. The
/// salt is random, so nothing ties it to earlier calls; claimed is only its
/// shape, which `SaltString::encode_b64` of sixteen bytes gives.
#[verifier::external_body]
fn generate_salt() -> (r: String)
    ensures
        is_fresh_salt(r@),
{
    SaltString::generate(&mut OsRng).as_str().to_string()
}

/// `Argon2::default().hash_password(password, salt)`, as a PHC string.
/// Claimed: the result is `argon2_phc` of the arguments, made of PHC
/// characters, written for the default algorithm Argon2id (so it begins
/// with `$argon2id$`) and read back by `PasswordHash::new`; hashing
/// succeeds for a generated salt and a password of at most `u32::MAX`
/// bytes (argon2's `MAX_PWD_LEN`).
#[verifier::external_body]
fn argon2_hash(password: &str, salt: &str) -> (r: Option<String>)
    ensures
        r matches Some(h) ==> h@ == argon2_phc(password@, salt@) && forall|i: int|
            0 <= i < h@.len() ==> is_phc_char(#[trigger] h@[i]),
        r matches Some(h) ==> starts_with(h@, "$argon2id$"@) && phc_parses(h@),
        password.spec_bytes().len() <= 0xFFFF_FFFF && is_fresh_salt(salt@) ==> r is Some,
{
    let salt = SaltString::from_b64(salt).ok()?;
    match Argon2::default().hash_password(password.as_bytes(), &salt) {
        Ok(h) => Some(h.to_string()),
        Err(_) => None,
    }
}

/// `PasswordHash::new(phc)` followed by
/// `Argon2::default().verify_password(password, &hash)`: false when the
/// PHC string does not parse. Claimed: the result is `argon2_accepts` of
/// the arguments, a PHC string that does not parse accepts no password, and
/// a PHC string that Argon2 made for this password with a generated salt is
/// accepted. That a string made for another password is refused rests on
/// the hash's resistance to collisions, which no code shows, and is left
/// unsaid.
#[verifier::external_body]
fn argon2_verify(password: &str, phc: &str) -> (r: bool)
    ensures
        r == argon2_accepts(password@, phc@),
        !phc_parses(phc@) ==> !r,
        password.spec_bytes().len() <= 0xFFFF_FFFF && (exists|s: Seq<char>|
            is_fresh_salt(s) && phc@ == argon2_phc(password@, s)) ==> r,
{
    match PasswordHash::new(phc) {
        Ok(h) => Argon2::default().verify_password(password.as_bytes(), &h).is_ok(),
        Err(_) => false,
    }
}

/// A lower-case hexadecimal digit.
pub open spec fn is_lower_hex(c: char) -> bool {
    ('0' <= c && c <= '9') || ('a' <= c && c <= 'f')
}

/// A UUID in its hyphenated lower-case form, such as
/// `67e55044-10b1-426f-9247-bb680e5fe0c8`.
pub open spec fn is_hyphenated_uuid(t: Seq<char>) -> bool {
    &&& t.len() == 36
    &&& forall|i: int|
        0 <= i < 36 ==> if i == 8 || i == 13 || i == 18 || i == 23 {
            t[i] == '-'
        } else {
            is_lower_hex(#[trigger] t[i])
        }
}

/// `uuid::Uuid::new_v4().to_string()`: a random UUID. Random, so only its
/// form is claimed: `Display` for `Uuid` writes the hyphenated lower-case
/// form.
#[verifier::external_body]
pub(crate) fn new_uuid_v4() -> (r: String)
    ensures
        is_hyphenated_uuid(r@),
{
    uuid::Uuid::new_v4().to_string()
}

// ---------------------------------------------------------------------------
// The dashboard password
// ---------------------------------------------------------------------------

/// `hash` is an Argon2 PHC string made for `password`, up to surrounding
/// whitespace.
pub open spec fn is_hash_of(password: Seq<char>, hash: Seq<char>) -> bool {
    exists|s: Seq<char>| is_fresh_salt(s) && trim(hash) == argon2_phc(password, s)
}

/// Hashes a password with Argon2 and a fresh random salt, giving a PHC
/// string. Argon2 refuses passwords longer than `u32::MAX` bytes.
pub fn hash_password(password: &str) -> (r: String)
    requires
        password.spec_bytes().len() <= 0xFFFF_FFFF,
    ensures
        exists|s: Seq<char>| is_fresh_salt(s) && r@ == argon2_phc(password@, s),
        forall|i: int| 0 <= i < r@.len() ==> is_phc_char(#[trigger] r@[i]),
        is_hash_of(password@, r@),
        starts_with(r@, "$argon2id$"@),
        phc_parses(r@),
{
    let salt = generate_salt();
    match argon2_hash(password, salt.as_str()) {
        Some(h) => {
            proof {
                lemma_phc_is_trimmed(h@);
            }
            h
        },
        None => {
            assert(false);
            String::new()
        },
    }
}

/// A PHC string has no whitespace to trim.
pub proof fn lemma_phc_is_trimmed(h: Seq<char>)
    requires
        forall|i: int| 0 <= i < h.len() ==> is_phc_char(#[trigger] h[i]),
    ensures
        trim(h) == h,
{
    if h.len() > 0 {
        assert(is_phc_char(h[0]));
        assert(is_phc_char(h[h.len() - 1]));
    }
    lemma_trim_fixed(h);
}

/// Checks a password against a stored hash; surrounding whitespace of the
/// stored hash is ignored, and a hash that does not parse rejects every
/// password.
pub fn verify_password(password: &str, hash: &str) -> (r: bool)
    ensures
        r == argon2_accepts(password@, trim(hash@)),
        !phc_parses(trim(hash@)) ==> !r,
        password.spec_bytes().len() <= 0xFFFF_FFFF && is_hash_of(password@, hash@) ==> r,
{
    let trimmed = string_of(&trim_chars(&chars_of(hash)));
    argon2_verify(password, trimmed.as_str())
}

/// Law: a password is accepted by the hash that `hash_password` made for
/// it. (The stored hash is trimmed when it is read back, which leaves a PHC
/// string unchanged.)
pub proof fn lemma_hash_then_verify(password: Seq<char>, salt: Seq<char>)
    requires
        is_fresh_salt(salt),
        forall|i: int|
            0 <= i < argon2_phc(password, salt).len() ==> is_phc_char(#[trigger] argon2_phc(password, salt)[i]),
    ensures
        is_hash_of(password, argon2_phc(password, salt)),
{
    lemma_phc_is_trimmed(argon2_phc(password, salt));
}

/// The answer to a login attempt.
pub enum LoginOutcome {
    /// No password was set: this one becomes the password, with this hash.
    FirstRun { hash: String },
    Accepted,
    Rejected,
}

/// Decides a login: the first password ever given is taken as the
/// dashboard password; afterwards a password is accepted when it verifies
/// against the stored hash.
pub fn login(stored_hash: &str, password: &str) -> (r: LoginOutcome)
    requires
        stored_hash@.len() == 0 ==> password.spec_bytes().len() <= 0xFFFF_FFFF,
    ensures
        stored_hash@.len() == 0 ==> (r matches LoginOutcome::FirstRun { hash } && is_hash_of(
            password@,
            hash@,
        )),
        stored_hash@.len() > 0 ==> (r is Accepted <==> argon2_accepts(password@, trim(stored_hash@))),
        stored_hash@.len() > 0 ==> (r is Accepted || r is Rejected),
{
    if stored_hash.is_empty() {
        LoginOutcome::FirstRun { hash: hash_password(password) }
    } else if verify_password(password, stored_hash) {
        LoginOutcome::Accepted
    } else {
        LoginOutcome::Rejected
    }
}

/// The lines appended to `.env` when the dashboard password is first set.
pub fn env_file_entries(hash: &str) -> (r: String)
    ensures
        r@ == "DASHBOARD_PASSWORD_HASH='"@ + hash@ + "'\n"@ + "API_KEYS=''\n"@,
{
    let mut s = join_str("DASHBOARD_PASSWORD_HASH='", hash);
    s.append("'\n");
    s.append("API_KEYS=''\n");
    s
}

/// A new session token for the dashboard: a random UUID.
pub fn new_session_token() -> (r: String)
    ensures
        is_hyphenated_uuid(r@),
{
    new_uuid_v4()
}

// ---------------------------------------------------------------------------
// Tokens and keys
// ---------------------------------------------------------------------------

/// The token that an `Authorization` header carries: the header with every
/// `Bearer ` removed, empty when there is no header.
pub open spec fn bearer_token_of(header: Option<Seq<char>>) -> Seq<char> {
    match header {
        Some(h) => replace_all(h, "Bearer "@, ""@),
        None => ""@,
    }
}

/// The token of an `Authorization` header.
pub fn bearer_token(header: Option<&str>) -> (r: String)
    ensures
        r@ == bearer_token_of(
            match header {
                Some(h) => Some(h@),
                None => None,
            },
        ),
{
    proof {
        reveal_strlit("Bearer ");
        reveal_strlit("");
    }
    match header {
        Some(h) => string_of(&replace_chars(&chars_of(h), &chars_of("Bearer "), &chars_of(""))),
        None => String::new(),
    }
}

/// Whether a token opens the dashboard: a session must exist, and the token
/// must be its token.
pub open spec fn dashboard_token_valid(token: Seq<char>, session: Option<Seq<char>>) -> bool {
    match session {
        Some(s) => s.len() > 0 && token == s,
        None => false,
    }
}

/// Whether the dashboard request with this token is let through.
pub fn dashboard_authorized(token: &str, session: &Option<String>) -> (r: bool)
    ensures
        r == dashboard_token_valid(
            token@,
            match session {
                Some(s) => Some(s@),
                None => None,
            },
        ),
{
    match session {
        Some(s) => !s.as_str().is_empty() && str_eq(token, s.as_str()),
        None => false,
    }
}

/// Whether a request to the generation endpoints is let through: with no
/// API key configured every request is; otherwise its bearer token must be
/// one of the keys.
pub open spec fn api_key_valid(keys: Seq<Seq<char>>, token: Seq<char>) -> bool {
    keys.len() == 0 || keys.contains(token)
}

/// Checks the `Authorization` header of a request to the generation
/// endpoints against the configured API keys.
pub fn api_key_authorized(api_keys: &Vec<String>, header: Option<&str>) -> (r: bool)
    ensures
        r == api_key_valid(
            strings_view(api_keys@),
            bearer_token_of(
                match header {
                    Some(h) => Some(h@),
                    None => None,
                },
            ),
        ),
{
    if api_keys.len() == 0 {
        return true;
    }
    let token = bearer_token(header);
    let ghost kv = strings_view(api_keys@);
    let mut i: usize = 0;
    while i < api_keys.len()
        invariant
            i <= api_keys@.len() == kv.len(),
            kv == strings_view(api_keys@),
            token@ == bearer_token_of(
                match header {
                    Some(h) => Some(h@),
                    None => None,
                },
            ),
            forall|j: int| 0 <= j < i ==> kv[j] != token@,
        decreases api_keys.len() - i,
    {
        if api_keys[i] == token {
            assert(kv[i as int] == token@);
            assert(kv.contains(token@));
            return true;
        }
        i = i + 1;
    }
    false
}

// ---------------------------------------------------------------------------
// Laws of access control
// ---------------------------------------------------------------------------

/// The keys of an `API_KEYS` setting are never empty.
proof fn lemma_api_keys_nonempty(pieces: Seq<Seq<char>>)
    ensures
        forall|k: int|
            0 <= k < api_keys_of(pieces).len() ==> #[trigger] api_keys_of(pieces)[k].len() > 0,
    decreases pieces.len(),
{
    if pieces.len() > 0 {
        let prev = api_keys_of(pieces.drop_last());
        lemma_api_keys_nonempty(pieces.drop_last());
        assert forall|k: int|
            0 <= k < api_keys_of(pieces).len() implies #[trigger] api_keys_of(pieces)[k].len() > 0 by {
            if k < prev.len() {
                assert(prev[k].len() > 0);
            }
        }
    }
}

/// Law: a blank `API_KEYS` setting configures no key, and then every
/// request to the generation endpoints is let through, whatever its
/// `Authorization` header.
pub proof fn lemma_blank_keys_open(setting: Seq<char>, header: Option<Seq<char>>)
    requires
        trim(setting).len() == 0,
    ensures
        api_keys_of(split_on(setting, ',')).len() == 0,
        api_key_valid(api_keys_of(split_on(setting, ',')), bearer_token_of(header)),
{
    lemma_blank_is_whitespace(setting);
    assert(!setting.contains(',')) by {
        if setting.contains(',') {
            let i = choose|i: int| 0 <= i < setting.len() && setting[i] == ',';
            assert(is_unicode_whitespace(setting[i]));
        }
    }
    lemma_split_no_sep(setting, ',');
    assert(seq![setting].drop_last() =~= Seq::<Seq<char>>::empty());
    assert(api_keys_of(Seq::<Seq<char>>::empty()) == Seq::<Seq<char>>::empty());
    assert(api_keys_of(seq![setting]) == api_keys_of(Seq::<Seq<char>>::empty()));
}

/// Law: once API keys are configured, a request without an
/// `Authorization` header is refused.
pub proof fn lemma_keys_refuse_anonymous(setting: Seq<char>)
    requires
        api_keys_of(split_on(setting, ',')).len() > 0,
    ensures
        !api_key_valid(api_keys_of(split_on(setting, ',')), bearer_token_of(None)),
{
    let keys = api_keys_of(split_on(setting, ','));
    lemma_api_keys_nonempty(split_on(setting, ','));
    reveal_strlit("");
    if keys.contains(""@) {
        let k = choose|k: int| 0 <= k < keys.len() && keys[k] == ""@;
        assert(keys[k].len() > 0);
    }
}

/// Law: a configured API key, sent as `Authorization: Bearer <key>`, is
/// accepted (for a key in which `Bearer ` does not occur, since every
/// `Bearer ` of the header is removed).
pub proof fn lemma_bearer_key_accepted(keys: Seq<Seq<char>>, key: Seq<char>)
    requires
        keys.contains(key),
        forall|m: int| !occurs_at(key, "Bearer "@, m),
    ensures
        api_key_valid(keys, bearer_token_of(Some("Bearer "@ + key))),
{
    reveal_strlit("Bearer ");
    reveal_strlit("");
    let h = "Bearer "@ + key;
    assert(h.take(7) =~= "Bearer "@);
    assert(h.skip(7) =~= key);
    lemma_replace_absent(key, "Bearer "@, ""@);
    assert(""@ + key =~= key);
}

/// Law: before any login there is no session, and the dashboard refuses
/// every request.
pub proof fn lemma_no_session_refuses(header: Option<Seq<char>>)
    ensures
        !dashboard_token_valid(bearer_token_of(header), None),
{
}

/// Law: the token that a login hands out, sent back as
/// `Authorization: Bearer <token>`, opens the dashboard for that session.
pub proof fn lemma_session_token_opens(token: Seq<char>)
    requires
        is_hyphenated_uuid(token),
    ensures
        dashboard_token_valid(bearer_token_of(Some("Bearer "@ + token)), Some(token)),
{
    reveal_strlit("Bearer ");
    reveal_strlit("");
    assert forall|m: int| !occurs_at(token, "Bearer "@, m) by {
        if occurs_at(token, "Bearer "@, m) {
            assert(token.subrange(m, m + 7)[0] == 'B');
            assert(token[m] == 'B');
            assert(is_lower_hex(token[m]) || token[m] == '-');
        }
    }
    let h = "Bearer "@ + token;
    assert(h.take(7) =~= "Bearer "@);
    assert(h.skip(7) =~= token);
    lemma_replace_absent(token, "Bearer "@, ""@);
    assert(""@ + token =~= token);
}

} // verus!
