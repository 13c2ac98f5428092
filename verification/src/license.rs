//! Licenses: what a license grants, where its files live under the
//! configuration directory, the machine id it is bound to, its canonical
//! signed form, its verification, and the issuing of a license.
use vstd::prelude::*;

use crate::codec::{
    base64_spec, hex_digit, hex_lower, json_escape, json_string, lemma_base64_injective,
    lemma_json_escape_no_comma, lemma_json_string_prefix, push_json_string,
};
use crate::outside::{
    base64_decode, base64_encode, ed25519_accepts, ed25519_public, ed25519_public_key,
    ed25519_sign, ed25519_verify, hex_encode, sha256, sha256_digest, signature_from_slice,
};
use crate::text::{
    decimal, lemma_decimal_digits, lemma_join_injective, lemma_signed_decimal_injective,
    lemma_split_at, is_ws, join_seq, push_char, push_signed_decimal, signed_decimal, trim, trim_end_seq, trim_seq,
    trim_start_seq,
};
use vstd::utf8::encode_utf8;

verus! {

/// A capability a license can grant.
#[derive(Debug, Clone, Copy, PartialEq, Eq, Hash, Structural)]
pub enum Capability {
    AtomicSwitch,
    Rollback,
    MultiServer,
}

/// The plan a license is for.
#[derive(Debug, Clone, Copy, PartialEq, Eq, Structural)]
pub enum Plan {
    Free,
    Pro,
}

/// What a license states; its canonical JSON is what is signed.
#[derive(Debug)]
pub struct LicensePayload {
    pub plan: Plan,
    pub machine_id: String,
    /// Unix time in seconds after which the license is expired.
    pub expires_at: Option<i64>,
    pub entitlements: Vec<Capability>,
}

pub struct PayloadView {
    pub plan: Plan,
    pub machine_id: Seq<char>,
    pub expires_at: Option<i64>,
    pub entitlements: Seq<Capability>,
}

impl View for LicensePayload {
    type V = PayloadView;

    open spec fn view(&self) -> PayloadView {
        PayloadView {
            plan: self.plan,
            machine_id: self.machine_id@,
            expires_at: self.expires_at,
            entitlements: self.entitlements@,
        }
    }
}

/// A license file: the payload and its Ed25519 signature in Base64.
#[derive(Debug)]
pub struct LicenseFile {
    pub payload: LicensePayload,
    pub signature_b64: String,
}

/// Why a license is not usable.
#[derive(Debug)]
pub enum LicenseError {
    NotFound,
    Invalid(String),
    MissingCapability(Capability),
}

pub enum LicenseErrorView {
    NotFound,
    Invalid(Seq<char>),
    MissingCapability(Capability),
}

impl View for LicenseError {
    type V = LicenseErrorView;

    open spec fn view(&self) -> LicenseErrorView {
        match self {
            LicenseError::NotFound => LicenseErrorView::NotFound,
            LicenseError::Invalid(m) => LicenseErrorView::Invalid(m@),
            LicenseError::MissingCapability(c) => LicenseErrorView::MissingCapability(*c),
        }
    }
}

/// The text a license error is shown with.
pub open spec fn license_error_text(e: LicenseErrorView) -> Seq<char> {
    match e {
        LicenseErrorView::NotFound => "license not found"@,
        LicenseErrorView::Invalid(m) => "license invalid: "@ + m,
        LicenseErrorView::MissingCapability(c) => "missing capability: "@ + capability_name(c),
    }
}

impl LicenseError {
    /// The text the error is shown with.
    pub fn to_string(&self) -> (r: String)
        ensures
            r@ == license_error_text(self@),
    {
        match self {
            LicenseError::NotFound => "license not found".to_string(),
            LicenseError::Invalid(m) => {
                let mut s = "license invalid: ".to_string();
                s.append(m.as_str());
                s
            },
            LicenseError::MissingCapability(c) => {
                let mut s = "missing capability: ".to_string();
                s.append(capability_str(*c));
                s
            },
        }
    }
}

fn invalid(m: &str) -> (r: LicenseError)
    ensures
        r@ == LicenseErrorView::Invalid(m@),
{
    LicenseError::Invalid(m.to_string())
}

// ---------- where the files of a profile live ----------

/// `base` joined with `component` as `PathBuf::push` does it on Unix: an
/// absolute component replaces the path, else a `/` is put between them
/// unless the path is empty or already ends in one.
pub open spec fn path_join_spec(base: Seq<char>, component: Seq<char>) -> Seq<char> {
    if component.len() > 0 && component[0] == '/' {
        component
    } else if base.len() > 0 && base.last() != '/' {
        base + seq!['/'] + component
    } else {
        base + component
    }
}

pub fn path_join(base: &str, component: &str) -> (r: String)
    ensures
        r@ == path_join_spec(base@, component@),
{
    let n = component.unicode_len();
    if n > 0 && component.get_char(0) == '/' {
        return component.to_string();
    }
    let m = base.unicode_len();
    let mut r = base.to_string();
    if m > 0 && base.get_char(m - 1) != '/' {
        push_char(&mut r, '/');
    }
    r.append(component);
    r
}

/// The directory of the tool's own files: `shipfe` under the user's
/// configuration directory.
pub open spec fn app_dir_spec(config_dir: Seq<char>) -> Seq<char> {
    path_join_spec(config_dir, "shipfe"@)
}

pub open spec fn profiles_dir_spec(config_dir: Seq<char>) -> Seq<char> {
    path_join_spec(app_dir_spec(config_dir), "profiles"@)
}

pub open spec fn profile_dir_spec(config_dir: Seq<char>, profile: Seq<char>) -> Seq<char> {
    path_join_spec(profiles_dir_spec(config_dir), profile)
}

/// The license file of a profile.
pub open spec fn license_path_spec(config_dir: Seq<char>, profile: Seq<char>) -> Seq<char> {
    path_join_spec(profile_dir_spec(config_dir, profile), "license.json"@)
}

/// The machine id file of a profile.
pub open spec fn machine_id_path_spec(config_dir: Seq<char>, profile: Seq<char>) -> Seq<char> {
    path_join_spec(profile_dir_spec(config_dir, profile), "machine_id"@)
}

proof fn lemma_profile_dir_shape(base: Seq<char>, p: Seq<char>)
    requires
        p.len() > 0,
        !p.contains('/'),
    ensures
        profile_dir_spec(base, p) == profiles_dir_spec(base) + seq!['/'] + p,
        profile_dir_spec(base, p).len() > 0,
        profile_dir_spec(base, p).last() != '/',
        machine_id_path_spec(base, p) == profile_dir_spec(base, p) + seq!['/'] + "machine_id"@,
        license_path_spec(base, p) == profile_dir_spec(base, p) + seq!['/'] + "license.json"@,
{
    reveal_strlit("shipfe");
    reveal_strlit("profiles");
    reveal_strlit("machine_id");
    reveal_strlit("license.json");
    let app = app_dir_spec(base);
    let pd = profiles_dir_spec(base);
    assert(pd.len() > 0 && pd.last() == 's');
    assert(p[0] != '/');
    let d = profile_dir_spec(base, p);
    assert(d == pd + seq!['/'] + p);
    assert(d.last() == p.last());
    assert(p.last() != '/') by {
        assert(p[p.len() - 1] == p.last());
    }
}

/// One machine id per profile: a profile's machine id file and license file
/// stand side by side in the profile's directory and are different files,
/// and two different profiles (names that are single path components) have
/// different machine id files and different license files.
pub proof fn lemma_profile_files(base: Seq<char>, p: Seq<char>, q: Seq<char>)
    requires
        p.len() > 0,
        !p.contains('/'),
        q.len() > 0,
        !q.contains('/'),
    ensures
        machine_id_path_spec(base, p) == profile_dir_spec(base, p) + seq!['/'] + "machine_id"@,
        license_path_spec(base, p) == profile_dir_spec(base, p) + seq!['/'] + "license.json"@,
        machine_id_path_spec(base, p) != license_path_spec(base, p),
        p != q ==> machine_id_path_spec(base, p) != machine_id_path_spec(base, q),
        p != q ==> license_path_spec(base, p) != license_path_spec(base, q),
{
    lemma_profile_dir_shape(base, p);
    lemma_profile_dir_shape(base, q);
    reveal_strlit("machine_id");
    reveal_strlit("license.json");
    let dp = profile_dir_spec(base, p);
    let dq = profile_dir_spec(base, q);
    let pre = profiles_dir_spec(base) + seq!['/'];
    assert(machine_id_path_spec(base, p).len() != license_path_spec(base, p).len());
    if p != q {
        assert(dp =~= pre + p);
        assert(dq =~= pre + q);
        if dp == dq {
            assert(p =~= dp.skip(pre.len() as int));
            assert(q =~= dq.skip(pre.len() as int));
        }
        let m = seq!['/'] + "machine_id"@;
        let l = seq!['/'] + "license.json"@;
        if machine_id_path_spec(base, p) == machine_id_path_spec(base, q) {
            assert(machine_id_path_spec(base, p) =~= dp + m);
            assert(machine_id_path_spec(base, q) =~= dq + m);
            assert(dp =~= (dp + m).subrange(0, dp.len() as int));
            assert(dq =~= (dq + m).subrange(0, dq.len() as int));
        }
        if license_path_spec(base, p) == license_path_spec(base, q) {
            assert(license_path_spec(base, p) =~= dp + l);
            assert(license_path_spec(base, q) =~= dq + l);
            assert(dp =~= (dp + l).subrange(0, dp.len() as int));
            assert(dq =~= (dq + l).subrange(0, dq.len() as int));
        }
    }
}

/// The error when the user has no configuration directory.
pub open spec fn no_config_dir() -> LicenseErrorView {
    LicenseErrorView::Invalid("no config dir"@)
}

pub open spec fn path_result(r: Result<String, LicenseError>) -> Result<Seq<char>, LicenseErrorView> {
    match r {
        Ok(p) => Ok(p@),
        Err(e) => Err(e@),
    }
}

/// The directory of the tool's files, given the user's configuration
/// directory (`None` when there is none).
pub fn app_dir(config_dir: Option<String>) -> (r: Result<String, LicenseError>)
    ensures
        path_result(r) == match config_dir {
            Some(base) => Ok(app_dir_spec(base@)),
            None => Err(no_config_dir()),
        },
{
    match config_dir {
        Some(base) => Ok(path_join(base.as_str(), "shipfe")),
        None => Err(invalid("no config dir")),
    }
}

/// The directory that holds one directory per profile.
pub fn profiles_dir(config_dir: Option<String>) -> (r: Result<String, LicenseError>)
    ensures
        path_result(r) == match config_dir {
            Some(base) => Ok(profiles_dir_spec(base@)),
            None => Err(no_config_dir()),
        },
{
    let app = app_dir(config_dir)?;
    Ok(path_join(app.as_str(), "profiles"))
}

/// The directory of one profile.
pub fn profile_dir(config_dir: Option<String>, profile: &str) -> (r: Result<String, LicenseError>)
    ensures
        path_result(r) == match config_dir {
            Some(base) => Ok(profile_dir_spec(base@, profile@)),
            None => Err(no_config_dir()),
        },
{
    let dir = profiles_dir(config_dir)?;
    Ok(path_join(dir.as_str(), profile))
}

/// The license file of a profile.
pub fn license_path(config_dir: Option<String>, profile: &str) -> (r: Result<String, LicenseError>)
    ensures
        path_result(r) == match config_dir {
            Some(base) => Ok(license_path_spec(base@, profile@)),
            None => Err(no_config_dir()),
        },
{
    let dir = profile_dir(config_dir, profile)?;
    Ok(path_join(dir.as_str(), "license.json"))
}

/// The machine id file of a profile.
pub fn machine_id_path(config_dir: Option<String>, profile: &str) -> (r: Result<
    String,
    LicenseError,
>)
    ensures
        path_result(r) == match config_dir {
            Some(base) => Ok(machine_id_path_spec(base@, profile@)),
            None => Err(no_config_dir()),
        },
{
    let dir = profile_dir(config_dir, profile)?;
    Ok(path_join(dir.as_str(), "machine_id"))
}


// ---------- the machine id a license is bound to ----------

/// The machine id kept in a profile's file: its content trimmed, when
/// anything is left.
pub open spec fn stored_machine_id_spec(stored: Option<Seq<char>>) -> Option<Seq<char>> {
    match stored {
        Some(s) => if trim_seq(s).len() > 0 {
            Some(trim_seq(s))
        } else {
            None
        },
        None => None,
    }
}

/// The machine id read back from a profile's file (`None` when there is no
/// readable file): the trimmed content, unless it is empty.
pub fn stored_machine_id(stored: Option<String>) -> (r: Option<String>)
    ensures
        match r {
            Some(id) => stored_machine_id_spec(
                match stored {
                    Some(s) => Some(s@),
                    None => None,
                },
            ) == Some(id@),
            None => stored_machine_id_spec(
                match stored {
                    Some(s) => Some(s@),
                    None => None,
                },
            ) is None,
        },
{
    match stored {
        Some(s) => {
            let t = trim(s.as_str());
            if t.unicode_len() > 0 {
                Some(t)
            } else {
                None
            }
        },
        None => None,
    }
}

/// What a new machine id is made from: host name, user name, operating
/// system and a time salt, separated by `|`.
pub open spec fn fingerprint_text(host: Seq<char>, user: Seq<char>, os: Seq<char>, salt: Seq<char>) -> Seq<
    char,
> {
    host + "|"@ + user + "|"@ + os + "|"@ + salt
}

/// A new machine id: the SHA-256 of the fingerprint's UTF-8 bytes, in
/// lower-case hexadecimal.
pub open spec fn machine_id_spec(host: Seq<char>, user: Seq<char>, os: Seq<char>, salt: Seq<char>) -> Seq<
    char,
> {
    hex_lower(sha256_digest(encode_utf8(fingerprint_text(host, user, os, salt))))
}

pub fn new_machine_id(host: &str, user: &str, os: &str, salt: &str) -> (r: String)
    ensures
        r@ == machine_id_spec(host@, user@, os@, salt@),
        sha256_digest(encode_utf8(fingerprint_text(host@, user@, os@, salt@))).len() == 32,
{
    let mut raw = host.to_string();
    raw.append("|");
    raw.append(user);
    raw.append("|");
    raw.append(os);
    raw.append("|");
    raw.append(salt);
    assert(raw@ =~= fingerprint_text(host@, user@, os@, salt@));
    let digest = sha256(raw.as_str().as_bytes());
    hex_encode(&digest)
}

proof fn lemma_hex_chars(d: Seq<u8>)
    ensures
        hex_lower(d).len() == 2 * d.len(),
        forall|i: int| 0 <= i < hex_lower(d).len() ==> !is_ws(#[trigger] hex_lower(d)[i]),
    decreases d.len(),
{
    if d.len() > 0 {
        lemma_hex_chars(d.drop_last());
        let h = hex_lower(d);
        let p = hex_lower(d.drop_last());
        assert forall|i: int| 0 <= i < h.len() implies !is_ws(#[trigger] h[i]) by {
            if i < p.len() {
                assert(h[i] == p[i]);
            } else {
                let v = if i == p.len() { (d.last() / 16) as nat } else { (d.last() % 16) as nat };
                assert(h[i] == hex_digit(v));
            }
        }
    }
}

/// A machine id this tool made is read back unchanged from its file: the
/// id of a profile stays the same from one run to the next.
pub proof fn lemma_machine_id_reused(digest: Seq<u8>)
    requires
        digest.len() > 0,
    ensures
        stored_machine_id_spec(Some(hex_lower(digest))) == Some(hex_lower(digest)),
{
    let h = hex_lower(digest);
    lemma_hex_chars(digest);
    assert(!is_ws(h[0]));
    assert(trim_start_seq(h) == h);
    assert(!is_ws(h.last()));
    assert(trim_end_seq(h) == h);
}


// ---------- the signed form of a payload ----------

pub open spec fn plan_name(p: Plan) -> Seq<char> {
    match p {
        Plan::Free => "Free"@,
        Plan::Pro => "Pro"@,
    }
}

pub open spec fn capability_name(c: Capability) -> Seq<char> {
    match c {
        Capability::AtomicSwitch => "AtomicSwitch"@,
        Capability::Rollback => "Rollback"@,
        Capability::MultiServer => "MultiServer"@,
    }
}

/// The JSON of an expiry: the Unix time, or `null` for none.
pub open spec fn expires_json(e: Option<i64>) -> Seq<char> {
    match e {
        Some(t) => signed_decimal(t as int),
        None => "null"@,
    }
}

/// The JSON string literals of capabilities.
pub open spec fn capability_literals(caps: Seq<Capability>) -> Seq<Seq<char>> {
    caps.map_values(|c: Capability| json_string(capability_name(c)))
}

/// The compact JSON of a payload, fields in declaration order, as
/// `serde_json::to_vec` writes it: this text is what is signed.
pub open spec fn payload_json(p: PayloadView) -> Seq<char> {
    "{\"plan\":"@ + json_string(plan_name(p.plan)) + ",\"machine_id\":"@ + json_string(p.machine_id)
        + ",\"expires_at\":"@ + expires_json(p.expires_at) + ",\"entitlements\":["@ + join_seq(
        capability_literals(p.entitlements),
        seq![','],
    ) + "]}"@
}

fn plan_str(p: Plan) -> (r: &'static str)
    ensures
        r@ == plan_name(p),
{
    match p {
        Plan::Free => "Free",
        Plan::Pro => "Pro",
    }
}

fn capability_str(c: Capability) -> (r: &'static str)
    ensures
        r@ == capability_name(c),
{
    match c {
        Capability::AtomicSwitch => "AtomicSwitch",
        Capability::Rollback => "Rollback",
        Capability::MultiServer => "MultiServer",
    }
}

proof fn lemma_join_step(parts: Seq<Seq<char>>, x: Seq<char>)
    ensures
        join_seq(parts.push(x), seq![',']) == if parts.len() == 0 {
            x
        } else {
            join_seq(parts, seq![',']) + seq![','] + x
        },
    decreases parts.len(),
{
    if parts.len() > 1 {
        lemma_join_step(parts.drop_first(), x);
        assert(parts.push(x).drop_first() == parts.drop_first().push(x));
        let j = join_seq(parts.drop_first(), seq![',']);
        assert(parts[0] + seq![','] + (j + seq![','] + x) =~= parts[0] + seq![','] + j + seq![',']
            + x);
    } else if parts.len() == 1 {
        assert(parts.push(x).drop_first() == seq![x]);
        assert(join_seq(seq![x], seq![',']) == x);
    } else {
        assert(parts.push(x) == seq![x]);
    }
}

/// The bytes that are signed for a payload: the UTF-8 of its compact JSON.
pub fn canonical_payload_json(payload: &LicensePayload) -> (r: Result<Vec<u8>, LicenseError>)
    ensures
        r matches Ok(b) && b@ == encode_utf8(payload_json(payload@)),
{
    let mut s = "{\"plan\":".to_string();
    push_json_string(&mut s, plan_str(payload.plan));
    s.append(",\"machine_id\":");
    push_json_string(&mut s, payload.machine_id.as_str());
    s.append(",\"expires_at\":");
    match payload.expires_at {
        Some(e) => push_signed_decimal(&mut s, e),
        None => s.append("null"),
    }
    s.append(",\"entitlements\":[");
    let ghost head = s@;
    let caps = &payload.entitlements;
    let mut i: usize = 0;
    while i < caps.len()
        invariant
            i <= caps.len(),
            s@ == head + join_seq(
                caps@.subrange(0, i as int).map_values(
                    |c: Capability| json_string(capability_name(c)),
                ),
                seq![','],
            ),
        decreases caps.len() - i,
    {
        let ghost before = caps@.subrange(0, i as int).map_values(
            |c: Capability| json_string(capability_name(c)),
        );
        if i > 0 {
            push_char(&mut s, ',');
        }
        push_json_string(&mut s, capability_str(caps[i]));
        proof {
            let x = json_string(capability_name(caps@[i as int]));
            assert(caps@.subrange(0, i + 1).map_values(
                |c: Capability| json_string(capability_name(c)),
            ) =~= before.push(x));
            lemma_join_step(before, x);
        }
        i = i + 1;
    }
    s.append("]}");
    assert(caps@.subrange(0, caps@.len() as int) == caps@);
    assert(s@ =~= payload_json(payload@));
    Ok(s.as_str().as_bytes_vec())
}


proof fn lemma_capability_names(c: Capability, d: Capability)
    ensures
        !capability_name(c).contains(','),
        capability_name(c) == capability_name(d) ==> c == d,
{
    reveal_strlit("AtomicSwitch");
    reveal_strlit("Rollback");
    reveal_strlit("MultiServer");
    let n = capability_name(c);
    assert forall|i: int| 0 <= i < n.len() implies n[i] != ',' by {}
    if c != d {
        assert(capability_name(c).len() != capability_name(d).len());
    }
}

proof fn lemma_expires_json(e: Option<i64>, f: Option<i64>)
    ensures
        !expires_json(e).contains(','),
        expires_json(e) == expires_json(f) ==> e == f,
{
    reveal_strlit("null");
    let t = expires_json(e);
    let u = expires_json(f);
    match e {
        Some(x) => {
            if x < 0 {
                lemma_decimal_digits((-x) as nat);
                assert forall|i: int| 0 <= i < t.len() implies t[i] != ',' by {
                    if i > 0 {
                        assert(t[i] == decimal((-x) as nat)[i - 1]);
                    }
                }
            } else {
                lemma_decimal_digits(x as nat);
                assert forall|i: int| 0 <= i < t.len() implies t[i] != ',' by {
                    assert(t[i] == decimal(x as nat)[i]);
                }
            }
        },
        None => {
            assert forall|i: int| 0 <= i < t.len() implies t[i] != ',' by {}
        },
    }
    if t == u {
        match (e, f) {
            (Some(x), Some(y)) => {
                lemma_signed_decimal_injective(x as int, y as int);
            },
            (Some(x), None) => {
                if x < 0 {
                    lemma_decimal_digits((-x) as nat);
                } else {
                    lemma_decimal_digits(x as nat);
                    assert(t[0] == decimal(x as nat)[0]);
                }
                assert(t[0] == u[0]);
            },
            (None, Some(y)) => {
                if y < 0 {
                    lemma_decimal_digits((-y) as nat);
                } else {
                    lemma_decimal_digits(y as nat);
                    assert(u[0] == decimal(y as nat)[0]);
                }
                assert(t[0] == u[0]);
            },
            (None, None) => {},
        }
    }
}

proof fn lemma_literals_shape(caps: Seq<Capability>)
    ensures
        forall|i: int|
            0 <= i < capability_literals(caps).len() ==> (#[trigger] capability_literals(caps)[i]).len()
                > 0 && !capability_literals(caps)[i].contains(','),
{
    assert forall|i: int| 0 <= i < capability_literals(caps).len() implies (
    #[trigger] capability_literals(caps)[i]).len() > 0 && !capability_literals(caps)[i].contains(
        ',',
    ) by {
        let name = capability_name(caps[i]);
        lemma_capability_names(caps[i], caps[i]);
        lemma_json_escape_no_comma(name);
        let lit = json_string(name);
        assert(lit == capability_literals(caps)[i]);
        if lit.contains(',') {
            let k = choose|k: int| 0 <= k < lit.len() && lit[k] == ',';
            if k > 0 && k < lit.len() - 1 {
                assert(json_escape(name)[k - 1] == ',');
            }
        }
    }
}

spec fn tail4(ent: Seq<Capability>) -> Seq<char> {
    ",\"entitlements\":["@ + (join_seq(capability_literals(ent), seq![',']) + "]}"@)
}

spec fn tail3(exp: Option<i64>, ent: Seq<Capability>) -> Seq<char> {
    ",\"expires_at\":"@ + (expires_json(exp) + tail4(ent))
}

spec fn tail2(mid: Seq<char>, exp: Option<i64>, ent: Seq<Capability>) -> Seq<char> {
    ",\"machine_id\":"@ + (json_string(mid) + tail3(exp, ent))
}

proof fn lemma_tail4(e: Seq<Capability>, f: Seq<Capability>)
    requires
        tail4(e) == tail4(f),
    ensures
        e == f,
{
    let k4 = ",\"entitlements\":["@;
    let k5 = "]}"@;
    let je = join_seq(capability_literals(e), seq![',']);
    let jf = join_seq(capability_literals(f), seq![',']);
    assert(je + k5 =~= tail4(e).skip(k4.len() as int));
    assert(jf + k5 =~= tail4(f).skip(k4.len() as int));
    assert(je =~= (je + k5).subrange(0, je.len() as int));
    assert(jf =~= (jf + k5).subrange(0, jf.len() as int));
    lemma_literals_shape(e);
    lemma_literals_shape(f);
    lemma_join_injective(',', capability_literals(e), capability_literals(f));
    assert forall|i: int| 0 <= i < e.len() implies e[i] == f[i] by {
        let a = capability_name(e[i]);
        let b = capability_name(f[i]);
        assert(capability_literals(e)[i] == json_string(a));
        assert(capability_literals(f)[i] == json_string(b));
        assert(json_string(a) + Seq::<char>::empty() =~= json_string(b) + Seq::<char>::empty());
        lemma_json_string_prefix(a, b, Seq::<char>::empty(), Seq::<char>::empty());
        lemma_capability_names(e[i], f[i]);
    }
    assert(e =~= f);
}

proof fn lemma_tail3(x: Option<i64>, e: Seq<Capability>, y: Option<i64>, f: Seq<Capability>)
    requires
        tail3(x, e) == tail3(y, f),
    ensures
        x == y,
        e == f,
{
    let k3 = ",\"expires_at\":"@;
    assert(expires_json(x) + tail4(e) =~= tail3(x, e).skip(k3.len() as int));
    assert(expires_json(y) + tail4(f) =~= tail3(y, f).skip(k3.len() as int));
    lemma_expires_json(x, y);
    lemma_expires_json(y, x);
    reveal_strlit(",\"entitlements\":[");
    assert(tail4(e)[0] == ',' && tail4(f)[0] == ',');
    lemma_split_at(',', expires_json(x), expires_json(y), tail4(e), tail4(f));
    lemma_tail4(e, f);
}

proof fn lemma_tail2(
    m: Seq<char>,
    x: Option<i64>,
    e: Seq<Capability>,
    n: Seq<char>,
    y: Option<i64>,
    f: Seq<Capability>,
)
    requires
        tail2(m, x, e) == tail2(n, y, f),
    ensures
        m == n,
        x == y,
        e == f,
{
    let k2 = ",\"machine_id\":"@;
    assert(json_string(m) + tail3(x, e) =~= tail2(m, x, e).skip(k2.len() as int));
    assert(json_string(n) + tail3(y, f) =~= tail2(n, y, f).skip(k2.len() as int));
    lemma_json_string_prefix(m, n, tail3(x, e), tail3(y, f));
    lemma_tail3(x, e, y, f);
}

proof fn lemma_payload_shape(p: PayloadView)
    ensures
        payload_json(p).skip("{\"plan\":"@.len() as int) == json_string(plan_name(p.plan)) + tail2(
            p.machine_id,
            p.expires_at,
            p.entitlements,
        ),
{
    let k1 = "{\"plan\":"@;
    let rest = json_string(plan_name(p.plan)) + tail2(p.machine_id, p.expires_at, p.entitlements);
    assert(payload_json(p) =~= k1 + rest);
    assert((k1 + rest).skip(k1.len() as int) =~= rest);
}

proof fn lemma_plan_names(a: Plan, b: Plan)
    ensures
        plan_name(a) == plan_name(b) ==> a == b,
{
    reveal_strlit("Free");
    reveal_strlit("Pro");
    if a != b {
        assert(plan_name(a).len() != plan_name(b).len());
    }
}

/// The signed text determines the payload: two payloads with the same
/// canonical JSON are the same payload, so a signature speaks for one
/// payload only.
pub proof fn lemma_payload_json_injective(p: PayloadView, q: PayloadView)
    requires
        payload_json(p) == payload_json(q),
    ensures
        p == q,
{
    lemma_payload_shape(p);
    lemma_payload_shape(q);
    let p2 = tail2(p.machine_id, p.expires_at, p.entitlements);
    let q2 = tail2(q.machine_id, q.expires_at, q.entitlements);
    lemma_json_string_prefix(plan_name(p.plan), plan_name(q.plan), p2, q2);
    lemma_plan_names(p.plan, q.plan);
    lemma_tail2(
        p.machine_id,
        p.expires_at,
        p.entitlements,
        q.machine_id,
        q.expires_at,
        q.entitlements,
    );
}

/// The signed bytes determine the payload.
pub proof fn lemma_signed_bytes_injective(p: PayloadView, q: PayloadView)
    requires
        encode_utf8(payload_json(p)) == encode_utf8(payload_json(q)),
    ensures
        p == q,
{
    vstd::utf8::encode_utf8_decode_utf8(payload_json(p));
    vstd::utf8::encode_utf8_decode_utf8(payload_json(q));
    lemma_payload_json_injective(p, q);
}

// ---------- verification ----------

/// The public key that licenses are verified with. None is set yet: every
/// call fails with `verifying key not set yet`.
pub fn verifying_key() -> (r: Result<[u8; 32], LicenseError>)
    ensures
        r matches Err(e) && e@ == LicenseErrorView::Invalid("verifying key not set yet"@),
{
    Err(invalid("verifying key not set yet"))
}

/// Whether `sig_b64` is the Base64 of a 64-byte Ed25519 signature of
/// `message` that verifies under `public_key`.
pub open spec fn signature_valid(public_key: Seq<u8>, message: Seq<u8>, sig_b64: Seq<char>) -> bool {
    exists|sig: Seq<u8>|
        base64_spec(sig) == sig_b64 && sig.len() == 64 && #[trigger] ed25519_accepts(
            public_key,
            message,
            sig,
        )
}

pub open spec fn is_invalid(e: LicenseErrorView) -> bool {
    e is Invalid
}

/// Checks the signature of a license under `public_key`: the Base64 text
/// must decode to 64 bytes that sign the payload's canonical JSON.
pub fn check_signature(public_key: &[u8; 32], lf: &LicenseFile) -> (r: Result<(), LicenseError>)
    ensures
        r is Ok <==> signature_valid(
            public_key@,
            encode_utf8(payload_json(lf.payload@)),
            lf.signature_b64@,
        ),
        r matches Err(e) ==> is_invalid(e@),
{
    let msg = match canonical_payload_json(&lf.payload) {
        Ok(m) => m,
        Err(e) => { return Err(e); },
    };
    let ghost m = encode_utf8(payload_json(lf.payload@));
    let sig_bytes = match base64_decode(lf.signature_b64.as_str()) {
        Ok(b) => b,
        Err(e) => { return Err(LicenseError::Invalid(e)); },
    };
    let sig = match signature_from_slice(sig_bytes.as_slice()) {
        Ok(s) => s,
        Err(e) => {
            proof {
                assert forall|x: Seq<u8>|
                    base64_spec(x) == lf.signature_b64@ && x.len() == 64 implies !#[trigger] ed25519_accepts(
                    public_key@,
                    m,
                    x,
                ) by {
                    lemma_base64_injective(x, sig_bytes@);
                }
            }
            return Err(LicenseError::Invalid(e));
        },
    };
    match ed25519_verify(public_key, msg.as_slice(), &sig) {
        Ok(()) => {
            assert(base64_spec(sig@) == lf.signature_b64@ && sig@.len() == 64);
            Ok(())
        },
        Err(e) => {
            proof {
                assert forall|x: Seq<u8>|
                    base64_spec(x) == lf.signature_b64@ && x.len() == 64 implies !#[trigger] ed25519_accepts(
                    public_key@,
                    m,
                    x,
                ) by {
                    lemma_base64_injective(x, sig_bytes@);
                }
            }
            Err(LicenseError::Invalid(e))
        },
    }
}

pub struct LicenseView {
    pub payload: PayloadView,
    pub signature_b64: Seq<char>,
}

impl View for LicenseFile {
    type V = LicenseView;

    open spec fn view(&self) -> LicenseView {
        LicenseView { payload: self.payload@, signature_b64: self.signature_b64@ }
    }
}

/// The outcome of verifying a license for this machine at Unix time `now`:
/// it must be bound to this machine's id and not be expired; then its
/// signature would be checked, but no verifying key is set, which fails.
pub open spec fn verify_license_spec(lf: LicenseView, expected_machine_id: Seq<char>, now: i64) -> Result<
    (),
    LicenseErrorView,
> {
    if lf.payload.machine_id != expected_machine_id {
        Err(LicenseErrorView::Invalid("machine_id mismatch"@))
    } else if lf.payload.expires_at matches Some(exp) && now > exp {
        Err(LicenseErrorView::Invalid("license expired"@))
    } else {
        Err(LicenseErrorView::Invalid("verifying key not set yet"@))
    }
}

pub open spec fn unit_result(r: Result<(), LicenseError>) -> Result<(), LicenseErrorView> {
    match r {
        Ok(()) => Ok(()),
        Err(e) => Err(e@),
    }
}

/// Verifies a license for the machine `expected_machine_id` at Unix time
/// `now` (seconds).
pub fn verify_license(lf: &LicenseFile, expected_machine_id: &str, now: i64) -> (r: Result<
    (),
    LicenseError,
>)
    ensures
        unit_result(r) == verify_license_spec(lf@, expected_machine_id@, now),
{
    let expected = expected_machine_id.to_string();
    if lf.payload.machine_id != expected {
        return Err(invalid("machine_id mismatch"));
    }
    if let Some(exp) = lf.payload.expires_at {
        if now > exp {
            return Err(invalid("license expired"));
        }
    }
    let vk = verifying_key()?;
    check_signature(&vk, lf)
}

// ---------- what a license grants ----------

/// What the license of a profile grants: nothing on the free plan, the
/// licensed capabilities on the pro plan.
#[derive(Debug)]
pub enum LicenseCtx {
    Free,
    /// The capabilities granted, each once.
    Pro { entitlements: Vec<Capability> },
}

impl LicenseCtx {
    /// Whether the context grants `cap`.
    pub open spec fn grants(&self, cap: Capability) -> bool {
        match self {
            LicenseCtx::Free => false,
            LicenseCtx::Pro { entitlements } => entitlements@.contains(cap),
        }
    }

    /// Its capabilities occur once each, as in a set.
    pub open spec fn wf(&self) -> bool {
        match self {
            LicenseCtx::Free => true,
            LicenseCtx::Pro { entitlements } => entitlements@.no_duplicates(),
        }
    }

    /// The license context of a profile, from the profile's machine id (or
    /// the error of getting it) and the loaded license file (or the error of
    /// loading it), at Unix time `now`: the free plan when there is no
    /// license, else the license's capabilities once it verifies.
    pub fn from_file_or_free(
        machine_id: Result<String, LicenseError>,
        loaded: Result<LicenseFile, LicenseError>,
        now: i64,
    ) -> (r: Result<Self, LicenseError>)
        ensures
            match machine_id {
                Err(e) => r matches Err(x) && x@ == e@,
                Ok(id) => match loaded {
                    Err(LicenseError::NotFound) => r matches Ok(LicenseCtx::Free),
                    Err(e) => r matches Err(x) && x@ == e@,
                    Ok(lf) => match verify_license_spec(lf@, id@, now) {
                        Err(v) => r matches Err(x) && x@ == v,
                        Ok(()) => r matches Ok(ctx) && ctx.wf() && (forall|c: Capability|
                            ctx.grants(c) <==> lf.payload.entitlements@.contains(c)),
                    },
                },
            },
    {
        let id = machine_id?;
        let lf = match loaded {
            Ok(v) => v,
            Err(LicenseError::NotFound) => { return Ok(LicenseCtx::Free); },
            Err(e) => { return Err(e); },
        };
        verify_license(&lf, id.as_str(), now)?;
        let caps = &lf.payload.entitlements;
        let mut set: Vec<Capability> = Vec::new();
        let mut i: usize = 0;
        while i < caps.len()
            invariant
                i <= caps.len(),
                set@.no_duplicates(),
                forall|c: Capability| set@.contains(c) <==> caps@.subrange(0, i as int).contains(c),
            decreases caps.len() - i,
        {
            let c = caps[i];
            let mut found = false;
            let mut j: usize = 0;
            while j < set.len()
                invariant
                    j <= set.len(),
                    found <==> set@.subrange(0, j as int).contains(c),
                decreases set.len() - j,
            {
                if set[j] == c {
                    found = true;
                }
                proof {
                    let t0 = set@.subrange(0, j as int);
                    let t1 = set@.subrange(0, j + 1);
                    assert(t1 == t0.push(set@[j as int]));
                    if t1.contains(c) && set@[j as int] != c {
                        let k = choose|k: int| 0 <= k < t1.len() && t1[k] == c;
                        assert(t0[k] == c);
                    }
                    if t0.contains(c) {
                        let k = choose|k: int| 0 <= k < t0.len() && t0[k] == c;
                        assert(t1[k] == c);
                    }
                    if set@[j as int] == c {
                        assert(t1[j as int] == c);
                    }
                }
                j = j + 1;
            }
            assert(set@.subrange(0, set@.len() as int) == set@);
            assert(caps@.subrange(0, i + 1) == caps@.subrange(0, i as int).push(c));
            if !found {
                let ghost old_set = set@;
                set.push(c);
                assert forall|a: int, b: int| 0 <= a < b < set@.len() implies set@[a] != set@[b] by {
                    if b == old_set.len() {
                        assert(old_set.contains(old_set[a]));
                    }
                }
                assert forall|x: Capability| set@.contains(x) <==> caps@.subrange(0, i + 1).contains(
                    x,
                ) by {
                    if set@.contains(x) && x != c {
                        let k = choose|k: int| 0 <= k < set@.len() && set@[k] == x;
                        assert(old_set[k] == x);
                    }
                    if old_set.contains(x) {
                        let k = choose|k: int| 0 <= k < old_set.len() && old_set[k] == x;
                        assert(set@[k] == x);
                    }
                    if x == c {
                        assert(set@[old_set.len() as int] == x);
                    }
                    let s0 = caps@.subrange(0, i as int);
                    let s1 = caps@.subrange(0, i + 1);
                    if s1.contains(x) && x != c {
                        let k = choose|k: int| 0 <= k < s1.len() && s1[k] == x;
                        assert(s0[k] == x);
                    }
                    if s0.contains(x) {
                        let k = choose|k: int| 0 <= k < s0.len() && s0[k] == x;
                        assert(s1[k] == x);
                    }
                    if x == c {
                        assert(s1[i as int] == x);
                    }
                }
            } else {
                assert forall|x: Capability| set@.contains(x) <==> caps@.subrange(0, i + 1).contains(
                    x,
                ) by {
                    let s0 = caps@.subrange(0, i as int);
                    let s1 = caps@.subrange(0, i + 1);
                    if s1.contains(x) && x != c {
                        let k = choose|k: int| 0 <= k < s1.len() && s1[k] == x;
                        assert(s0[k] == x);
                    }
                    if s0.contains(x) {
                        let k = choose|k: int| 0 <= k < s0.len() && s0[k] == x;
                        assert(s1[k] == x);
                    }
                    if x == c {
                        assert(s1[i as int] == x);
                    }
                }
            }
            i = i + 1;
        }
        assert(caps@.subrange(0, caps@.len() as int) == caps@);
        Ok(LicenseCtx::Pro { entitlements: set })
    }

    /// Succeeds exactly when the context grants `cap`; otherwise reports the
    /// missing capability.
    pub fn require(&self, cap: Capability) -> (r: Result<(), LicenseError>)
        requires
            self.wf(),
        ensures
            r is Ok <==> self.grants(cap),
            r matches Err(e) ==> e@ == LicenseErrorView::MissingCapability(cap),
    {
        match self {
            LicenseCtx::Free => Err(LicenseError::MissingCapability(cap)),
            LicenseCtx::Pro { entitlements } => {
                let mut i: usize = 0;
                while i < entitlements.len()
                    invariant
                        i <= entitlements.len(),
                        self.grants(cap) <==> entitlements@.contains(cap),
                        forall|j: int| 0 <= j < i ==> entitlements@[j] != cap,
                    decreases entitlements.len() - i,
                {
                    if entitlements[i] == cap {
                        assert(entitlements@[i as int] == cap);
                        return Ok(());
                    }
                    i = i + 1;
                }
                Err(LicenseError::MissingCapability(cap))
            },
        }
    }
}

/// The free plan grants no capability.
pub proof fn lemma_free_grants_nothing(cap: Capability)
    ensures
        !LicenseCtx::Free.grants(cap),
{
}

// ---------- issuing licenses ----------

/// The payload the issuer signs for a machine: the pro plan, no expiry,
/// atomic switching and rollback.
pub fn issuer_payload(machine_id: String) -> (r: LicensePayload)
    ensures
        r@ == (PayloadView {
            plan: Plan::Pro,
            machine_id: machine_id@,
            expires_at: None,
            entitlements: seq![Capability::AtomicSwitch, Capability::Rollback],
        }),
{
    let mut entitlements: Vec<Capability> = Vec::new();
    entitlements.push(Capability::AtomicSwitch);
    entitlements.push(Capability::Rollback);
    let r = LicensePayload { plan: Plan::Pro, machine_id, expires_at: None, entitlements };
    assert(r@.entitlements =~= seq![Capability::AtomicSwitch, Capability::Rollback]);
    r
}

/// Signs `payload` with the Ed25519 secret key `secret_key`. The license it
/// makes passes `check_signature` under the key's public key.
pub fn issue_license(secret_key: &[u8; 32], payload: LicensePayload) -> (r: LicenseFile)
    ensures
        r.payload@ == payload@,
        r.signature_b64@ == base64_spec(
            crate::outside::ed25519_signature(secret_key@, encode_utf8(payload_json(payload@))),
        ),
        signature_valid(
            ed25519_public_key(secret_key@),
            encode_utf8(payload_json(r.payload@)),
            r.signature_b64@,
        ),
{
    let msg = match canonical_payload_json(&payload) {
        Ok(m) => m,
        Err(_) => Vec::new(),
    };
    let sig = ed25519_sign(secret_key, msg.as_slice());
    let signature_b64 = base64_encode(&sig);
    assert(ed25519_accepts(ed25519_public_key(secret_key@), encode_utf8(payload_json(payload@)), sig@));
    LicenseFile { payload, signature_b64 }
}

/// The Base64 of the public key of `secret_key`, which the issuer prints.
pub fn public_key_b64(secret_key: &[u8; 32]) -> (r: String)
    ensures
        r@ == base64_spec(ed25519_public_key(secret_key@)),
{
    let pk = ed25519_public(secret_key);
    base64_encode(&pk)
}

} // verus!
