use base64::Engine;
use sha2::Digest;
use shipfe::codec::push_json_string;
use shipfe::license::{
    app_dir, canonical_payload_json, check_signature, issue_license, issuer_payload,
    license_path, machine_id_path, new_machine_id, path_join, profile_dir, profiles_dir,
    public_key_b64, stored_machine_id, verify_license, verifying_key, Capability, LicenseCtx,
    LicenseError, LicenseFile, LicensePayload, Plan,
};

const SECRET: [u8; 32] = [7u8; 32];

fn invalid(e: LicenseError) -> String {
    match e {
        LicenseError::Invalid(m) => m,
        other => panic!("not an invalid-license error: {:?}", other),
    }
}

fn payload(machine_id: &str, expires_at: Option<i64>) -> LicensePayload {
    LicensePayload {
        plan: Plan::Pro,
        machine_id: machine_id.to_string(),
        expires_at,
        entitlements: vec![Capability::AtomicSwitch, Capability::Rollback],
    }
}

fn public_key() -> [u8; 32] {
    ed25519_dalek::SigningKey::from_bytes(&SECRET).verifying_key().to_bytes()
}

#[test]
fn paths_under_config_dir() {
    let base = Some("/home/u/.config".to_string());
    assert_eq!(app_dir(base.clone()).ok().unwrap(), "/home/u/.config/shipfe");
    assert_eq!(profiles_dir(base.clone()).ok().unwrap(), "/home/u/.config/shipfe/profiles");
    assert_eq!(profile_dir(base.clone(), "prod").ok().unwrap(), "/home/u/.config/shipfe/profiles/prod");
    assert_eq!(
        license_path(base.clone(), "prod").ok().unwrap(),
        "/home/u/.config/shipfe/profiles/prod/license.json"
    );
    assert_eq!(
        machine_id_path(Some("/cfg/".to_string()), "dev").ok().unwrap(),
        "/cfg/shipfe/profiles/dev/machine_id"
    );
    assert_eq!(invalid(profiles_dir(None).err().unwrap()), "no config dir");
    assert_eq!(invalid(license_path(None, "x").err().unwrap()), "no config dir");
}

#[test]
fn path_join_agrees_with_pathbuf() {
    let cases = [("/a", "b"), ("/a/", "b"), ("", "b"), ("/a", "/abs"), ("a", ""), ("/", "x")];
    for (base, comp) in cases {
        let expected = std::path::Path::new(base).join(comp).to_string_lossy().to_string();
        assert_eq!(path_join(base, comp), expected, "{:?} + {:?}", base, comp);
    }
}

#[test]
fn stored_machine_ids() {
    assert_eq!(stored_machine_id(Some("  abc123\n".to_string())), Some("abc123".to_string()));
    assert_eq!(stored_machine_id(Some(" \n\t".to_string())), None);
    assert_eq!(stored_machine_id(None), None);
}

#[test]
fn machine_id_is_sha256_hex_of_fingerprint() {
    let id = new_machine_id("host", "alice", "Linux", "1700000000000000000");
    let expected = hex::encode(sha2::Sha256::digest(b"host|alice|Linux|1700000000000000000"));
    assert_eq!(id, expected);
    assert_eq!(id.len(), 64);
    assert_eq!(stored_machine_id(Some(id.clone())), Some(id));
}

#[test]
fn canonical_json_is_compact_serde_form() {
    let p = payload("abc", None);
    let bytes = canonical_payload_json(&p).ok().unwrap();
    assert_eq!(
        String::from_utf8(bytes).unwrap(),
        "{\"plan\":\"Pro\",\"machine_id\":\"abc\",\"expires_at\":null,\"entitlements\":[\"AtomicSwitch\",\"Rollback\"]}"
    );
    let q = LicensePayload {
        plan: Plan::Free,
        machine_id: "q\"\\\n\u{1}é".to_string(),
        expires_at: Some(-5),
        entitlements: vec![],
    };
    let mut id = String::new();
    push_json_string(&mut id, &q.machine_id);
    assert_eq!(id, serde_json::to_string(&q.machine_id).unwrap());
    assert_eq!(
        String::from_utf8(canonical_payload_json(&q).ok().unwrap()).unwrap(),
        format!("{{\"plan\":\"Free\",\"machine_id\":{},\"expires_at\":-5,\"entitlements\":[]}}", id)
    );
}

#[test]
fn json_strings_agree_with_serde_json() {
    let mut all = String::new();
    for v in 0u32..0x100 {
        all.push(char::from_u32(v).unwrap());
    }
    all.push_str("\u{2028}\u{10ffff}");
    let mut out = String::new();
    push_json_string(&mut out, &all);
    assert_eq!(out, serde_json::to_string(&all).unwrap());
}

#[test]
fn issued_license_verifies_under_issuer_key() {
    let lf = issue_license(&SECRET, issuer_payload("machine-1".to_string()));
    assert_eq!(lf.payload.machine_id, "machine-1");
    assert!(matches!(lf.payload.plan, Plan::Pro));
    assert_eq!(lf.payload.entitlements, vec![Capability::AtomicSwitch, Capability::Rollback]);
    assert!(lf.payload.expires_at.is_none());
    assert!(check_signature(&public_key(), &lf).is_ok());
    let sig = base64::engine::general_purpose::STANDARD.decode(&lf.signature_b64).unwrap();
    assert_eq!(sig.len(), 64);
}

#[test]
fn public_key_is_printed_in_base64() {
    assert_eq!(
        public_key_b64(&SECRET),
        base64::engine::general_purpose::STANDARD.encode(public_key())
    );
}

#[test]
fn tampered_or_malformed_signatures_fail() {
    let lf = issue_license(&SECRET, issuer_payload("m".to_string()));
    let tampered = LicenseFile { payload: payload("m2", None), signature_b64: lf.signature_b64.clone() };
    assert!(!invalid(check_signature(&public_key(), &tampered).err().unwrap()).is_empty());
    let not_b64 = LicenseFile { payload: payload("m", None), signature_b64: "***".to_string() };
    assert!(check_signature(&public_key(), &not_b64).is_err());
    let short = LicenseFile { payload: payload("m", None), signature_b64: "AAAA".to_string() };
    assert_eq!(invalid(check_signature(&public_key(), &short).err().unwrap()), "signature error");
    let other_key = [9u8; 32];
    let other_pk = ed25519_dalek::SigningKey::from_bytes(&other_key).verifying_key().to_bytes();
    assert!(check_signature(&other_pk, &lf).is_err());
}

#[test]
fn verify_license_checks_in_order() {
    assert_eq!(invalid(verifying_key().err().unwrap()), "verifying key not set yet");
    let lf = issue_license(&SECRET, payload("m", Some(1000)));
    assert_eq!(invalid(verify_license(&lf, "other", 0).err().unwrap()), "machine_id mismatch");
    assert_eq!(invalid(verify_license(&lf, "m", 1001).err().unwrap()), "license expired");
    assert_eq!(invalid(verify_license(&lf, "m", 1000).err().unwrap()), "verifying key not set yet");
    let forever = issue_license(&SECRET, payload("m", None));
    assert_eq!(invalid(verify_license(&forever, "m", i64::MAX).err().unwrap()), "verifying key not set yet");
}

#[test]
fn license_context_from_files() {
    let ctx = LicenseCtx::from_file_or_free(Ok("m".to_string()), Err(LicenseError::NotFound), 0);
    assert!(matches!(ctx, Ok(LicenseCtx::Free)));
    let ctx = LicenseCtx::from_file_or_free(
        Err(LicenseError::Invalid("disk".to_string())),
        Err(LicenseError::NotFound),
        0,
    );
    assert_eq!(invalid(ctx.err().unwrap()), "disk");
    let ctx = LicenseCtx::from_file_or_free(
        Ok("m".to_string()),
        Err(LicenseError::Invalid("bad json".to_string())),
        0,
    );
    assert_eq!(invalid(ctx.err().unwrap()), "bad json");
    let lf = issue_license(&SECRET, payload("m", None));
    let ctx = LicenseCtx::from_file_or_free(Ok("m".to_string()), Ok(lf), 0);
    assert_eq!(invalid(ctx.err().unwrap()), "verifying key not set yet");
    let lf = issue_license(&SECRET, payload("m", None));
    let ctx = LicenseCtx::from_file_or_free(Ok("x".to_string()), Ok(lf), 0);
    assert_eq!(invalid(ctx.err().unwrap()), "machine_id mismatch");
}

#[test]
fn require_capabilities() {
    let free = LicenseCtx::Free;
    assert!(matches!(free.require(Capability::Rollback), Err(LicenseError::MissingCapability(Capability::Rollback))));
    let pro = LicenseCtx::Pro { entitlements: vec![Capability::AtomicSwitch, Capability::Rollback] };
    assert!(pro.require(Capability::AtomicSwitch).is_ok());
    assert!(pro.require(Capability::Rollback).is_ok());
    assert!(matches!(
        pro.require(Capability::MultiServer),
        Err(LicenseError::MissingCapability(Capability::MultiServer))
    ));
}

#[test]
fn license_error_texts() {
    assert_eq!(LicenseError::NotFound.to_string(), "license not found");
    assert_eq!(LicenseError::Invalid("x".to_string()).to_string(), "license invalid: x");
    assert_eq!(
        LicenseError::MissingCapability(Capability::MultiServer).to_string(),
        "missing capability: MultiServer"
    );
}

#[test]
fn distinct_payloads_have_distinct_signed_bytes() {
    let variants = vec![
        payload("m", None),
        payload("m", Some(0)),
        payload("m\"", None),
        payload("m,", None),
        LicensePayload { plan: Plan::Free, ..payload("m", None) },
        LicensePayload { entitlements: vec![Capability::AtomicSwitch], ..payload("m", None) },
        LicensePayload { entitlements: vec![], ..payload("m", None) },
    ];
    for (i, a) in variants.iter().enumerate() {
        for (j, b) in variants.iter().enumerate() {
            let ja = canonical_payload_json(a).ok().unwrap();
            let jb = canonical_payload_json(b).ok().unwrap();
            assert_eq!(ja == jb, i == j);
        }
    }
}
