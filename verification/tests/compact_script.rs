use rune_index::compact_script::{CompactScript, CompactScriptKind};

fn p2tr_script(body: &[u8]) -> Vec<u8> {
    let mut s = vec![0x51u8, body.len() as u8];
    s.extend_from_slice(body);
    s
}

fn segwit_script(body: &[u8]) -> Vec<u8> {
    let mut s = vec![0x00u8, body.len() as u8];
    s.extend_from_slice(body);
    s
}

#[test]
fn p2tr_roundtrip() {
    let x_only = [0u8; 32];
    let script = p2tr_script(&x_only);

    let compact = CompactScript::try_from_script(&script).unwrap();
    assert_eq!(compact.kind, CompactScriptKind::P2TR);
    assert_eq!(compact.body, x_only);

    let reconstructed = compact.to_script().unwrap();
    assert_eq!(reconstructed, script);
}

#[test]
fn p2wpkh_roundtrip() {
    let hash = [1u8; 20];
    let script = segwit_script(&hash);

    let compact = CompactScript::try_from_script(&script).unwrap();
    assert_eq!(compact.kind, CompactScriptKind::P2WPKH);
    assert_eq!(compact.body, hash);

    let reconstructed = compact.to_script().unwrap();
    assert_eq!(reconstructed, script);
}

#[test]
fn p2wsh_roundtrip() {
    let hash = [2u8; 32];
    let script = segwit_script(&hash);

    let compact = CompactScript::try_from_script(&script).unwrap();
    assert_eq!(compact.kind, CompactScriptKind::P2WSH);
    assert_eq!(compact.body, hash);

    let reconstructed = compact.to_script().unwrap();
    assert_eq!(reconstructed, script);
}

#[test]
fn unsupported_script_returns_none() {
    let invalid_script = p2tr_script(&[0u8; 33]);
    assert!(CompactScript::try_from_script(&invalid_script).is_none());
}

#[test]
fn to_script_rejects_invalid_body() {
    let compact = CompactScript { kind: CompactScriptKind::P2TR, body: Vec::new() };
    assert!(compact.to_script().is_none());
}

#[test]
fn try_from_script_rejects_invalid_witness_length() {
    for len in [1usize, 19, 21, 31, 33] {
        let mut bytes = vec![0x00u8, len as u8];
        bytes.extend(std::iter::repeat(0xAA).take(len));
        assert!(CompactScript::try_from_script(&bytes).is_none());
    }
}

#[test]
fn test_compact_script_p2tr() {
    let x_only = [42u8; 32];
    let script = p2tr_script(&x_only);

    let compact = CompactScript::try_from_script(&script).unwrap();
    assert_eq!(compact.kind, CompactScriptKind::P2TR);
    assert_eq!(compact.body, x_only.to_vec());

    let reconstructed = compact.to_script().unwrap();
    assert_eq!(reconstructed, script);
}

#[test]
fn test_compact_script_invalid_script() {
    let invalid_script = vec![0x76u8];
    assert!(CompactScript::try_from_script(&invalid_script).is_none());
}
