use rune_index::authority_bits::{AuthorityBits, AuthorityKind};
use rune_index::bloom::ScriptBloom;
use rune_index::compact_script::{CompactScript, CompactScriptKind};
use rune_index::entry::Terms;
use rune_index::executor::merge_authority_scripts;
use rune_index::kv::RuneTable;
use rune_index::script_cache::ScriptCache;
use rune_index::store::Store;
use rune_index::RuneId;

#[test]
fn test_terms_authority_defaults() {
    let terms = Terms::default();
    assert!(!terms.allow_minting);
    assert!(!terms.allow_blacklisting);
}

#[test]
fn merge_authority_scripts_preserves_existing_order_after_update() {
    // Existing blob has Mint and Blacklist; only Mint is being updated.
    let mint_body_old = vec![0x11u8; 20];
    let blacklist_body = vec![0x22u8; 32];

    let existing_presence =
        AuthorityBits::from_bits_truncated(AuthorityKind::Mint.mask() | AuthorityKind::Blacklist.mask());

    let mut existing_blob = Vec::new();
    existing_blob.push(existing_presence.bits());
    existing_blob.push(1u8);
    let mint_len = u8::try_from(mint_body_old.len()).expect("compact script body fits in u8");
    existing_blob.push(mint_len);
    existing_blob.extend(&mint_body_old);
    existing_blob.push(0u8);
    let blacklist_len = u8::try_from(blacklist_body.len()).expect("compact script body fits in u8");
    existing_blob.push(blacklist_len);
    existing_blob.extend(&blacklist_body);

    let authorities = AuthorityBits::from_bits_truncated(AuthorityKind::Mint.mask());
    let mut presence = existing_presence;
    for kind in authorities.kinds() {
        presence.insert(kind);
    }

    let new_mint_body = vec![0x33u8; 32];
    let compact = CompactScript { kind: CompactScriptKind::P2WSH, body: new_mint_body.clone() };
    let compact_body_len = u8::try_from(compact.body.len()).unwrap();

    let merged = merge_authority_scripts(
        authorities,
        &existing_blob,
        existing_presence,
        presence,
        &compact,
        compact_body_len,
    );

    let mut expected = Vec::new();
    expected.push(presence.bits());
    expected.push(2u8);
    expected.push(compact_body_len);
    expected.extend(&new_mint_body);
    expected.push(0u8);
    expected.push(blacklist_len);
    expected.extend(&blacklist_body);

    assert_eq!(merged, expected);
}

#[test]
fn merge_same_set_authority_twice_is_idempotent() {
    let body = vec![0x44u8; 32];
    let compact = CompactScript { kind: CompactScriptKind::P2TR, body: body.clone() };
    let authorities = AuthorityBits::from_bits_truncated(AuthorityKind::Master.mask());
    let existing = vec![0u8];
    let presence = AuthorityBits::from_bits_truncated(AuthorityKind::Master.mask());

    let once = merge_authority_scripts(
        authorities,
        &existing,
        AuthorityBits::empty(),
        presence,
        &compact,
        32,
    );
    let twice = merge_authority_scripts(authorities, &once, presence, presence, &compact, 32);
    assert_eq!(once, twice);
}

#[test]
fn authority_bits_round_trip() {
    let mut bits = AuthorityBits::empty();
    assert!(bits.is_empty());
    bits.insert(AuthorityKind::Mint);
    bits.insert(AuthorityKind::Master);
    assert!(bits.contains(AuthorityKind::Mint));
    assert!(!bits.contains(AuthorityKind::Blacklist));
    assert!(bits.contains(AuthorityKind::Master));
    assert_eq!(bits.bits(), 5);
    let kinds = bits.kinds();
    assert_eq!(kinds, vec![AuthorityKind::Mint, AuthorityKind::Master]);
    assert_eq!(AuthorityBits::from_bits_truncated(0xFF).bits(), 7);
}

#[test]
fn bloom_has_no_false_negatives() {
    let mut bloom = ScriptBloom::new(3).unwrap();
    let a = vec![0x51u8, 0x20, 0x01];
    let b = vec![0x00u8, 0x14, 0x02];
    bloom.insert(&a);
    bloom.insert(&b);
    assert!(bloom.might_contain(&a));
    assert!(bloom.might_contain(&b));
}

#[test]
fn script_cache_stays_within_budget() {
    let mut store = Store::new();
    let _ = &mut store;
    let mut cache = ScriptCache::new(200);
    let node = rune_index::script_cache::NodeView {
        scripts: vec![
            (
                rune_index::tx::OutPoint { txid: vec![1u8; 32], vout: 0 },
                vec![0x51u8, 0x20, 0x07],
            ),
            (
                rune_index::tx::OutPoint { txid: vec![2u8; 32], vout: 1 },
                vec![0x51u8, 0x20, 0x08],
            ),
            (
                rune_index::tx::OutPoint { txid: vec![3u8; 32], vout: 2 },
                vec![0x51u8, 0x20, 0x09],
            ),
        ],
        heights: Vec::new(),
    };
    for (op, script) in [(vec![1u8; 32], 0u32), (vec![2u8; 32], 1), (vec![3u8; 32], 2)]
        .iter()
        .zip([vec![0x51u8, 0x20, 0x07], vec![0x51u8, 0x20, 0x08], vec![0x51u8, 0x20, 0x09]])
    {
        let got = cache.get_script_pubkey(&node, &op.0, op.1);
        assert_eq!(got, Some(script));
        assert!(cache.current_bytes <= 200);
    }
    let stats = cache.stats();
    assert_eq!(stats.hits, 0);
    assert_eq!(stats.misses, 3);
}

#[test]
fn blacklist_multimap_insert_is_idempotent() {
    let mut table: RuneTable<Vec<Vec<u8>>> = RuneTable::new();
    let id = RuneId { block: 7, tx: 1 };
    let mut entry = vec![0u8];
    entry.extend(vec![0x11u8; 32]);
    table.multi_insert(id, entry.clone());
    let before = table.get(id).unwrap().clone();
    table.multi_insert(id, entry.clone());
    let after = table.get(id).unwrap().clone();
    assert_eq!(before, after);
    assert_eq!(after.len(), 1);
}

#[test]
fn script_detail_renders_hex() {
    let compact = CompactScript { kind: CompactScriptKind::P2WPKH, body: vec![0xABu8; 20] };
    let detail = rune_index::report::ScriptDetail::from_compact(compact);
    let hex: String = detail.script_pubkey.unwrap().into_iter().collect();
    assert_eq!(hex, format!("0014{}", "ab".repeat(20)));
}
