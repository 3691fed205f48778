use rune_index::context::AuthorityContextCache;
use rune_index::entry::{Rune, Terms};
use rune_index::events::Event;
use rune_index::kv::RuneTable;
use rune_index::report::run;
use rune_index::runestone::{Artifact, Edict, Etching, Runestone};
use rune_index::script_cache::{NodeView, ScriptCache};
use rune_index::store::Store;
use rune_index::tx::{OutPoint, Tx, TxIn, TxOut};
use rune_index::updater::index_runes;
use rune_index::RuneId;

fn p2tr(byte: u8) -> Vec<u8> {
    let mut s = vec![0x51u8, 0x20];
    s.extend(std::iter::repeat(byte).take(32));
    s
}

fn runestone(etching: Option<Etching>, edicts: Vec<Edict>, mint: Option<RuneId>) -> Runestone {
    Runestone {
        edicts,
        etching,
        mint,
        pointer: None,
        set_authority: None,
        authority: None,
    }
}

fn etching(premine: u128, terms: Option<Terms>) -> Etching {
    Etching {
        divisibility: None,
        premine: Some(premine),
        rune: None,
        spacers: None,
        symbol: None,
        terms,
        turbo: false,
    }
}

#[test]
fn premine_etch_reports_supply() {
    let mut store = Store::new();
    let mut cache = AuthorityContextCache::new(1 << 16);
    let mut sc = ScriptCache::new(1 << 16);
    let node = NodeView { scripts: Vec::new(), heights: Vec::new() };
    let mut burned: RuneTable<u128> = RuneTable::new();
    let mut events: Vec<Event> = Vec::new();
    let txid = vec![9u8; 32];

    let tx = Tx {
        inputs: Vec::new(),
        outputs: vec![TxOut { script_pubkey: p2tr(0xAA) }],
    };
    let artifact = Artifact::Runestone(runestone(Some(etching(1000, None)), Vec::new(), None));

    let r = index_runes(
        &mut cache,
        &mut sc,
        &mut store,
        &node,
        &tx,
        &txid,
        1,
        7,
        0,
        Rune(0),
        Some(&artifact),
        &mut burned,
        &mut events,
    );
    assert!(r.is_ok());

    let id = RuneId { block: 7, tx: 1 };
    let row = store.outpoint_balances.take_out(&txid, 0).expect("premine row");
    assert_eq!(row, vec![(id, 1000u128)]);

    let output = run(&store);
    assert_eq!(output.runes.len(), 1);
    let info = &output.runes[0].1;
    assert_eq!(info.supply, 1000);
    assert_eq!(info.premine, 1000);
    assert_eq!(info.supply_extra, None);
    assert_eq!(info.minter_count, Some(0));
    assert_eq!(info.blacklist_count, Some(0));
    let flags = info.authority_flags.unwrap();
    assert!(!flags.allow_minting);
    assert!(!flags.allow_blacklisting);
    assert!(burned.get(id).is_none());
}

#[test]
fn authority_mint_beyond_balance_tracks_supply_extra() {
    let mut store = Store::new();
    let mut cache = AuthorityContextCache::new(1 << 16);
    let mut sc = ScriptCache::new(1 << 16);
    let authority_script = p2tr(0x01);
    let etcher_prevout = OutPoint { txid: vec![1u8; 32], vout: 0 };
    let change_prevout = OutPoint { txid: vec![2u8; 32], vout: 0 };
    let node = NodeView {
        scripts: vec![
            (OutPoint { txid: vec![1u8; 32], vout: 0 }, authority_script.clone()),
            (OutPoint { txid: vec![2u8; 32], vout: 0 }, authority_script.clone()),
        ],
        heights: Vec::new(),
    };
    let mut burned: RuneTable<u128> = RuneTable::new();
    let mut events: Vec<Event> = Vec::new();

    // Etch with allow_minting; the etcher's prevout seeds every authority
    // slot.
    let terms = Terms { allow_minting: true, ..Terms::default() };
    let etch_txid = vec![2u8; 32];
    let etch_tx = Tx {
        inputs: vec![TxIn { prevout: etcher_prevout, leaf_pushes: None }],
        outputs: vec![TxOut { script_pubkey: authority_script.clone() }],
    };
    let etch = Artifact::Runestone(runestone(Some(etching(0, Some(terms))), Vec::new(), None));
    index_runes(
        &mut cache,
        &mut sc,
        &mut store,
        &node,
        &etch_tx,
        &etch_txid,
        1,
        7,
        0,
        Rune(0),
        Some(&etch),
        &mut burned,
        &mut events,
    )
    .expect("etch");

    let id = RuneId { block: 7, tx: 1 };

    // A later transaction spends the etcher's change and mints 1000 to a
    // recipient by edict.
    let mint_txid = vec![3u8; 32];
    let mint_tx = Tx {
        inputs: vec![TxIn { prevout: change_prevout, leaf_pushes: None }],
        outputs: vec![TxOut { script_pubkey: p2tr(0x77) }],
    };
    let mint = Artifact::Runestone(runestone(
        None,
        vec![Edict { id, amount: 1000, output: 0 }],
        None,
    ));
    index_runes(
        &mut cache,
        &mut sc,
        &mut store,
        &node,
        &mint_tx,
        &mint_txid,
        0,
        8,
        0,
        Rune(0),
        Some(&mint),
        &mut burned,
        &mut events,
    )
    .expect("mint");

    let row = store.outpoint_balances.take_out(&mint_txid, 0).expect("recipient row");
    assert_eq!(row, vec![(id, 1000u128)]);
    assert_eq!(store.supply_extra.get(id), Some(&1000u128));

    let output = run(&store);
    assert_eq!(output.runes.len(), 1);
    let info = &output.runes[0].1;
    assert_eq!(info.supply, 0, "no open mints");
    assert_eq!(info.supply_extra, Some(1000));
}

#[test]
fn unauthorized_mint_leaves_recipient_empty() {
    let mut store = Store::new();
    let mut cache = AuthorityContextCache::new(1 << 16);
    let mut sc = ScriptCache::new(1 << 16);
    let authority_script = p2tr(0x01);
    let stranger_script = p2tr(0x55);
    let node = NodeView {
        scripts: vec![
            (OutPoint { txid: vec![1u8; 32], vout: 0 }, authority_script.clone()),
            (OutPoint { txid: vec![4u8; 32], vout: 0 }, stranger_script.clone()),
        ],
        heights: Vec::new(),
    };
    let mut burned: RuneTable<u128> = RuneTable::new();
    let mut events: Vec<Event> = Vec::new();

    let terms = Terms { allow_minting: true, ..Terms::default() };
    let etch_tx = Tx {
        inputs: vec![TxIn {
            prevout: OutPoint { txid: vec![1u8; 32], vout: 0 },
            leaf_pushes: None,
        }],
        outputs: vec![TxOut { script_pubkey: authority_script.clone() }],
    };
    let etch = Artifact::Runestone(runestone(Some(etching(0, Some(terms))), Vec::new(), None));
    index_runes(
        &mut cache,
        &mut sc,
        &mut store,
        &node,
        &etch_tx,
        &vec![2u8; 32],
        1,
        7,
        0,
        Rune(0),
        Some(&etch),
        &mut burned,
        &mut events,
    )
    .expect("etch");

    let id = RuneId { block: 7, tx: 1 };
    // The minting transaction spends a stranger's prevout only.
    let mint_txid = vec![5u8; 32];
    let mint_tx = Tx {
        inputs: vec![TxIn {
            prevout: OutPoint { txid: vec![4u8; 32], vout: 0 },
            leaf_pushes: None,
        }],
        outputs: vec![TxOut { script_pubkey: p2tr(0x77) }],
    };
    let mint = Artifact::Runestone(runestone(
        None,
        vec![Edict { id, amount: 1000, output: 0 }],
        None,
    ));
    index_runes(
        &mut cache,
        &mut sc,
        &mut store,
        &node,
        &mint_tx,
        &mint_txid,
        0,
        8,
        0,
        Rune(0),
        Some(&mint),
        &mut burned,
        &mut events,
    )
    .expect("mint attempt");

    assert!(store.outpoint_balances.take_out(&mint_txid, 0).is_none());
    assert!(store.supply_extra.get(id).is_none());
}

#[test]
fn blacklisted_holder_balance_stays_locked() {
    // The victim holds 500; the victim's script is blacklisted; a spend of
    // the victim's outpoint must not liberate the balance: the row is
    // rewritten under the consumed outpoint and nothing reaches the
    // recipient.
    let mut store = Store::new();
    let mut cache = AuthorityContextCache::new(1 << 16);
    let mut sc = ScriptCache::new(1 << 16);
    let id = RuneId { block: 7, tx: 1 };
    let victim_body = vec![0x11u8; 32];
    let victim_script = {
        let mut s = vec![0x51u8, 0x20];
        s.extend(&victim_body);
        s
    };

    // Stored blacklist entry: [kind][body] with the taproot kind byte.
    let mut entry = vec![0u8];
    entry.extend(&victim_body);
    store.blacklist.multi_insert(id, entry);

    // The victim's outpoint holds 500 of the rune.
    let victim_outpoint = OutPoint { txid: vec![6u8; 32], vout: 0 };
    store
        .outpoint_balances
        .insert(OutPoint { txid: vec![6u8; 32], vout: 0 }, vec![(id, 500u128)]);

    let node = NodeView {
        scripts: vec![(victim_outpoint, victim_script.clone())],
        heights: Vec::new(),
    };
    let mut burned: RuneTable<u128> = RuneTable::new();
    let mut events: Vec<Event> = Vec::new();

    let spend_txid = vec![8u8; 32];
    let spend_tx = Tx {
        inputs: vec![TxIn {
            prevout: OutPoint { txid: vec![6u8; 32], vout: 0 },
            leaf_pushes: None,
        }],
        outputs: vec![TxOut { script_pubkey: p2tr(0x77) }],
    };
    let spend = Artifact::Runestone(runestone(
        None,
        vec![Edict { id, amount: 100, output: 0 }],
        None,
    ));
    index_runes(
        &mut cache,
        &mut sc,
        &mut store,
        &node,
        &spend_tx,
        &spend_txid,
        0,
        9,
        0,
        Rune(0),
        Some(&spend),
        &mut burned,
        &mut events,
    )
    .expect("spend");

    // The third party receives nothing; the balance stays locked under the
    // consumed outpoint; nothing burned.
    assert!(store.outpoint_balances.take_out(&spend_txid, 0).is_none());
    let locked = store.outpoint_balances.take_out(&vec![6u8; 32], 0).expect("locked row");
    assert_eq!(locked, vec![(id, 500u128)]);
    assert!(burned.get(id).is_none());
}

#[test]
fn edict_order_on_distinct_runes_is_immaterial() {
    // Two runes held by one outpoint; the same transfer processed with the
    // edicts in either order ends in identical rows.
    let id_a = RuneId { block: 5, tx: 1 };
    let id_b = RuneId { block: 6, tx: 2 };
    let run_with = |edicts: Vec<Edict>| -> Vec<(RuneId, u128)> {
        let mut store = Store::new();
        store
            .outpoint_balances
            .insert(OutPoint { txid: vec![1u8; 32], vout: 0 }, vec![(id_a, 100u128), (id_b, 200u128)]);
        let mut cache = AuthorityContextCache::new(1 << 16);
        let mut sc = ScriptCache::new(1 << 16);
        let node = NodeView { scripts: Vec::new(), heights: Vec::new() };
        let mut burned: RuneTable<u128> = RuneTable::new();
        let mut events: Vec<Event> = Vec::new();
        let spend_txid = vec![7u8; 32];
        let tx = Tx {
            inputs: vec![TxIn {
                prevout: OutPoint { txid: vec![1u8; 32], vout: 0 },
                leaf_pushes: None,
            }],
            outputs: vec![TxOut { script_pubkey: p2tr(0x55) }, TxOut { script_pubkey: p2tr(0x66) }],
        };
        let artifact = Artifact::Runestone(runestone(None, edicts, None));
        index_runes(
            &mut cache,
            &mut sc,
            &mut store,
            &node,
            &tx,
            &spend_txid,
            0,
            9,
            0,
            Rune(0),
            Some(&artifact),
            &mut burned,
            &mut events,
        )
        .expect("transfer");
        store.outpoint_balances.take_out(&spend_txid, 1).expect("row at output one")
    };
    let ab = run_with(vec![
        Edict { id: id_a, amount: 100, output: 1 },
        Edict { id: id_b, amount: 200, output: 1 },
    ]);
    let ba = run_with(vec![
        Edict { id: id_b, amount: 200, output: 1 },
        Edict { id: id_a, amount: 100, output: 1 },
    ]);
    assert_eq!(ab, ba);
    assert_eq!(ab, vec![(id_a, 100u128), (id_b, 200u128)]);
}
