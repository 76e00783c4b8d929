use miden_faucet_server::server::add_address_if_not_there;
use miden_faucet_server::server::cors_origins;
use miden_faucet_server::server::get_stats;
use miden_faucet_server::server::Accounts;
use miden_faucet_server::server::ApiError;
use miden_faucet_server::tx_worker::get_number_of_tx_for_address;
use miden_faucet_server::tx_worker::get_transactions_by_account;
use miden_faucet_server::tx_worker::get_tx_by_id;
use miden_faucet_server::tx_worker::get_txs_in_last_hour;
use miden_faucet_server::tx_worker::get_txs_latest;
use miden_faucet_server::tx_worker::reset_rows;
use miden_faucet_server::tx_worker::History;
use miden_faucet_server::tx_worker::NoteData;
use miden_faucet_server::tx_worker::Transaction;

use miden_objects::account::AccountId;
use miden_objects::account::NetworkId;
use miden_objects::address::Address;
use miden_objects::address::AccountIdAddress;
use miden_objects::address::AddressInterface;

const ACCT_A: u128 = 0xaa0000000000bb000000cc000000dd00;

fn row(tx_id: &str, kind: &str, sender: &str, block_num: u32, timestamp: u32) -> Transaction {
    Transaction {
        tx_id: tx_id.to_string(),
        tx_kind: kind.to_string(),
        sender: sender.to_string(),
        block_num,
        note_id: None,
        timestamp,
    }
}

#[test]
fn upsert_ignores_duplicate_tx_id() {
    let mut h = History::new();
    h.upsert(row("0xa", "send", "s1", 1, 10));
    h.upsert(row("0xa", "receive", "s2", 2, 20));
    assert_eq!(h.rows.len(), 1);
    assert_eq!(h.rows[0].tx_kind, "send");
    assert_eq!(h.rows[0].sender, "s1");
}

#[test]
fn tx_lookup_finds_row_or_reports_absence() {
    let mut h = History::new();
    h.upsert(row("0xa", "send", "s1", 1, 10));
    let found = get_tx_by_id(&h, "0xa".to_string()).expect("present");
    assert_eq!(found.tx_id, "0xa");
    let missing = get_tx_by_id(&h, "0xb".to_string());
    assert_eq!(missing.err().as_deref(), Some("No transaction foundd"));
}

#[test]
fn latest_returns_ten_newest_first() {
    let mut h = History::new();
    for i in 0..12u32 {
        h.upsert(row(&format!("0x{i}"), "send", "s", i, i));
    }
    let latest = get_txs_latest(&h).unwrap();
    assert_eq!(latest.len(), 10);
    assert_eq!(latest[0].tx_id, "0x11");
    assert_eq!(latest[9].tx_id, "0x2");
}

#[test]
fn account_pages_are_newest_first_and_ten_long() {
    let mut h = History::new();
    for i in 0..12u32 {
        h.upsert(row(&format!("0xm{i}"), "send", "mine", i, i));
        h.upsert(row(&format!("0xo{i}"), "send", "other", i, i));
    }
    let mine = "mine".to_string();
    let page1 = get_transactions_by_account(&h, &mine, 1).unwrap();
    assert_eq!(page1.len(), 10);
    assert_eq!(page1[0].tx_id, "0xm11");
    assert_eq!(page1[9].tx_id, "0xm2");
    let page2 = get_transactions_by_account(&h, &mine, 2).unwrap();
    assert_eq!(page2.len(), 2);
    assert_eq!(page2[0].tx_id, "0xm1");
    assert_eq!(page2[1].tx_id, "0xm0");
    let page3 = get_transactions_by_account(&h, &mine, 3).unwrap();
    assert!(page3.is_empty());
}

#[test]
fn page_zero_is_rejected() {
    let h = History::new();
    let any = "a".to_string();
    assert_eq!(
        get_transactions_by_account(&h, &any, 0).err().as_deref(),
        Some("Page number must be greater than 0")
    );
}

#[test]
fn per_address_count_matches_rows() {
    let mut h = History::new();
    for i in 0..5u32 {
        h.upsert(row(&format!("0xm{i}"), "send", "mine", i, i));
    }
    h.upsert(row("0xo", "send", "other", 9, 9));
    let mine = "mine".to_string();
    let other = "nobody".to_string();
    assert_eq!(get_number_of_tx_for_address(&h, &mine), Ok(5));
    assert_eq!(get_number_of_tx_for_address(&h, &other), Ok(0));
}

#[test]
fn last_hour_count_uses_inclusive_cutoff() {
    let mut h = History::new();
    h.upsert(row("0xold", "send", "s", 1, 5000));
    h.upsert(row("0xedge", "send", "s", 2, 6400));
    h.upsert(row("0xnew", "send", "s", 3, 9000));
    assert_eq!(get_txs_in_last_hour(&h, 10000), Ok(2));
}

#[test]
fn stats_count_kinds_wallets_and_notes() {
    let mut h = History::new();
    h.upsert(row("0x1", "faucet_request", "f", 1, 100));
    h.upsert(row("0x2", "send", "s", 2, 200));
    h.upsert(row("0x3", "send", "s", 3, 5000));
    h.upsert(row("0x4", "receive", "r", 4, 5001));
    let mut accounts = Accounts::new();
    let aid = AccountId::try_from(ACCT_A).unwrap();
    let addr = Address::from(AccountIdAddress::new(aid, AddressInterface::BasicWallet))
        .to_bech32(NetworkId::Testnet);
    add_address_if_not_there(&mut accounts, addr).unwrap();
    let stats = get_stats(&h, &accounts, 5500).unwrap();
    assert_eq!(stats.total_transactions, 4);
    assert_eq!(stats.wallets_created, 1);
    assert_eq!(stats.faucet_request, 1);
    assert_eq!(stats.notes_created, 3);
    assert_eq!(stats.transactions_in_last_hour, 2);
}

#[test]
fn invalid_address_is_rejected_before_storage() {
    let mut accounts = Accounts::new();
    let r = add_address_if_not_there(&mut accounts, "nonsense".to_string());
    assert_eq!(r, Err(ApiError::BadRequest));
    assert_eq!(accounts.wallets.len(), 0);
}

#[test]
fn valid_address_is_stored_once() {
    let mut accounts = Accounts::new();
    let aid = AccountId::try_from(ACCT_A).unwrap();
    let addr = Address::from(AccountIdAddress::new(aid, AddressInterface::BasicWallet))
        .to_bech32(NetworkId::Testnet);
    assert_eq!(add_address_if_not_there(&mut accounts, addr.clone()), Ok(()));
    assert_eq!(add_address_if_not_there(&mut accounts, addr.clone()), Ok(()));
    assert_eq!(accounts.wallets.len(), 1);
    assert_eq!(accounts.wallets[0], addr);
}

#[test]
fn sql_values_bind_in_statement_order() {
    let t = Transaction {
        tx_id: "0xt".to_string(),
        tx_kind: "send".to_string(),
        sender: "mtst1xyz".to_string(),
        block_num: 7,
        note_id: Some(NoteData {
            note_id: "0xn".to_string(),
            note_type: "public".to_string(),
            note_aux: "0".to_string(),
        }),
        timestamp: 99,
    };
    let v = t.into_sql_value();
    assert_eq!(v.0, "7");
    assert_eq!(v.1, "0xt");
    assert_eq!(v.2, "send");
    assert_eq!(v.3, "mtst1xyz");
    assert_eq!(v.4, "99");
    assert_eq!(v.5.as_deref(), Some("0xn"));
    assert_eq!(v.6.as_deref(), Some("public"));
    assert_eq!(v.7.as_deref(), Some("0"));
}

#[test]
fn absent_note_binds_null_columns() {
    let t = row("0xt", "receive", "s", 3, 4);
    let v = t.into_sql_value();
    assert_eq!(v.5, None);
    assert_eq!(v.6, None);
    assert_eq!(v.7, None);
}

#[test]
fn sql_row_rebuilds_the_record() {
    let t = Transaction::from_sql_row(
        7,
        "0xt".to_string(),
        "send".to_string(),
        "mtst1xyz".to_string(),
        99,
        Some("0xn".to_string()),
        Some("public".to_string()),
        Some("0".to_string()),
    );
    assert_eq!(t.block_num, 7);
    assert_eq!(t.tx_id, "0xt");
    assert_eq!(t.tx_kind, "send");
    assert_eq!(t.sender, "mtst1xyz");
    assert_eq!(t.timestamp, 99);
    let n = t.note_id.expect("note present");
    assert_eq!(n.note_id, "0xn");
    assert_eq!(n.note_type, "public");
    assert_eq!(n.note_aux, "0");
    let bare = Transaction::from_sql_row(
        1,
        "0xu".to_string(),
        "receive".to_string(),
        "s".to_string(),
        2,
        None,
        None,
        None,
    );
    assert!(bare.note_id.is_none());
}

#[test]
fn reset_wipes_only_on_request() {
    let mut h = History::new();
    h.upsert(row("0xa", "send", "s", 1, 1));
    reset_rows(&mut h, false);
    assert_eq!(h.rows.len(), 1);
    reset_rows(&mut h, true);
    assert_eq!(h.rows.len(), 0);
}

#[test]
fn star_config_allows_any_origin() {
    assert_eq!(cors_origins(b"*"), None);
}

#[test]
fn origin_list_is_split_and_trimmed() {
    let parsed = cors_origins(b"https://one.example , https://two.example").unwrap();
    assert_eq!(parsed, vec![b"https://one.example".to_vec(), b"https://two.example".to_vec()]);
    let single = cors_origins(b" * ").unwrap();
    assert_eq!(single, vec![b"*".to_vec()]);
    let with_empty = cors_origins(b"a,,b").unwrap();
    assert_eq!(with_empty, vec![b"a".to_vec(), Vec::new(), b"b".to_vec()]);
}
