use miden_faucet_server::mint_server::after_local_retry;
use miden_faucet_server::mint_server::after_submit;
use miden_faucet_server::mint_server::build_mint_payload;
use miden_faucet_server::mint_server::caller_outcome;
use miden_faucet_server::mint_server::complete_batch;
use miden_faucet_server::mint_server::parse_mint_request;
use miden_faucet_server::mint_server::FlushStep;
use miden_faucet_server::mint_server::MintHttpRequest;
use miden_faucet_server::mint_server::MintQueue;
use miden_faucet_server::mint_server::SubmitFailure;
use miden_faucet_server::mint_server::WaitEvent;
use miden_faucet_server::utils::validate_address;

use miden_objects::account::AccountId;
use miden_objects::account::NetworkId;
use miden_objects::address::Address;
use miden_objects::address::AccountIdAddress;
use miden_objects::address::AddressInterface;

// Valid account ids: prefix metadata encodes storage mode, account type and
// version in its low byte; the suffix's top bit and low byte are zero.
const ID_A: u128 = 0xaa0000000000bb000000cc000000dd00;
const ID_B: u128 = 0xbb0000000000cc000000dd000000ee00;
const ID_C: u128 = 0xac0000000000dd100000ee000000fc00;

fn bech32(id: u128) -> String {
    let aid = AccountId::try_from(id).expect("valid test account id");
    Address::from(AccountIdAddress::new(aid, AddressInterface::BasicWallet))
        .to_bech32(NetworkId::Testnet)
}

#[test]
fn enqueue_assigns_fresh_slots_in_order() {
    let mut q = MintQueue::new();
    let s0 = q.enqueue(bech32(ID_A), 10);
    let s1 = q.enqueue(bech32(ID_B), 5);
    let s2 = q.enqueue(bech32(ID_C), 7);
    assert_eq!((s0, s1, s2), (0, 1, 2));
    let batch = q.drain();
    assert_eq!(batch.len(), 3);
    assert_eq!(batch[0].amount, 10);
    assert_eq!(batch[1].amount, 5);
    assert_eq!(batch[2].amount, 7);
    assert_eq!(batch[0].slot, 0);
    assert_eq!(batch[2].slot, 2);
}

#[test]
fn request_after_drain_goes_to_next_batch() {
    let mut q = MintQueue::new();
    q.enqueue(bech32(ID_A), 1);
    let first = q.drain();
    assert_eq!(first.len(), 1);
    q.enqueue(bech32(ID_B), 2);
    let second = q.drain();
    assert_eq!(second.len(), 1);
    assert_eq!(second[0].amount, 2);
    assert_eq!(second[0].slot, 1);
}

#[test]
fn bulk_payload_names_all_three_in_enqueue_order() {
    let mut q = MintQueue::new();
    q.enqueue(bech32(ID_A), 10);
    q.enqueue(bech32(ID_B), 5);
    q.enqueue(bech32(ID_C), 7);
    let batch = q.drain();
    let payload = build_mint_payload(&batch);
    assert_eq!(payload, vec![(ID_A, 10), (ID_B, 5), (ID_C, 7)]);
}

#[test]
fn all_three_callers_receive_the_same_digest() {
    let mut q = MintQueue::new();
    q.enqueue(bech32(ID_A), 10);
    q.enqueue(bech32(ID_B), 5);
    q.enqueue(bech32(ID_C), 7);
    let batch = q.drain();
    let outcome = Ok("0xdigest".to_string());
    let deliveries = complete_batch(&batch, &outcome);
    assert_eq!(deliveries.len(), 3);
    for (i, (slot, res)) in deliveries.iter().enumerate() {
        assert_eq!(*slot, i as u64);
        assert_eq!(res.as_deref(), Ok("0xdigest"));
    }
}

#[test]
fn malformed_address_is_dropped_but_still_answered() {
    let mut q = MintQueue::new();
    q.enqueue(bech32(ID_A), 10);
    q.enqueue("not-a-bech32-address".to_string(), 5);
    q.enqueue(bech32(ID_C), 7);
    let batch = q.drain();
    let payload = build_mint_payload(&batch);
    assert_eq!(payload, vec![(ID_A, 10), (ID_C, 7)]);
    let outcome = Ok("0xdigest".to_string());
    let deliveries = complete_batch(&batch, &outcome);
    assert_eq!(deliveries.len(), 3);
    assert_eq!(deliveries[1].0, 1);
    assert_eq!(deliveries[1].1.as_deref(), Ok("0xdigest"));
}

#[test]
fn validate_accepts_real_and_rejects_corrupt_addresses() {
    let good = bech32(ID_A);
    assert!(validate_address(&good));
    let mut corrupt = good.clone();
    corrupt.remove(7);
    assert!(!validate_address(&corrupt));
    assert!(!validate_address("garbage"));
    assert!(!validate_address(""));
}

#[test]
fn submit_success_settles_on_digest() {
    let step = after_submit("0xd".to_string(), Ok(()));
    assert!(matches!(step, FlushStep::Settled(Ok(d)) if d == "0xd"));
}

#[test]
fn proving_failure_earns_one_local_retry() {
    let step = after_submit("0xd".to_string(), Err(SubmitFailure::Proving("slow".to_string())));
    assert!(matches!(step, FlushStep::RetryWithLocalProver(d) if d == "0xd"));
}

#[test]
fn other_failure_settles_immediately() {
    let step = after_submit("0xd".to_string(), Err(SubmitFailure::Other("boom".to_string())));
    assert!(matches!(step, FlushStep::Settled(Err(m)) if m == "boom"));
}

#[test]
fn local_retry_keeps_original_digest_on_success() {
    assert_eq!(after_local_retry("0xd".to_string(), Ok(())), Ok("0xd".to_string()));
    assert_eq!(
        after_local_retry("0xd".to_string(), Err("still failing".to_string())),
        Err("still failing".to_string())
    );
}

#[test]
fn resolved_wait_delivers_the_outcome() {
    let r = caller_outcome(WaitEvent::Resolved(Ok("0xd".to_string())));
    assert_eq!(r, Ok("0xd".to_string()));
}

#[test]
fn timed_out_wait_is_a_timeout_error_whatever_the_batch_did() {
    let r = caller_outcome(WaitEvent::TimedOut);
    assert_eq!(r, Err("Timeout waiting for batch processing".to_string()));
}

#[test]
fn closed_slot_is_a_channel_error() {
    let r = caller_outcome(WaitEvent::Closed);
    assert_eq!(r, Err("Channel closed".to_string()));
}

#[test]
fn mint_request_parses_address_and_amount() {
    let r = parse_mint_request(b"GET /mint/someaddr/55 HTTP/1.1\r\nHost: x\r\n\r\n");
    match r {
        MintHttpRequest::Mint { address, amount } => {
            assert_eq!(address, b"someaddr".to_vec());
            assert_eq!(amount, 55);
        },
        other => panic!("expected a mint request, got {other:?}"),
    }
}

#[test]
fn mint_request_without_http_version_still_parses() {
    let r = parse_mint_request(b"GET /mint/a/5\r\n");
    match r {
        MintHttpRequest::Mint { address, amount } => {
            assert_eq!(address, b"a".to_vec());
            assert_eq!(amount, 5);
        },
        other => panic!("expected a mint request, got {other:?}"),
    }
}

#[test]
fn mint_request_rejects_bad_amount() {
    let r = parse_mint_request(b"GET /mint/addr/xx HTTP/1.1\r\n");
    assert!(matches!(r, MintHttpRequest::InvalidAmount));
}

#[test]
fn mint_request_rejects_wrong_part_count() {
    assert!(matches!(
        parse_mint_request(b"GET /mint/addronly HTTP/1.1\r\n"),
        MintHttpRequest::InvalidPath
    ));
    assert!(matches!(
        parse_mint_request(b"GET /mint/a/b/c HTTP/1.1\r\n"),
        MintHttpRequest::InvalidPath
    ));
}

#[test]
fn non_mint_request_is_not_found() {
    assert!(matches!(parse_mint_request(b"POST /other HTTP/1.1\r\n"), MintHttpRequest::NotFound));
    assert!(matches!(parse_mint_request(b"GET /stats HTTP/1.1\r\n"), MintHttpRequest::NotFound));
    assert!(matches!(parse_mint_request(b""), MintHttpRequest::NotFound));
}
