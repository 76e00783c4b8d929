//! The chain sync indexer.
//!
//! A single loop advances a durable cursor block by block: it recomputes the
//! tracked account set, fetches the block at the cursor, skips blocks that
//! touch no tracked account, classifies the transactions of relevant blocks,
//! and upserts one history row per relevant transaction before the cursor
//! moves on. Fetching blocks and notes is the runtime's work; everything the
//! loop decides — the tracked set, the skip, the classification, the rows
//! written and when the cursor may advance — is here, together with the
//! cursor machine that states the crash-safety law of the loop.

use vstd::prelude::*;

use crate::tx_worker::History;
use crate::tx_worker::NoteData;
use crate::tx_worker::Transaction;
use crate::tx_worker::lemma_upsert_all_snoc;
use crate::tx_worker::spec_upsert_all;
use crate::utils::bech32_account_of;
use crate::utils::resolve_bech32_account;

verus! {

/// Seconds the loop sleeps after catching up with the chain tip; pacing for
/// the remote node, not needed for correctness.
pub const SYNC_PAUSE_SECS: u64 = 3;

/// What can stop an indexer iteration. The cursor is never advanced past
/// the failing block; the next loop pass retries it.
#[derive(Clone, Copy, PartialEq, Eq, Structural, Debug)]
pub enum IndexError {
    /// A transaction of a tracked sender fit no known kind.
    UnknownTxKind,
    /// The block at the cursor could not be fetched.
    BlockFetchFailed,
    /// A stored wallet address did not resolve to an account id.
    UntrackableAddress,
}

/// One transaction of a fetched block, reduced to what classification and
/// persistence read: its id, its sender's account id and encoded address,
/// whether it produced or consumed notes, and the first output note's
/// metadata where the runtime could fetch it (`None` both where there is no
/// output note and where that fetch failed — a failed note fetch is logged
/// and the row is persisted without note metadata).
pub struct BlockTx {
    pub tx_id: String,
    pub sender: u128,
    pub sender_address: String,
    pub has_output_notes: bool,
    pub has_input_notes: bool,
    pub note: Option<NoteData>,
}

/// One fetched block, reduced to what the indexer reads.
pub struct BlockSummary {
    pub block_num: u32,
    pub timestamp: u32,
    pub updated_accounts: Vec<u128>,
    pub txs: Vec<BlockTx>,
}

/// The kind recorded for a relevant transaction.
#[derive(Clone, Copy, PartialEq, Eq, Structural, Debug)]
pub enum TxKind {
    FaucetRequest,
    Send,
    Receive,
}

/// The kind column's text for each kind.
pub open spec fn spec_kind_chars(k: TxKind) -> Seq<char> {
    match k {
        TxKind::FaucetRequest => "faucet_request"@,
        TxKind::Send => "send"@,
        TxKind::Receive => "receive"@,
    }
}

pub fn kind_string(k: TxKind) -> (s: String)
    ensures
        s@ == spec_kind_chars(k),
{
    match k {
        TxKind::FaucetRequest => "faucet_request".to_owned(),
        TxKind::Send => "send".to_owned(),
        TxKind::Receive => "receive".to_owned(),
    }
}

/// Classification of one transaction: the faucet's own transactions are
/// faucet requests; otherwise one that produced output notes is a send, one
/// that only consumed input notes is a receive, and anything else fits no
/// known kind.
pub open spec fn spec_classify(tx: BlockTx, faucet_id: u128) -> Option<TxKind> {
    if tx.sender == faucet_id {
        Some(TxKind::FaucetRequest)
    } else if tx.has_output_notes {
        Some(TxKind::Send)
    } else if tx.has_input_notes {
        Some(TxKind::Receive)
    } else {
        None
    }
}

pub fn classify_tx(tx: &BlockTx, faucet_id: u128) -> (r: Option<TxKind>)
    ensures
        r == spec_classify(*tx, faucet_id),
{
    if tx.sender == faucet_id {
        Some(TxKind::FaucetRequest)
    } else if tx.has_output_notes {
        Some(TxKind::Send)
    } else if tx.has_input_notes {
        Some(TxKind::Receive)
    } else {
        None
    }
}

/// Whether `v` lists the account `a`.
pub fn contains_account(v: &Vec<u128>, a: u128) -> (r: bool)
    ensures
        r == v@.contains(a),
{
    let n = v.len();
    let mut i: usize = 0;
    while i < n
        invariant
            0 <= i <= n,
            n == v@.len(),
            forall|k: int| 0 <= k < i ==> v@[k] != a,
        decreases n - i,
    {
        if v[i] == a {
            return true;
        }
        i = i + 1;
    }
    false
}

/// No account of `a` is also an account of `b`.
pub open spec fn spec_disjoint(a: Seq<u128>, b: Seq<u128>) -> bool {
    forall|i: int| 0 <= i < a.len() ==> !b.contains(#[trigger] a[i])
}

/// Whether the block's updated accounts and the tracked set are disjoint.
pub fn accounts_disjoint(a: &Vec<u128>, b: &Vec<u128>) -> (r: bool)
    ensures
        r == spec_disjoint(a@, b@),
{
    let n = a.len();
    let mut i: usize = 0;
    while i < n
        invariant
            0 <= i <= n,
            n == a@.len(),
            forall|k: int| 0 <= k < i ==> !b@.contains(#[trigger] a@[k]),
        decreases n - i,
    {
        if contains_account(b, a[i]) {
            return false;
        }
        i = i + 1;
    }
    true
}

/// The tracked account set for one iteration: every stored wallet address
/// resolved to its account id, in table order, with the faucet's own account
/// appended — so the faucet is always among them. A stored address that does
/// not resolve stops the iteration instead.
pub fn get_accounts_to_be_tracked(wallets: &Vec<String>, faucet_id: u128) -> (r: Result<
    Vec<u128>,
    IndexError,
>)
    ensures
        (r matches Ok(v) ==> {
            &&& v@.len() == wallets@.len() + 1
            &&& forall|i: int|
                0 <= i < wallets@.len() ==> Some(#[trigger] v@[i]) == bech32_account_of(
                    wallets@[i]@,
                )
            &&& v@[wallets@.len() as int] == faucet_id
            &&& v@.contains(faucet_id)
        }),
        r is Ok <==> (forall|i: int|
            0 <= i < wallets@.len() ==> bech32_account_of(#[trigger] wallets@[i]@) is Some),
        r is Err ==> r == Err::<Vec<u128>, IndexError>(IndexError::UntrackableAddress),
{
    let n = wallets.len();
    let mut v: Vec<u128> = Vec::new();
    let mut i: usize = 0;
    while i < n
        invariant
            0 <= i <= n,
            n == wallets@.len(),
            v@.len() == i,
            forall|k: int|
                0 <= k < i ==> Some(#[trigger] v@[k]) == bech32_account_of(wallets@[k]@),
        decreases n - i,
    {
        match resolve_bech32_account(wallets[i].as_str()) {
            Some(id) => {
                v.push(id);
            },
            None => {
                proof {
                    assert(bech32_account_of(wallets@[i as int]@) is None);
                }
                return Err(IndexError::UntrackableAddress);
            },
        }
        i = i + 1;
    }
    v.push(faucet_id);
    proof {
        assert(v@[wallets@.len() as int] == faucet_id);
        assert forall|k: int|
            0 <= k < wallets@.len() implies bech32_account_of(
            #[trigger] wallets@[k]@,
        ) is Some by {
            assert(Some(v@[k]) == bech32_account_of(wallets@[k]@));
        }
    }
    Ok(v)
}

/// A transaction the indexer persists: its sender is tracked and it has a
/// known kind.
pub open spec fn processed_tx(tx: BlockTx, tracked_set: Seq<u128>, faucet_id: u128) -> bool {
    tracked_set.contains(tx.sender) && spec_classify(tx, faucet_id) is Some
}

/// A transaction that stops the iteration: a tracked sender whose
/// transaction fits no known kind.
pub open spec fn bad_tx(tx: BlockTx, tracked_set: Seq<u128>, faucet_id: u128) -> bool {
    tracked_set.contains(tx.sender) && spec_classify(tx, faucet_id) is None
}

/// No transaction of `txs[0..upto]` stops the iteration.
pub open spec fn clean_upto(txs: Seq<BlockTx>, tracked_set: Seq<u128>, faucet_id: u128, upto: int) -> bool {
    forall|k: int| 0 <= k < upto ==> !bad_tx(#[trigger] txs[k], tracked_set, faucet_id)
}

/// How many of `txs[0..i]` the indexer persists.
pub open spec fn count_processed(txs: Seq<BlockTx>, tracked_set: Seq<u128>, faucet_id: u128, i: int) -> nat
    decreases i,
{
    if i <= 0 {
        0
    } else {
        count_processed(txs, tracked_set, faucet_id, i - 1) + (if processed_tx(
            txs[i - 1],
            tracked_set,
            faucet_id,
        ) {
            1nat
        } else {
            0nat
        })
    }
}

proof fn lemma_count_processed_le(
    txs: Seq<BlockTx>,
    tracked_set: Seq<u128>,
    faucet_id: u128,
    k: int,
    i: int,
)
    requires
        0 <= k <= i,
    ensures
        count_processed(txs, tracked_set, faucet_id, k) <= count_processed(txs, tracked_set, faucet_id, i),
    decreases i - k,
{
    if k < i {
        lemma_count_processed_le(txs, tracked_set, faucet_id, k, i - 1);
    }
}

/// The history row written for one persisted transaction: its id and its
/// sender's encoded address as the block carries them, the kind's text, the
/// block's number and timestamp, and — for a send — the note metadata the
/// runtime fetched.
pub open spec fn record_matches(
    t: Transaction,
    tx: BlockTx,
    faucet_id: u128,
    block_num: u32,
    timestamp: u32,
) -> bool {
    spec_classify(tx, faucet_id) matches Some(k) && {
        &&& t.tx_id == tx.tx_id
        &&& t.tx_kind@ == spec_kind_chars(k)
        &&& t.sender == tx.sender_address
        &&& t.block_num == block_num
        &&& t.timestamp == timestamp
        &&& t.note_id == (if k is Send {
            tx.note
        } else {
            None::<NoteData>
        })
    }
}

/// The record run `rs` holds exactly the rows for the persisted
/// transactions of `txs[0..upto]`, in block order.
pub open spec fn records_ok(
    rs: Seq<Transaction>,
    txs: Seq<BlockTx>,
    upto: int,
    tracked_set: Seq<u128>,
    faucet_id: u128,
    block_num: u32,
    timestamp: u32,
) -> bool {
    &&& rs.len() == count_processed(txs, tracked_set, faucet_id, upto)
    &&& forall|k: int|
        0 <= k < upto && processed_tx(#[trigger] txs[k], tracked_set, faucet_id) ==> record_matches(
            rs[count_processed(txs, tracked_set, faucet_id, k) as int],
            txs[k],
            faucet_id,
            block_num,
            timestamp,
        )
}

/// Builds the history row for one persisted transaction.
fn tx_record(tx: &BlockTx, kind: TxKind, block_num: u32, timestamp: u32) -> (t: Transaction)
    ensures
        t.tx_id == tx.tx_id,
        t.tx_kind@ == spec_kind_chars(kind),
        t.sender == tx.sender_address,
        t.block_num == block_num,
        t.timestamp == timestamp,
        t.note_id == (if kind is Send {
            tx.note
        } else {
            None::<NoteData>
        }),
{
    let note = if matches!(kind, TxKind::Send) {
        match &tx.note {
            Some(n) => Some(n.clone()),
            None => None,
        }
    } else {
        None
    };
    Transaction {
        tx_id: tx.tx_id.clone(),
        tx_kind: kind_string(kind),
        sender: tx.sender_address.clone(),
        block_num,
        note_id: note,
        timestamp,
    }
}

/// Persists the relevant transactions of one fetched block: one row, with
/// insert-or-ignore semantics, for every transaction whose sender is
/// tracked_set, classified by kind. A tracked transaction of no known kind
/// stops the iteration with an error after the rows before it were written;
/// since writes are idempotent, the retry re-covers them safely. The ghost
/// result names the run of rows this call wrote.
pub fn update_db_raw_block(
    history: &mut History,
    tracked_set: &Vec<u128>,
    faucet_id: u128,
    block: &BlockSummary,
) -> (r: (Result<(), IndexError>, Ghost<Seq<Transaction>>))
    requires
        old(history).wf(),
    ensures
        final(history).wf(),
        final(history).rows@ == spec_upsert_all(old(history).rows@, r.1@),
        r.0 is Ok <==> clean_upto(block.txs@, tracked_set@, faucet_id, block.txs@.len() as int),
        r.0 is Ok ==> records_ok(
            r.1@,
            block.txs@,
            block.txs@.len() as int,
            tracked_set@,
            faucet_id,
            block.block_num,
            block.timestamp,
        ),
        r.0 is Err ==> r.0 == Err::<(), IndexError>(IndexError::UnknownTxKind) && exists|b: int|
            0 <= b < block.txs@.len() && bad_tx(#[trigger] block.txs@[b], tracked_set@, faucet_id)
                && clean_upto(block.txs@, tracked_set@, faucet_id, b) && records_ok(
                r.1@,
                block.txs@,
                b,
                tracked_set@,
                faucet_id,
                block.block_num,
                block.timestamp,
            ),
{
    let ghost old_rows = history.rows@;
    let n = block.txs.len();
    let ghost mut rs: Seq<Transaction> = Seq::empty();
    let mut i: usize = 0;
    while i < n
        invariant
            0 <= i <= n,
            n == block.txs@.len(),
            old_rows == old(history).rows@,
            history.wf(),
            history.rows@ == spec_upsert_all(old_rows, rs),
            clean_upto(block.txs@, tracked_set@, faucet_id, i as int),
            records_ok(
                rs,
                block.txs@,
                i as int,
                tracked_set@,
                faucet_id,
                block.block_num,
                block.timestamp,
            ),
        decreases n - i,
    {
        let tx = &block.txs[i];
        if contains_account(tracked_set, tx.sender) {
            match classify_tx(tx, faucet_id) {
                Some(kind) => {
                    let rec = tx_record(tx, kind, block.block_num, block.timestamp);
                    proof {
                        lemma_upsert_all_snoc(old_rows, rs, rec);
                        assert forall|k: int|
                            0 <= k < i && processed_tx(
                                #[trigger] block.txs@[k],
                                tracked_set@,
                                faucet_id,
                            ) implies count_processed(block.txs@, tracked_set@, faucet_id, k)
                            < count_processed(block.txs@, tracked_set@, faucet_id, i as int) by {
                            lemma_count_processed_le(
                                block.txs@,
                                tracked_set@,
                                faucet_id,
                                k + 1,
                                i as int,
                            );
                        }
                        rs = rs.push(rec);
                    }
                    history.upsert(rec);
                },
                None => {
                    proof {
                        assert(bad_tx(block.txs@[i as int], tracked_set@, faucet_id));
                    }
                    return (Err(IndexError::UnknownTxKind), Ghost(rs));
                },
            }
        }
        i = i + 1;
    }
    (Ok(()), Ghost(rs))
}

/// One iteration step of the sync loop at `cursor`: a block that could not
/// be fetched stops the iteration with the cursor unmoved; a fetched block
/// touching no tracked account advances the cursor and writes nothing; any
/// other block is persisted through `update_db_raw_block`, and the cursor
/// advances exactly when that succeeded.
pub fn step_block(
    cursor: u32,
    tracked_set: &Vec<u128>,
    faucet_id: u128,
    fetched: Option<&BlockSummary>,
    history: &mut History,
) -> (r: (Result<u32, IndexError>, Ghost<Seq<Transaction>>))
    requires
        old(history).wf(),
        cursor < u32::MAX,
        (fetched matches Some(b) ==> b.block_num == cursor),
    ensures
        final(history).wf(),
        final(history).rows@ == spec_upsert_all(old(history).rows@, r.1@),
        (r.0 matches Ok(c) ==> c == cursor + 1),
        fetched is None ==> r.0 == Err::<u32, IndexError>(IndexError::BlockFetchFailed)
            && final(history).rows@ == old(history).rows@,
        (fetched matches Some(b) ==> {
            &&& spec_disjoint(b.updated_accounts@, tracked_set@) ==> (r.0 matches Ok(c)
                && final(history).rows@ == old(history).rows@)
            &&& !spec_disjoint(b.updated_accounts@, tracked_set@) ==> {
                &&& (r.0 is Ok <==> clean_upto(b.txs@, tracked_set@, faucet_id, b.txs@.len() as int))
                &&& r.0 is Ok ==> records_ok(
                    r.1@,
                    b.txs@,
                    b.txs@.len() as int,
                    tracked_set@,
                    faucet_id,
                    b.block_num,
                    b.timestamp,
                )
                &&& r.0 is Err ==> r.0 == Err::<u32, IndexError>(IndexError::UnknownTxKind)
            }
        }),
{
    match fetched {
        None => (Err(IndexError::BlockFetchFailed), Ghost(Seq::empty())),
        Some(b) => {
            if accounts_disjoint(&b.updated_accounts, tracked_set) {
                (Ok(cursor + 1), Ghost(Seq::empty()))
            } else {
                let (res, g) = update_db_raw_block(history, tracked_set, faucet_id, b);
                match res {
                    Ok(()) => (Ok(cursor + 1), g),
                    Err(e) => (Err(e), g),
                }
            }
        },
    }
}

/// The two positions the sync loop lives by: `next` is the in-memory number
/// of the next block to process; `durable` is the persisted cursor the loop
/// resumes from after a crash.
#[derive(Clone, Copy, PartialEq, Eq, Structural, Debug)]
pub struct SyncCursor {
    pub next: u32,
    pub durable: u32,
}

/// What can happen to the cursor pair: a block at `next` is processed, the
/// in-memory position is persisted (once per block, not once per loop pass),
/// or the process crashes and restarts from the durable cursor.
#[derive(Clone, Copy, PartialEq, Eq, Structural, Debug)]
pub enum SyncEvent {
    Process,
    Persist,
    Crash,
}

pub open spec fn sync_step(s: SyncCursor, e: SyncEvent) -> SyncCursor {
    match e {
        SyncEvent::Process => if s.next < u32::MAX {
            SyncCursor { next: (s.next + 1) as u32, durable: s.durable }
        } else {
            s
        },
        SyncEvent::Persist => SyncCursor { next: s.next, durable: s.next },
        SyncEvent::Crash => SyncCursor { next: s.durable, durable: s.durable },
    }
}

pub open spec fn sync_run(s: SyncCursor, es: Seq<SyncEvent>) -> SyncCursor
    decreases es.len(),
{
    if es.len() == 0 {
        s
    } else {
        sync_run(sync_step(s, es[0]), es.skip(1))
    }
}

/// The blocks processed during a run of events.
pub open spec fn sync_processed(s: SyncCursor, es: Seq<SyncEvent>) -> Set<u32>
    decreases es.len(),
{
    if es.len() == 0 {
        Set::empty()
    } else {
        (if es[0] is Process && s.next < u32::MAX {
            set![s.next]
        } else {
            Set::<u32>::empty()
        }).union(sync_processed(sync_step(s, es[0]), es.skip(1)))
    }
}

/// The cursor pair as the loop steps it; mirror of `sync_step`.
pub fn sync_cursor_step(s: SyncCursor, e: SyncEvent) -> (t: SyncCursor)
    ensures
        t == sync_step(s, e),
{
    match e {
        SyncEvent::Process => if s.next < u32::MAX {
            SyncCursor { next: s.next + 1, durable: s.durable }
        } else {
            s
        },
        SyncEvent::Persist => SyncCursor { next: s.next, durable: s.next },
        SyncEvent::Crash => SyncCursor { next: s.durable, durable: s.durable },
    }
}

proof fn lemma_sync_run_inv(s: SyncCursor, es: Seq<SyncEvent>)
    requires
        s.durable <= s.next,
    ensures
        sync_run(s, es).durable >= s.durable,
        sync_run(s, es).durable <= sync_run(s, es).next,
        forall|b: u32| s.next <= b < sync_run(s, es).next ==> sync_processed(s, es).contains(b),
    decreases es.len(),
{
    if es.len() == 0 {
    } else {
        let s1 = sync_step(s, es[0]);
        lemma_sync_run_inv(s1, es.skip(1));
        let fin = sync_run(s, es);
        assert(fin == sync_run(s1, es.skip(1)));
        assert forall|b: u32| s.next <= b < fin.next implies sync_processed(s, es).contains(
            b,
        ) by {
            if s1.next <= b {
                assert(sync_processed(s1, es.skip(1)).contains(b));
            } else {
                assert(es[0] is Process && s.next < u32::MAX && b == s.next);
                assert(set![s.next].contains(b));
            }
        }
    }
}

/// Cursor monotonicity: starting from a freshly loaded state — the
/// in-memory position equals the durable cursor — any run of block
/// processings, per-block persists and crashes leaves the durable cursor no
/// smaller than it began, never ahead of the in-memory position, and with
/// every block from the starting cursor up to the in-memory position
/// processed during the run. The durable cursor therefore never decreases
/// and never moves past an unprocessed block.
pub proof fn lemma_cursor_monotonic(s0: SyncCursor, es: Seq<SyncEvent>)
    requires
        s0.durable == s0.next,
    ensures
        sync_run(s0, es).durable >= s0.durable,
        sync_run(s0, es).durable <= sync_run(s0, es).next,
        forall|b: u32|
            s0.durable <= b < sync_run(s0, es).next ==> sync_processed(s0, es).contains(b),
{
    lemma_sync_run_inv(s0, es);
}

} // verus!
