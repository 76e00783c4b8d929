//! Transaction history records and the store's access contract.
//!
//! The indexer is the only writer of the history table. Rows are append-only,
//! keyed by `tx_id`, and written with insert-or-ignore semantics, so that
//! re-processing a block never duplicates history. `History` is the model of
//! the `TRANSACTIONS_DETAIL` table that the contracts of the writer and of the
//! query functions are stated against.

use vstd::prelude::*;

use crate::codec::dec_chars;
use crate::codec::u32_to_string;

verus! {

/// Metadata of the first output note of a `send` transaction.
pub struct NoteData {
    pub note_id: String,
    pub note_type: String,
    pub note_aux: String,
}

impl Clone for NoteData {
    fn clone(&self) -> (res: Self)
        ensures
            res == *self,
    {
        NoteData {
            note_id: self.note_id.clone(),
            note_type: self.note_type.clone(),
            note_aux: self.note_aux.clone(),
        }
    }
}

/// One row of the transaction history.
pub struct Transaction {
    pub tx_id: String,
    pub tx_kind: String,
    pub sender: String,
    pub block_num: u32,
    pub note_id: Option<NoteData>,
    pub timestamp: u32,
}

impl Clone for Transaction {
    fn clone(&self) -> (res: Self)
        ensures
            res == *self,
    {
        Transaction {
            tx_id: self.tx_id.clone(),
            tx_kind: self.tx_kind.clone(),
            sender: self.sender.clone(),
            block_num: self.block_num,
            note_id: match &self.note_id {
                Some(n) => Some(n.clone()),
                None => None,
            },
            timestamp: self.timestamp,
        }
    }
}

impl Transaction {
    /// The values bound to the insert statement's eight parameters, in
    /// statement order. Numeric columns are bound as decimal text; an absent
    /// note is bound as SQL NULL through `None`.
    pub fn into_sql_value(self) -> (r: (
        String,
        String,
        String,
        String,
        String,
        Option<String>,
        Option<String>,
        Option<String>,
    ))
        ensures
            r.0@ == dec_chars(self.block_num as nat),
            r.1 == self.tx_id,
            r.2 == self.tx_kind,
            r.3 == self.sender,
            r.4@ == dec_chars(self.timestamp as nat),
            match self.note_id {
                Some(n) => r.5 == Some(n.note_id) && r.6 == Some(n.note_type)
                    && r.7 == Some(n.note_aux),
                None => r.5 is None && r.6 is None && r.7 is None,
            },
    {
        let (note_id, note_type, note_aux) = match self.note_id {
            Some(n) => (Some(n.note_id), Some(n.note_type), Some(n.note_aux)),
            None => (None, None, None),
        };
        (
            u32_to_string(self.block_num),
            self.tx_id,
            self.tx_kind,
            self.sender,
            u32_to_string(self.timestamp),
            note_id,
            note_type,
            note_aux,
        )
    }

    /// Rebuilds a row from the column values of a selected record. The three
    /// note columns are either all present or all NULL, as the writer leaves
    /// them.
    pub fn from_sql_row(
        block_num: u32,
        tx_id: String,
        tx_kind: String,
        sender: String,
        timestamp: u32,
        note_id: Option<String>,
        note_type: Option<String>,
        note_aux: Option<String>,
    ) -> (t: Self)
        requires
            note_id is Some ==> note_type is Some && note_aux is Some,
        ensures
            t.block_num == block_num,
            t.tx_id == tx_id,
            t.tx_kind == tx_kind,
            t.sender == sender,
            t.timestamp == timestamp,
            match note_id {
                Some(id) => t.note_id matches Some(n) && n.note_id == id
                    && Some(n.note_type) == note_type && Some(n.note_aux) == note_aux,
                None => t.note_id is None,
            },
    {
        let note = match (note_id, note_type, note_aux) {
            (Some(id), Some(ty), Some(aux)) => Some(NoteData {
                note_id: id,
                note_type: ty,
                note_aux: aux,
            }),
            _ => None,
        };
        Transaction {
            block_num,
            tx_id,
            tx_kind,
            sender,
            timestamp,
            note_id: note,
        }
    }
}

/// Whether some row of `rows` already carries `id`.
pub open spec fn has_tx_id(rows: Seq<Transaction>, id: Seq<char>) -> bool {
    exists|i: int| 0 <= i < rows.len() && rows[i].tx_id@ == id
}

/// Insert-or-ignore of one row, keyed by `tx_id`.
pub open spec fn spec_upsert(rows: Seq<Transaction>, t: Transaction) -> Seq<Transaction> {
    if has_tx_id(rows, t.tx_id@) {
        rows
    } else {
        rows.push(t)
    }
}

/// Insert-or-ignore of a run of rows, oldest first.
pub open spec fn spec_upsert_all(rows: Seq<Transaction>, ts: Seq<Transaction>) -> Seq<Transaction>
    decreases ts.len(),
{
    if ts.len() == 0 {
        rows
    } else {
        spec_upsert_all(spec_upsert(rows, ts[0]), ts.skip(1))
    }
}

/// No two rows carry the same `tx_id`.
pub open spec fn unique_tx_ids(rows: Seq<Transaction>) -> bool {
    forall|i: int, j: int|
        0 <= i < j < rows.len() ==> rows[i].tx_id@ != rows[j].tx_id@
}

/// The model of the `TRANSACTIONS_DETAIL` table: its rows in insertion
/// order, so that the autoincrement row id of the store is the position.
pub struct History {
    pub rows: Vec<Transaction>,
}

impl History {
    /// The table's standing invariant: `tx_id` is unique.
    pub open spec fn wf(&self) -> bool {
        unique_tx_ids(self.rows@)
    }

    pub fn new() -> (h: History)
        ensures
            h.rows@ == Seq::<Transaction>::empty(),
            h.wf(),
    {
        History { rows: Vec::new() }
    }

    /// Whether a row with this `tx_id` is already present.
    pub fn contains_tx_id(&self, id: &String) -> (b: bool)
        ensures
            b == has_tx_id(self.rows@, id@),
    {
        let n = self.rows.len();
        let mut i: usize = 0;
        while i < n
            invariant
                0 <= i <= n,
                n == self.rows@.len(),
                forall|k: int| 0 <= k < i ==> self.rows@[k].tx_id@ != id@,
            decreases n - i,
        {
            if self.rows[i].tx_id == *id {
                return true;
            }
            i = i + 1;
        }
        false
    }

    /// Writes one row with insert-or-ignore semantics: a row whose `tx_id`
    /// is already present leaves the table unchanged.
    pub fn upsert(&mut self, t: Transaction)
        requires
            old(self).wf(),
        ensures
            final(self).rows@ == spec_upsert(old(self).rows@, t),
            final(self).wf(),
    {
        let present = self.contains_tx_id(&t.tx_id);
        if !present {
            proof {
                assert(forall|k: int| 0 <= k < self.rows@.len()
                    ==> self.rows@[k].tx_id@ != t.tx_id@);
            }
            self.rows.push(t);
        }
    }
}

/// An upsert run extended by one record is the run followed by that upsert.
pub proof fn lemma_upsert_all_snoc(rows: Seq<Transaction>, ts: Seq<Transaction>, t: Transaction)
    ensures
        spec_upsert_all(rows, ts.push(t)) == spec_upsert(spec_upsert_all(rows, ts), t),
    decreases ts.len(),
{
    if ts.len() == 0 {
        assert(ts.push(t)[0] == t);
        assert(ts.push(t).skip(1) =~= Seq::<Transaction>::empty());
        assert(spec_upsert_all(rows, ts) == rows);
        assert(spec_upsert_all(spec_upsert(rows, t), ts.push(t).skip(1))
            == spec_upsert(rows, t));
    } else {
        assert(ts.push(t)[0] == ts[0]);
        assert(ts.push(t).skip(1) =~= ts.skip(1).push(t));
        lemma_upsert_all_snoc(spec_upsert(rows, ts[0]), ts.skip(1), t);
    }
}

/// Wipes the history table, as the metrics reset does before re-indexing,
/// or leaves it as it stands.
pub fn reset_rows(history: &mut History, wipe: bool)
    ensures
        wipe ==> final(history).rows@ == Seq::<Transaction>::empty(),
        !wipe ==> final(history).rows@ == old(history).rows@,
        old(history).wf() ==> final(history).wf(),
{
    if wipe {
        history.rows.clear();
    }
}

/// Re-inserting any row whose key is already present changes nothing.
proof fn lemma_upsert_present(rows: Seq<Transaction>, t: Transaction)
    requires
        has_tx_id(rows, t.tx_id@),
    ensures
        spec_upsert(rows, t) == rows,
{
}

/// After an upsert run, a key is present exactly if it was present before
/// or some record of the run carries it.
proof fn lemma_upsert_all_has(rows: Seq<Transaction>, ts: Seq<Transaction>, id: Seq<char>)
    ensures
        has_tx_id(spec_upsert_all(rows, ts), id) <==> has_tx_id(rows, id)
            || exists|k: int| 0 <= k < ts.len() && ts[k].tx_id@ == id,
    decreases ts.len(),
{
    if ts.len() == 0 {
    } else {
        let rows1 = spec_upsert(rows, ts[0]);
        assert(has_tx_id(rows1, id) <==> has_tx_id(rows, id) || ts[0].tx_id@ == id) by {
            if has_tx_id(rows, id) {
                let i = choose|i: int| 0 <= i < rows.len() && rows[i].tx_id@ == id;
                assert(rows1[i].tx_id@ == id);
            }
            if !has_tx_id(rows, id) && ts[0].tx_id@ == id {
                assert(rows1[rows.len() as int].tx_id@ == id);
            }
            if has_tx_id(rows1, id) && !has_tx_id(rows, id) {
                let i = choose|i: int| 0 <= i < rows1.len() && rows1[i].tx_id@ == id;
                assert(i == rows.len());
            }
        }
        lemma_upsert_all_has(rows1, ts.skip(1), id);
        assert(forall|k: int| 0 <= k < ts.skip(1).len()
            ==> #[trigger] ts.skip(1)[k] == ts[k + 1]);
        assert((exists|k: int| 0 <= k < ts.skip(1).len() && ts.skip(1)[k].tx_id@ == id)
            || ts[0].tx_id@ == id
            <==> exists|k: int| 0 <= k < ts.len() && ts[k].tx_id@ == id) by {
            if exists|k: int| 0 <= k < ts.skip(1).len() && ts.skip(1)[k].tx_id@ == id {
                let k = choose|k: int| 0 <= k < ts.skip(1).len() && ts.skip(1)[k].tx_id@ == id;
                assert(ts[k + 1].tx_id@ == id);
            }
            if exists|k: int| 0 <= k < ts.len() && ts[k].tx_id@ == id {
                let k = choose|k: int| 0 <= k < ts.len() && ts[k].tx_id@ == id;
                if k > 0 {
                    assert(ts.skip(1)[k - 1].tx_id@ == id);
                }
            }
        }
    }
}

/// An upsert run whose keys are all already present changes nothing.
proof fn lemma_upsert_all_absorbed(rows: Seq<Transaction>, ts: Seq<Transaction>)
    requires
        forall|k: int| 0 <= k < ts.len() ==> has_tx_id(rows, #[trigger] ts[k].tx_id@),
    ensures
        spec_upsert_all(rows, ts) == rows,
    decreases ts.len(),
{
    if ts.len() == 0 {
    } else {
        assert(has_tx_id(rows, ts[0].tx_id@));
        lemma_upsert_present(rows, ts[0]);
        assert(forall|k: int| 0 <= k < ts.skip(1).len()
            ==> #[trigger] ts.skip(1)[k] == ts[k + 1]);
        lemma_upsert_all_absorbed(rows, ts.skip(1));
    }
}

/// No duplicate history: replaying the same run of records over the table a
/// second time is a no-op, so re-processing an already-indexed block range
/// adds no row.
pub proof fn lemma_replay_idempotent(rows: Seq<Transaction>, ts: Seq<Transaction>)
    ensures
        spec_upsert_all(spec_upsert_all(rows, ts), ts) == spec_upsert_all(rows, ts),
{
    let rows1 = spec_upsert_all(rows, ts);
    assert(forall|k: int| 0 <= k < ts.len()
        ==> has_tx_id(rows1, #[trigger] ts[k].tx_id@)) by {
        assert forall|k: int| 0 <= k < ts.len()
            implies has_tx_id(rows1, #[trigger] ts[k].tx_id@) by {
            lemma_upsert_all_has(rows, ts, ts[k].tx_id@);
        }
    }
    lemma_upsert_all_absorbed(rows1, ts);
}

/// The rows of `rows[0..i]` whose sender is `sender`, newest first, as
/// `ORDER BY id DESC` returns them.
pub open spec fn txs_by_sender_desc(rows: Seq<Transaction>, sender: Seq<char>, i: int) -> Seq<
    Transaction,
>
    decreases i,
{
    if i <= 0 {
        Seq::empty()
    } else {
        (if rows[i - 1].sender@ == sender {
            seq![rows[i - 1]]
        } else {
            Seq::empty()
        }) + txs_by_sender_desc(rows, sender, i - 1)
    }
}

/// The newest rows, newest first, at most ten, as the latest-transactions
/// query returns them.
pub open spec fn spec_latest_desc(rows: Seq<Transaction>) -> Seq<Transaction> {
    Seq::new(if rows.len() < 10 { rows.len() } else { 10 }, |i: int| rows[rows.len() - 1 - i])
}

/// One ten-row page of `s`, starting `off` rows in.
pub open spec fn spec_page(s: Seq<Transaction>, off: int) -> Seq<Transaction> {
    let lo = if off < s.len() { off } else { s.len() as int };
    let hi = if off + 10 < s.len() { off + 10 } else { s.len() as int };
    s.subrange(lo, hi)
}

/// How many of `rows[0..i]` carry a timestamp of `cutoff` or later.
pub open spec fn count_since(rows: Seq<Transaction>, cutoff: u32, i: int) -> nat
    decreases i,
{
    if i <= 0 {
        0
    } else {
        count_since(rows, cutoff, i - 1) + (if rows[i - 1].timestamp >= cutoff {
            1nat
        } else {
            0nat
        })
    }
}

/// The hour-window cutoff: one hour before `now`, clamped at the epoch.
pub open spec fn spec_hour_cutoff(now: u32) -> u32 {
    if now >= 3600 {
        (now - 3600) as u32
    } else {
        0
    }
}

/// Looks one row up by its unique `tx_id`.
pub fn get_tx_by_id(store: &History, tx_id: String) -> (r: Result<Transaction, String>)
    ensures
        has_tx_id(store.rows@, tx_id@) ==> (r matches Ok(t) && t.tx_id@ == tx_id@
            && store.rows@.contains(t)),
        !has_tx_id(store.rows@, tx_id@) ==> (r matches Err(e) && e@
            == "No transaction foundd"@),
{
    let n = store.rows.len();
    let mut i: usize = 0;
    while i < n
        invariant
            0 <= i <= n,
            n == store.rows@.len(),
            forall|k: int| 0 <= k < i ==> store.rows@[k].tx_id@ != tx_id@,
        decreases n - i,
    {
        if store.rows[i].tx_id == tx_id {
            let t = store.rows[i].clone();
            proof {
                assert(store.rows@[i as int] == t);
            }
            return Ok(t);
        }
        i = i + 1;
    }
    Err("No transaction foundd".to_owned())
}

/// Returns the ten newest rows, newest first.
pub fn get_txs_latest(store: &History) -> (r: Result<Vec<Transaction>, String>)
    ensures
        r matches Ok(v) && v@ == spec_latest_desc(store.rows@),
{
    let n = store.rows.len();
    let take: usize = if n < 10 {
        n
    } else {
        10
    };
    let mut v: Vec<Transaction> = Vec::new();
    let mut j: usize = 0;
    while j < take
        invariant
            0 <= j <= take <= n,
            n == store.rows@.len(),
            v@.len() == j,
            forall|k: int| 0 <= k < j ==> v@[k] == store.rows@[n - 1 - k],
        decreases take - j,
    {
        v.push(store.rows[n - 1 - j].clone());
        j = j + 1;
    }
    proof {
        assert(v@ =~= spec_latest_desc(store.rows@));
    }
    Ok(v)
}

/// Returns one page of the rows sent by `account_id`, newest first, ten per
/// page. Pages are numbered from one; page zero is rejected.
pub fn get_transactions_by_account(
    store: &History,
    account_id: &String,
    page_number: u32,
) -> (r: Result<Vec<Transaction>, String>)
    ensures
        page_number < 1 ==> (r matches Err(e) && e@ == "Page number must be greater than 0"@),
        page_number >= 1 ==> (r matches Ok(v) && v@ == spec_page(
            txs_by_sender_desc(store.rows@, account_id@, store.rows@.len() as int),
            (page_number - 1) * 10,
        )),
{
    if page_number < 1 {
        return Err("Page number must be greater than 0".to_owned());
    }
    let n = store.rows.len();
    let ghost sel = txs_by_sender_desc(store.rows@, account_id@, n as int);
    let mut all: Vec<Transaction> = Vec::new();
    let mut i: usize = n;
    while i > 0
        invariant
            0 <= i <= n,
            n == store.rows@.len(),
            sel == txs_by_sender_desc(store.rows@, account_id@, n as int),
            sel =~= all@ + txs_by_sender_desc(store.rows@, account_id@, i as int),
        decreases i,
    {
        i = i - 1;
        if store.rows[i].sender == *account_id {
            all.push(store.rows[i].clone());
        }
        proof {
            assert(sel =~= all@ + txs_by_sender_desc(store.rows@, account_id@, i as int));
        }
    }
    proof {
        assert(all@ =~= sel);
    }
    let off: u64 = (page_number - 1) as u64 * 10;
    let m = all.len();
    let start: usize = if off < m as u64 {
        off as usize
    } else {
        m
    };
    let mut v: Vec<Transaction> = Vec::new();
    let mut j: usize = start;
    while j < m && j - start < 10
        invariant
            start <= j <= m,
            m == all@.len(),
            j - start <= 10,
            v@.len() == j - start,
            forall|k: int| 0 <= k < v@.len() ==> v@[k] == all@[start + k],
        decreases m - j,
    {
        v.push(all[j].clone());
        j = j + 1;
    }
    proof {
        assert(v@ =~= spec_page(sel, (page_number - 1) * 10));
    }
    Ok(v)
}

/// Counts the rows sent by `account_id`.
pub fn get_number_of_tx_for_address(store: &History, account_id: &String) -> (r: Result<
    u32,
    String,
>)
    requires
        store.rows@.len() <= u32::MAX,
    ensures
        r matches Ok(c) && c == txs_by_sender_desc(
            store.rows@,
            account_id@,
            store.rows@.len() as int,
        ).len(),
{
    let n = store.rows.len();
    let mut count: u32 = 0;
    let mut i: usize = 0;
    while i < n
        invariant
            0 <= i <= n,
            n == store.rows@.len() <= u32::MAX,
            count == txs_by_sender_desc(store.rows@, account_id@, i as int).len(),
            count <= i,
        decreases n - i,
    {
        if store.rows[i].sender == *account_id {
            count = count + 1;
        }
        i = i + 1;
    }
    Ok(count)
}

/// Counts the rows stamped within the hour before `now`.
pub fn get_txs_in_last_hour(store: &History, now: u32) -> (r: Result<u32, String>)
    requires
        store.rows@.len() <= u32::MAX,
    ensures
        r matches Ok(c) && c == count_since(
            store.rows@,
            spec_hour_cutoff(now),
            store.rows@.len() as int,
        ),
{
    let cutoff: u32 = if now >= 3600 {
        now - 3600
    } else {
        0
    };
    let n = store.rows.len();
    let mut count: u32 = 0;
    let mut i: usize = 0;
    while i < n
        invariant
            0 <= i <= n,
            n == store.rows@.len() <= u32::MAX,
            cutoff == spec_hour_cutoff(now),
            count == count_since(store.rows@, cutoff, i as int),
            count <= i,
        decreases n - i,
    {
        if store.rows[i].timestamp >= cutoff {
            count = count + 1;
        }
        i = i + 1;
    }
    Ok(count)
}

/// Upserts keep the key-uniqueness invariant of the table.
pub proof fn lemma_upsert_all_unique(rows: Seq<Transaction>, ts: Seq<Transaction>)
    requires
        unique_tx_ids(rows),
    ensures
        unique_tx_ids(spec_upsert_all(rows, ts)),
    decreases ts.len(),
{
    if ts.len() == 0 {
    } else {
        assert(unique_tx_ids(spec_upsert(rows, ts[0]))) by {
            if !has_tx_id(rows, ts[0].tx_id@) {
                let r = rows.push(ts[0]);
                assert(forall|i: int| 0 <= i < rows.len()
                    ==> #[trigger] r[i] == rows[i]);
                assert(forall|i: int| 0 <= i < rows.len()
                    ==> #[trigger] rows[i].tx_id@ != ts[0].tx_id@);
            }
        }
        lemma_upsert_all_unique(spec_upsert(rows, ts[0]), ts.skip(1));
    }
}

} // verus!
