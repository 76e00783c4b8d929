//! The mint batch scheduler.
//!
//! Callers enqueue `(address, amount)` requests; a single background flush
//! worker periodically drains the whole queue, submits one bulk mint
//! operation for the drained batch, and completes every request of that
//! batch with the same outcome. A caller waits on its own slot, bounded by a
//! budget, and observes a timeout error where the batch has not settled in
//! time. The queue operations, the payload built from a batch, the
//! proving-failure retry decision, the fan-out and the caller-side wait
//! decisions are all here; the ledger submission itself and the timers stay
//! with the runtime around the library.

use vstd::prelude::*;

use crate::utils::bech32_account_of;
use crate::utils::resolve_bech32_account;

verus! {

/// The flush worker's period between two drains, in seconds.
pub const FLUSH_PERIOD_SECS: u64 = 10;

/// A caller's wait budget on its result slot, in seconds.
pub const MINT_WAIT_BUDGET_SECS: u64 = 120;

/// One pending mint request. `slot` identifies the caller's single-use
/// result slot; the runtime maps it to the caller's channel.
pub struct MintRequest {
    pub address: String,
    pub amount: u64,
    pub slot: u64,
}

/// The shared request queue between the callers and the flush worker.
pub struct MintQueue {
    pub requests: Vec<MintRequest>,
    pub next_slot: u64,
}

impl MintQueue {
    /// Result slots are single-use: every queued request holds a distinct
    /// slot, freshly drawn below `next_slot`.
    pub open spec fn wf(&self) -> bool {
        &&& forall|i: int|
            0 <= i < self.requests@.len() ==> self.requests@[i].slot < self.next_slot
        &&& forall|i: int, j: int|
            0 <= i < j < self.requests@.len()
                ==> self.requests@[i].slot != self.requests@[j].slot
    }

    pub fn new() -> (q: MintQueue)
        ensures
            q.requests@ == Seq::<MintRequest>::empty(),
            q.next_slot == 0,
            q.wf(),
    {
        MintQueue { requests: Vec::new(), next_slot: 0 }
    }

    /// Appends a request with a fresh result slot. Never blocks beyond the
    /// lock around the queue, which the runtime holds only for this append.
    pub fn enqueue(&mut self, address: String, amount: u64) -> (slot: u64)
        requires
            old(self).wf(),
            old(self).next_slot < u64::MAX,
        ensures
            slot == old(self).next_slot,
            final(self).requests@ == old(self).requests@.push(
                (MintRequest { address, amount, slot }),
            ),
            final(self).next_slot == old(self).next_slot + 1,
            final(self).wf(),
    {
        let slot = self.next_slot;
        self.requests.push(MintRequest { address, amount, slot });
        self.next_slot = self.next_slot + 1;
        slot
    }

    /// Atomically takes the whole current queue content. A request enqueued
    /// after a drain began lands in the fresh queue and is part of the next
    /// batch, never of the current one.
    pub fn drain(&mut self) -> (batch: Vec<MintRequest>)
        ensures
            batch@ == old(self).requests@,
            final(self).requests@ == Seq::<MintRequest>::empty(),
            final(self).next_slot == old(self).next_slot,
            final(self).wf(),
    {
        let mut batch: Vec<MintRequest> = Vec::new();
        core::mem::swap(&mut batch, &mut self.requests);
        batch
    }
}

/// The `(account, amount)` pairs of one bulk mint operation for a drained
/// batch: every request in enqueue order, except that an address that does
/// not resolve to an account id is silently dropped from the operation.
pub open spec fn spec_mint_payload(batch: Seq<MintRequest>) -> Seq<(u128, u64)>
    decreases batch.len(),
{
    if batch.len() == 0 {
        Seq::empty()
    } else {
        spec_mint_payload(batch.drop_last()) + (match bech32_account_of(
            batch.last().address@,
        ) {
            Some(id) => seq![(id, batch.last().amount)],
            None => Seq::empty(),
        })
    }
}

/// Builds the bulk mint payload for one drained batch. A request whose
/// address fails to resolve is left out of the operation, but stays in the
/// batch and still receives the batch's shared outcome — the accepted gap of
/// the bulk-mint path, kept as it stands.
pub fn build_mint_payload(batch: &Vec<MintRequest>) -> (payload: Vec<(u128, u64)>)
    ensures
        payload@ == spec_mint_payload(batch@),
{
    let n = batch.len();
    let mut payload: Vec<(u128, u64)> = Vec::new();
    let mut i: usize = 0;
    while i < n
        invariant
            0 <= i <= n,
            n == batch@.len(),
            payload@ == spec_mint_payload(batch@.take(i as int)),
        decreases n - i,
    {
        proof {
            assert(batch@.take(i + 1).drop_last() =~= batch@.take(i as int));
            assert(batch@.take(i + 1).last() == batch@[i as int]);
        }
        match resolve_bech32_account(batch[i].address.as_str()) {
            Some(id) => {
                payload.push((id, batch[i].amount));
            },
            None => {},
        }
        i = i + 1;
    }
    proof {
        assert(batch@.take(n as int) =~= batch@);
    }
    payload
}

/// How a bulk submission failed: a proving failure is retried once with the
/// local prover; every other failure settles the batch at once.
pub enum SubmitFailure {
    Proving(String),
    Other(String),
}

/// What the flush worker does after the first submission attempt.
pub enum FlushStep {
    Settled(Result<String, String>),
    RetryWithLocalProver(String),
}

/// Decides the flush worker's next step from the first submission attempt:
/// success settles the batch on the operation's digest, a proving failure
/// earns one retry with the local prover, and any other failure settles the
/// batch on the error at once.
pub fn after_submit(digest: String, result: Result<(), SubmitFailure>) -> (step: FlushStep)
    ensures
        result is Ok ==> step == FlushStep::Settled(Ok::<String, String>(digest)),
        (result matches Err(SubmitFailure::Proving(m)) ==> step
            == FlushStep::RetryWithLocalProver(digest)),
        (result matches Err(SubmitFailure::Other(m)) ==> step == FlushStep::Settled(
            Err::<String, String>(m),
        )),
{
    match result {
        Ok(()) => FlushStep::Settled(Ok(digest)),
        Err(SubmitFailure::Proving(_)) => FlushStep::RetryWithLocalProver(digest),
        Err(SubmitFailure::Other(m)) => FlushStep::Settled(Err(m)),
    }
}

/// Settles the batch after the local-prover retry: its success still yields
/// the original digest; its failure becomes the shared outcome.
pub fn after_local_retry(digest: String, result: Result<(), String>) -> (outcome: Result<
    String,
    String,
>)
    ensures
        result is Ok ==> outcome == Ok::<String, String>(digest),
        (result matches Err(m) ==> outcome == Err::<String, String>(m)),
{
    match result {
        Ok(()) => Ok(digest),
        Err(m) => Err(m),
    }
}

/// The deliveries for one settled batch: every drained request's slot is
/// completed with the one shared outcome.
pub open spec fn spec_complete(
    batch: Seq<MintRequest>,
    outcome: Result<String, String>,
) -> Seq<(u64, Result<String, String>)> {
    Seq::new(batch.len(), |i: int| (batch[i].slot, outcome))
}

fn clone_outcome(outcome: &Result<String, String>) -> (r: Result<String, String>)
    ensures
        r == *outcome,
{
    match outcome {
        Ok(s) => Ok(s.clone()),
        Err(s) => Err(s.clone()),
    }
}

/// Fans the settled outcome out to every request of the drained batch,
/// completing each slot exactly once with the identical value.
pub fn complete_batch(batch: &Vec<MintRequest>, outcome: &Result<String, String>) -> (deliveries:
    Vec<(u64, Result<String, String>)>)
    ensures
        deliveries@ == spec_complete(batch@, *outcome),
{
    let n = batch.len();
    let mut deliveries: Vec<(u64, Result<String, String>)> = Vec::new();
    let mut i: usize = 0;
    while i < n
        invariant
            0 <= i <= n,
            n == batch@.len(),
            deliveries@.len() == i,
            forall|k: int|
                0 <= k < i ==> deliveries@[k] == (batch@[k].slot, *outcome),
        decreases n - i,
    {
        deliveries.push((batch[i].slot, clone_outcome(outcome)));
        i = i + 1;
    }
    proof {
        assert(deliveries@ =~= spec_complete(batch@, *outcome));
    }
    deliveries
}

/// Batch atomicity: all requests drained together receive bit-identical
/// outcomes — the deliveries of a settled batch pair every drained slot with
/// the one shared outcome value, so no two callers of one batch can observe
/// different results.
pub proof fn lemma_batch_atomicity(batch: Seq<MintRequest>, outcome: Result<String, String>)
    ensures
        spec_complete(batch, outcome).len() == batch.len(),
        forall|i: int|
            0 <= i < batch.len() ==> spec_complete(batch, outcome)[i] == (
                batch[i].slot,
                outcome,
            ),
        forall|i: int, j: int|
            0 <= i < batch.len() && 0 <= j < batch.len() ==> spec_complete(batch, outcome)[i].1
                == spec_complete(batch, outcome)[j].1,
{
}

/// What a waiting caller observes on its result slot.
pub enum WaitEvent {
    Resolved(Result<String, String>),
    Closed,
    TimedOut,
}

/// The event a caller observes, given when — if ever — the flush worker
/// completed its slot, and the caller's wait budget: a slot completed within
/// the budget delivers its outcome; one completed later, or never, is
/// observed as a timeout.
pub open spec fn spec_wait_event(
    resolved_at: Option<u64>,
    budget: u64,
    outcome: Result<String, String>,
) -> WaitEvent {
    match resolved_at {
        Some(t) => if t <= budget {
            WaitEvent::Resolved(outcome)
        } else {
            WaitEvent::TimedOut
        },
        None => WaitEvent::TimedOut,
    }
}

/// Maps the observed wait event to the caller's result. A timed-out wait is
/// a timeout error distinct from any submission failure; the batch may still
/// settle later with no further effect on this caller.
pub fn caller_outcome(event: WaitEvent) -> (r: Result<String, String>)
    ensures
        (event matches WaitEvent::Resolved(o) ==> r == o),
        event is Closed ==> (r matches Err(e) && e@ == "Channel closed"@),
        event is TimedOut ==> (r matches Err(e) && e@ == "Timeout waiting for batch processing"@),
{
    match event {
        WaitEvent::Resolved(o) => o,
        WaitEvent::Closed => Err("Channel closed".to_owned()),
        WaitEvent::TimedOut => Err("Timeout waiting for batch processing".to_owned()),
    }
}

/// The first position at or after `i` where the request token ends: a
/// space, a line break, or the end of the text.
pub open spec fn token_end(s: Seq<u8>, i: int) -> int
    decreases s.len() - i,
{
    if i >= s.len() || s[i] == 32 || s[i] == 10 {
        i
    } else {
        token_end(s, i + 1)
    }
}

/// The first position at or after `i` holding a `/`, or the end of `t`.
pub open spec fn slash_pos(t: Seq<u8>, i: int) -> int
    decreases t.len() - i,
{
    if i >= t.len() || t[i] == 47 {
        i
    } else {
        slash_pos(t, i + 1)
    }
}

/// Drops the carriage return a line break leaves at a token's end.
pub open spec fn strip_cr(t: Seq<u8>) -> Seq<u8> {
    if t.len() > 0 && t.last() == 13 {
        t.drop_last()
    } else {
        t
    }
}

/// Whether the raw request opens with `GET /mint/`.
pub open spec fn is_mint_request(r: Seq<u8>) -> bool {
    r.len() >= 10 && r.take(10) == seq![71u8, 69u8, 84u8, 32u8, 47u8, 109u8, 105u8, 110u8, 116u8, 47u8]
}

/// The request-path remainder after `/mint/`: the bytes up to the end of
/// the path token, without a trailing carriage return.
pub open spec fn mint_path_rest(r: Seq<u8>) -> Seq<u8> {
    strip_cr(r.subrange(10, token_end(r, 10)))
}

/// Whether `t` splits on `/` into exactly two parts.
pub open spec fn two_slash_parts(t: Seq<u8>) -> bool {
    slash_pos(t, 0) < t.len() && slash_pos(t, slash_pos(t, 0) + 1) == t.len()
}

/// What a raw mint request asks for, as `handle_client` decides it.
#[derive(Debug)]
pub enum MintHttpRequest {
    /// `GET /mint/<address>/<amount>` with a well-formed amount.
    Mint { address: Vec<u8>, amount: u64 },
    /// The amount field is not a decimal `u64`.
    InvalidAmount,
    /// The path after `/mint/` does not split into address and amount.
    InvalidPath,
    /// Any other request.
    NotFound,
}

fn find_token_end(s: &[u8], from: usize) -> (e: usize)
    requires
        from <= s@.len(),
    ensures
        e == token_end(s@, from as int),
        from <= e <= s@.len(),
{
    let len = s.len();
    let mut i: usize = from;
    while i < len && s[i] != 32 && s[i] != 10
        invariant
            from <= i <= len,
            len == s@.len(),
            token_end(s@, from as int) == token_end(s@, i as int),
        decreases len - i,
    {
        i = i + 1;
    }
    i
}

fn find_slash(t: &[u8], from: usize) -> (e: usize)
    requires
        from <= t@.len(),
    ensures
        e == slash_pos(t@, from as int),
        from <= e <= t@.len(),
{
    let len = t.len();
    let mut i: usize = from;
    while i < len && t[i] != 47
        invariant
            from <= i <= len,
            len == t@.len(),
            slash_pos(t@, from as int) == slash_pos(t@, i as int),
        decreases len - i,
    {
        i = i + 1;
    }
    i
}

/// Decides what a raw mint-server request asks for: requests not opening
/// with `GET /mint/` are unknown; the path after `/mint/` must split into
/// exactly an address and an amount; the amount must be a decimal `u64`.
/// Nothing is enqueued here — the caller enqueues the returned pair.
pub fn parse_mint_request(request: &[u8]) -> (r: MintHttpRequest)
    ensures
        !is_mint_request(request@) ==> r is NotFound,
        is_mint_request(request@) && !two_slash_parts(mint_path_rest(request@)) ==> r
            is InvalidPath,
        is_mint_request(request@) && two_slash_parts(mint_path_rest(request@)) ==> {
            let rest = mint_path_rest(request@);
            let p = slash_pos(rest, 0);
            match crate::codec::spec_parse_u64(rest.skip(p + 1)) {
                Some(v) => r matches MintHttpRequest::Mint { address, amount } && address@
                    == rest.take(p) && amount == v,
                None => r is InvalidAmount,
            }
        },
{
    let len = request.len();
    if len < 10 || request[0] != 71 || request[1] != 69 || request[2] != 84
        || request[3] != 32 || request[4] != 47 || request[5] != 109 || request[6] != 105
        || request[7] != 110 || request[8] != 116 || request[9] != 47 {
        proof {
            if request@.len() >= 10 {
                assert(request@.take(10)[0] == request@[0]);
                assert(request@.take(10)[1] == request@[1]);
                assert(request@.take(10)[2] == request@[2]);
                assert(request@.take(10)[3] == request@[3]);
                assert(request@.take(10)[4] == request@[4]);
                assert(request@.take(10)[5] == request@[5]);
                assert(request@.take(10)[6] == request@[6]);
                assert(request@.take(10)[7] == request@[7]);
                assert(request@.take(10)[8] == request@[8]);
                assert(request@.take(10)[9] == request@[9]);
            }
        }
        return MintHttpRequest::NotFound;
    }
    proof {
        assert(request@.take(10) =~= seq![
            71u8, 69u8, 84u8, 32u8, 47u8, 109u8, 105u8, 110u8, 116u8, 47u8,
        ]);
    }
    let e = find_token_end(request, 10);
    let mut rest: Vec<u8> = Vec::new();
    let mut i: usize = 10;
    while i < e
        invariant
            10 <= i <= e <= request@.len(),
            rest@ =~= request@.subrange(10, i as int),
        decreases e - i,
    {
        rest.push(request[i]);
        i = i + 1;
    }
    if rest.len() > 0 && rest[rest.len() - 1] == 13 {
        rest.pop();
    }
    proof {
        assert(rest@ =~= mint_path_rest(request@));
    }
    let p = find_slash(rest.as_slice(), 0);
    if p == rest.len() {
        return MintHttpRequest::InvalidPath;
    }
    let q = find_slash(rest.as_slice(), p + 1);
    if q != rest.len() {
        return MintHttpRequest::InvalidPath;
    }
    let mut address: Vec<u8> = Vec::new();
    let mut j: usize = 0;
    while j < p
        invariant
            0 <= j <= p < rest@.len(),
            address@ =~= rest@.subrange(0, j as int),
        decreases p - j,
    {
        address.push(rest[j]);
        j = j + 1;
    }
    let mut amount_text: Vec<u8> = Vec::new();
    let mut k: usize = p + 1;
    let m = rest.len();
    while k < m
        invariant
            p + 1 <= k <= m,
            m == rest@.len(),
            amount_text@ =~= rest@.subrange(p + 1, k as int),
        decreases m - k,
    {
        amount_text.push(rest[k]);
        k = k + 1;
    }
    proof {
        assert(address@ =~= mint_path_rest(request@).take(p as int));
        assert(amount_text@ =~= mint_path_rest(request@).skip(p + 1));
    }
    match crate::codec::parse_u64(amount_text.as_slice()) {
        Some(amount) => MintHttpRequest::Mint { address, amount },
        None => MintHttpRequest::InvalidAmount,
    }
}

/// Timeout independence: a caller whose slot is not completed within its
/// budget observes the timed-out event whatever outcome the batch later
/// settles on, and the deliveries fanned out to the batch are a function of
/// the batch and its outcome alone, so one caller's departure changes no
/// other caller's result.
pub proof fn lemma_timeout_independence(
    batch: Seq<MintRequest>,
    outcome: Result<String, String>,
    resolved_at: Option<u64>,
    budget: u64,
)
    requires
        match resolved_at {
            Some(t) => t > budget,
            None => true,
        },
    ensures
        spec_wait_event(resolved_at, budget, outcome) is TimedOut,
        forall|i: int|
            0 <= i < batch.len() ==> spec_complete(batch, outcome)[i] == (
                batch[i].slot,
                outcome,
            ),
{
}

} // verus!
