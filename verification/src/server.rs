//! The accounts table and the operator-facing statistics.
//!
//! `Accounts` models the `ACCOUNTS` table: the tracked wallet addresses, one
//! row each, unique. Addresses are validated before they are stored, and
//! stored with insert-or-ignore semantics. The statistics the query layer
//! serves are counted here against the history model.

use vstd::prelude::*;

use crate::tx_worker::History;
use crate::tx_worker::count_since;
use crate::tx_worker::spec_hour_cutoff;
use crate::utils::bech32_account_of;
use crate::utils::validate_address;

verus! {

/// What an operator-facing handler can reject a request with.
#[derive(Clone, Copy, PartialEq, Eq, Structural, Debug)]
pub enum ApiError {
    /// The request's address is not a well-formed network address.
    BadRequest,
    /// The store failed; raised by the runtime around the library.
    Internal,
}

/// Whether some stored wallet row holds the address `w`.
pub open spec fn has_wallet(ws: Seq<String>, w: Seq<char>) -> bool {
    exists|i: int| 0 <= i < ws.len() && ws[i]@ == w
}

/// The model of the `ACCOUNTS` table: the stored wallet addresses in
/// insertion order.
pub struct Accounts {
    pub wallets: Vec<String>,
}

impl Accounts {
    /// The table's standing invariant: `wallet_address` is unique.
    pub open spec fn wf(&self) -> bool {
        forall|i: int, j: int|
            0 <= i < j < self.wallets@.len() ==> self.wallets@[i]@ != self.wallets@[j]@
    }

    pub fn new() -> (a: Accounts)
        ensures
            a.wallets@ == Seq::<String>::empty(),
            a.wf(),
    {
        Accounts { wallets: Vec::new() }
    }

    /// Whether this address is already stored.
    pub fn contains_wallet(&self, address: &String) -> (b: bool)
        ensures
            b == has_wallet(self.wallets@, address@),
    {
        let n = self.wallets.len();
        let mut i: usize = 0;
        while i < n
            invariant
                0 <= i <= n,
                n == self.wallets@.len(),
                forall|k: int| 0 <= k < i ==> self.wallets@[k]@ != address@,
            decreases n - i,
        {
            if self.wallets[i] == *address {
                return true;
            }
            i = i + 1;
        }
        false
    }
}

/// Stores a wallet address for tracking, unless it is already there: an
/// address that is not a well-formed network address is rejected; a valid
/// one is appended exactly when no row already holds it.
pub fn add_address_if_not_there(accounts: &mut Accounts, address: String) -> (r: Result<
    (),
    ApiError,
>)
    requires
        old(accounts).wf(),
    ensures
        final(accounts).wf(),
        bech32_account_of(address@) is None ==> r == Err::<(), ApiError>(ApiError::BadRequest)
            && final(accounts).wallets@ == old(accounts).wallets@,
        bech32_account_of(address@) is Some ==> {
            &&& r is Ok
            &&& has_wallet(old(accounts).wallets@, address@) ==> final(accounts).wallets@ == old(
                accounts,
            ).wallets@
            &&& !has_wallet(old(accounts).wallets@, address@) ==> final(accounts).wallets@ == old(
                accounts,
            ).wallets@.push(address)
        },
{
    if !validate_address(address.as_str()) {
        return Err(ApiError::BadRequest);
    }
    let present = accounts.contains_wallet(&address);
    if !present {
        proof {
            assert(forall|k: int|
                0 <= k < accounts.wallets@.len() ==> accounts.wallets@[k]@ != address@);
        }
        accounts.wallets.push(address);
    }
    Ok(())
}

/// The first position at or after `i` holding a comma, or the end of `s`.
pub open spec fn comma_pos(s: Seq<u8>, i: int) -> int
    decreases s.len() - i,
{
    if i >= s.len() || s[i] == 44 {
        i
    } else {
        comma_pos(s, i + 1)
    }
}

/// A comma search never moves backwards and never leaves the text.
proof fn lemma_comma_pos_bounds(s: Seq<u8>, i: int)
    requires
        0 <= i <= s.len(),
    ensures
        i <= comma_pos(s, i) <= s.len(),
    decreases s.len() - i,
{
    if !(i >= s.len() || s[i] == 44) {
        lemma_comma_pos_bounds(s, i + 1);
    }
}

/// The comma-separated segments of `s` from position `i` on, untrimmed,
/// empty segments kept — as `str::split(',')` yields them.
pub open spec fn split_commas_from(s: Seq<u8>, i: int) -> Seq<Seq<u8>>
    decreases s.len() - i,
    via split_commas_from_decreases
{
    let p = comma_pos(s, i);
    if i < 0 || i > s.len() {
        Seq::empty()
    } else if p >= s.len() {
        seq![s.subrange(i, s.len() as int)]
    } else {
        seq![s.subrange(i, p)] + split_commas_from(s, p + 1)
    }
}

#[via_fn]
proof fn split_commas_from_decreases(s: Seq<u8>, i: int) {
    if 0 <= i <= s.len() {
        lemma_comma_pos_bounds(s, i);
    }
}

/// The allowed-origin configuration: `*` allows every origin; anything else
/// is a comma-separated list of origins, each trimmed.
pub open spec fn spec_cors_origins(s: Seq<u8>) -> Option<Seq<Seq<u8>>> {
    if s == seq![42u8] {
        None
    } else {
        Some(split_commas_from(s, 0).map_values(|part: Seq<u8>| crate::codec::trim_ws(part)))
    }
}

fn find_comma(s: &[u8], from: usize) -> (e: usize)
    requires
        from <= s@.len(),
    ensures
        e == comma_pos(s@, from as int),
        from <= e <= s@.len(),
{
    let len = s.len();
    let mut i: usize = from;
    while i < len && s[i] != 44
        invariant
            from <= i <= len,
            len == s@.len(),
            comma_pos(s@, from as int) == comma_pos(s@, i as int),
        decreases len - i,
    {
        i = i + 1;
    }
    i
}

/// Parses the allowed-origin configuration: `None` where every origin is
/// allowed (the value is exactly `*`), otherwise the configured origins,
/// split on commas and trimmed, in order.
pub fn cors_origins(s: &[u8]) -> (r: Option<Vec<Vec<u8>>>)
    ensures
        match r {
            None => s@ == seq![42u8],
            Some(v) => {
                &&& s@ != seq![42u8]
                &&& v@.len() == split_commas_from(s@, 0).len()
                &&& forall|k: int|
                    0 <= k < v@.len() ==> #[trigger] v@[k]@ == crate::codec::trim_ws(
                        split_commas_from(s@, 0)[k],
                    )
            },
        },
{
    let len = s.len();
    if len == 1 && s[0] == 42 {
        proof {
            assert(s@ =~= seq![42u8]);
        }
        return None;
    }
    proof {
        assert(s@ != seq![42u8]);
    }
    let mut parts: Vec<Vec<u8>> = Vec::new();
    let ghost mut raw: Seq<Seq<u8>> = Seq::empty();
    let mut start: usize = 0;
    loop
        invariant_except_break
            split_commas_from(s@, 0) =~= raw + split_commas_from(s@, start as int),
        invariant
            start <= len,
            len == s@.len(),
            parts@.len() == raw.len(),
            forall|k: int|
                0 <= k < raw.len() ==> #[trigger] parts@[k]@ == crate::codec::trim_ws(raw[k]),
        ensures
            parts@.len() == split_commas_from(s@, 0).len(),
            forall|k: int|
                0 <= k < parts@.len() ==> #[trigger] parts@[k]@ == crate::codec::trim_ws(
                    split_commas_from(s@, 0)[k],
                ),
        decreases len - start + 1,
    {
        let p = find_comma(s, start);
        let mut seg: Vec<u8> = Vec::new();
        let mut j: usize = start;
        while j < p
            invariant
                start <= j <= p <= len,
                len == s@.len(),
                seg@ =~= s@.subrange(start as int, j as int),
            decreases p - j,
        {
            seg.push(s[j]);
            j = j + 1;
        }
        proof {
            assert(seg@ =~= s@.subrange(start as int, p as int));
        }
        let trimmed = crate::codec::trim_bytes(seg.as_slice());
        parts.push(trimmed);
        proof {
            raw = raw.push(s@.subrange(start as int, p as int));
        }
        if p == len {
            proof {
                assert(split_commas_from(s@, start as int) =~= seq![
                    s@.subrange(start as int, len as int),
                ]);
                assert(split_commas_from(s@, 0) =~= raw);
            }
            break;
        }
        proof {
            assert(split_commas_from(s@, start as int) =~= seq![
                s@.subrange(start as int, p as int),
            ] + split_commas_from(s@, p + 1));
        }
        start = p + 1;
    }
    Some(parts)
}

/// How many of `rows[0..i]` carry the kind `kind`.
pub open spec fn count_kind(
    rows: Seq<crate::tx_worker::Transaction>,
    kind: Seq<char>,
    i: int,
) -> nat
    decreases i,
{
    if i <= 0 {
        0
    } else {
        count_kind(rows, kind, i - 1) + (if rows[i - 1].tx_kind@ == kind {
            1nat
        } else {
            0nat
        })
    }
}

/// Rows of two different kinds never overlap, so the two counts fit within
/// the row count together.
proof fn lemma_count_kind_disjoint(
    rows: Seq<crate::tx_worker::Transaction>,
    k1: Seq<char>,
    k2: Seq<char>,
    i: int,
)
    requires
        k1 != k2,
        i <= rows.len(),
    ensures
        count_kind(rows, k1, i) + count_kind(rows, k2, i) <= (if i <= 0 {
            0
        } else {
            i
        }),
    decreases i,
{
    if i > 0 {
        lemma_count_kind_disjoint(rows, k1, k2, i - 1);
    }
}

/// The operator dashboard's counters.
pub struct Stats {
    pub total_transactions: u32,
    pub transactions_in_last_hour: u32,
    pub wallets_created: u32,
    pub notes_created: u32,
    pub faucet_request: u32,
}

/// Computes the dashboard counters: all history rows, those of the last
/// hour before `now`, the stored wallets, the faucet requests, and the
/// notes created — one per send and one per faucet request.
pub fn get_stats(store: &History, accounts: &Accounts, now: u32) -> (r: Result<Stats, ApiError>)
    requires
        store.rows@.len() <= u32::MAX,
        accounts.wallets@.len() <= u32::MAX,
    ensures
        r matches Ok(s) && {
            let rows = store.rows@;
            let n = rows.len() as int;
            &&& s.total_transactions == rows.len()
            &&& s.wallets_created == accounts.wallets@.len()
            &&& s.faucet_request == count_kind(rows, "faucet_request"@, n)
            &&& s.notes_created == count_kind(rows, "send"@, n) + count_kind(
                rows,
                "faucet_request"@,
                n,
            )
            &&& s.transactions_in_last_hour == count_since(rows, spec_hour_cutoff(now), n)
        },
{
    let faucet_kind: String = "faucet_request".to_owned();
    let send_kind: String = "send".to_owned();
    let cutoff: u32 = if now >= 3600 {
        now - 3600
    } else {
        0
    };
    let n = store.rows.len();
    let mut faucet_count: u32 = 0;
    let mut send_count: u32 = 0;
    let mut recent_count: u32 = 0;
    let mut i: usize = 0;
    while i < n
        invariant
            0 <= i <= n,
            n == store.rows@.len() <= u32::MAX,
            faucet_kind@ == "faucet_request"@,
            send_kind@ == "send"@,
            cutoff == spec_hour_cutoff(now),
            faucet_count == count_kind(store.rows@, "faucet_request"@, i as int),
            send_count == count_kind(store.rows@, "send"@, i as int),
            recent_count == count_since(store.rows@, cutoff, i as int),
            faucet_count <= i,
            send_count <= i,
            recent_count <= i,
        decreases n - i,
    {
        if store.rows[i].tx_kind == faucet_kind {
            faucet_count = faucet_count + 1;
        }
        if store.rows[i].tx_kind == send_kind {
            send_count = send_count + 1;
        }
        if store.rows[i].timestamp >= cutoff {
            recent_count = recent_count + 1;
        }
        i = i + 1;
    }
    proof {
        assert("send"@.len() == 4) by {
            reveal_strlit("send");
        }
        assert("faucet_request"@.len() == 14) by {
            reveal_strlit("faucet_request");
        }
        assert("send"@ != "faucet_request"@);
        lemma_count_kind_disjoint(store.rows@, "send"@, "faucet_request"@, n as int);
    }
    let notes_created = send_count + faucet_count;
    Ok(
        Stats {
            total_transactions: n as u32,
            transactions_in_last_hour: recent_count,
            wallets_created: accounts.wallets.len() as u32,
            notes_created,
            faucet_request: faucet_count,
        },
    )
}

} // verus!
