use vstd::prelude::*;

use crate::handlers::{
    decide_transaction, fits_i64, new_balance, refusal, valid_description, validate_request,
};
use crate::models::{
    ClientData, ClientId, ErrorResponse, ExtractData, ExtractResponse, Timestamp, TransactionData,
    TransactionRequest, TransactionResponse,
};

verus! {

/// How many transactions an extract lists at most.
pub const EXTRACT_LEN: usize = 10;

/// One record of the transaction log: a committed transaction and its owner.
#[derive(Debug, PartialEq, Eq)]
pub struct LogEntry {
    pub client_id: ClientId,
    pub transaction: TransactionData,
}

/// Whether some account has this id.
pub open spec fn has_account(accounts: Seq<ClientData>, id: ClientId) -> bool {
    exists|i: int| 0 <= i < accounts.len() && accounts[i].id == id
}

/// The position of the account with this id (meaningful when there is one).
pub open spec fn account_index(accounts: Seq<ClientData>, id: ClientId) -> int {
    choose|i: int| 0 <= i < accounts.len() && accounts[i].id == id
}

/// No two accounts share an id.
pub open spec fn ids_unique(accounts: Seq<ClientData>) -> bool {
    forall|a: int, b: int|
        #![trigger accounts[a], accounts[b]]
        0 <= a < accounts.len() && 0 <= b < accounts.len() && accounts[a].id == accounts[b].id
            ==> a == b
}

/// The transactions of one client, in the order they were committed.
pub open spec fn history(log: Seq<LogEntry>, id: ClientId) -> Seq<TransactionData>
    decreases log.len(),
{
    if log.len() == 0 {
        Seq::empty()
    } else {
        let earlier = history(log.drop_last(), id);
        if log.last().client_id == id {
            earlier.push(log.last().transaction)
        } else {
            earlier
        }
    }
}

/// The sum of the values of the credits in `h`.
pub open spec fn credit_total(h: Seq<TransactionData>) -> int
    decreases h.len(),
{
    if h.len() == 0 {
        0
    } else {
        credit_total(h.drop_last()) + if h.last().transaction_type is Credit {
            h.last().value as int
        } else {
            0
        }
    }
}

/// The sum of the values of the debits in `h`.
pub open spec fn debit_total(h: Seq<TransactionData>) -> int
    decreases h.len(),
{
    if h.len() == 0 {
        0
    } else {
        debit_total(h.drop_last()) + if h.last().transaction_type is Debit {
            h.last().value as int
        } else {
            0
        }
    }
}

/// The last `n` transactions of `h` (fewer if `h` is shorter), newest first.
pub open spec fn newest_first(h: Seq<TransactionData>, n: nat) -> Seq<TransactionData> {
    let m = if h.len() < n {
        h.len()
    } else {
        n
    };
    Seq::new(m, |i: int| h[h.len() - 1 - i])
}

/// Every account is within its limit.
pub open spec fn all_within_limit(accounts: Seq<ClientData>) -> bool {
    forall|i: int| 0 <= i < accounts.len() ==> (#[trigger] accounts[i]).within_limit()
}

/// Every account opened at zero, and its balance since is the sum of its
/// credits minus the sum of its debits.
pub open spec fn reconciled(accounts: Seq<ClientData>, log: Seq<LogEntry>) -> bool {
    forall|i: int|
        0 <= i < accounts.len() ==> (#[trigger] accounts[i]).balance == credit_total(
            history(log, accounts[i].id),
        ) - debit_total(history(log, accounts[i].id))
}

/// A logged record moves a positive value under a description of one to
/// ten characters.
pub open spec fn record_well_formed(t: TransactionData) -> bool {
    valid_description(t.description@) && t.value > 0
}

/// The log's dates never decrease from one record to the next.
pub open spec fn dates_ordered(log: Seq<LogEntry>) -> bool {
    forall|a: int, b: int|
        0 <= a < b < log.len() ==> log[a].transaction.date <= log[b].transaction.date
}

/// The date under which a transaction submitted at `now` is committed: never
/// earlier than the last record of the log.
pub open spec fn commit_date(log: Seq<LogEntry>, now: Timestamp) -> Timestamp {
    if log.len() > 0 && log.last().transaction.date > now {
        log.last().transaction.date
    } else {
        now
    }
}

/// The date under which a transaction submitted at `now` is committed, when
/// the last record of the log is dated `last`: never earlier than it.
pub fn commit_date_after(last: Option<Timestamp>, now: Timestamp) -> (r: Timestamp)
    ensures
        r == match last {
            Some(d) => if d > now {
                d
            } else {
                now
            },
            None => now,
        },
{
    match last {
        Some(d) => if d > now {
            d
        } else {
            now
        },
        None => now,
    }
}

/// Appending a record extends the history of its own client only.
proof fn lemma_history_push(log: Seq<LogEntry>, e: LogEntry, id: ClientId)
    ensures
        history(log.push(e), id) == if e.client_id == id {
            history(log, id).push(e.transaction)
        } else {
            history(log, id)
        },
{
    assert(log.push(e).drop_last() =~= log);
}

/// A client that owns no record of the log has an empty history.
proof fn lemma_history_absent(log: Seq<LogEntry>, id: ClientId)
    requires
        forall|k: int| 0 <= k < log.len() ==> (#[trigger] log[k]).client_id != id,
    ensures
        history(log, id) == Seq::<TransactionData>::empty(),
    decreases log.len(),
{
    if log.len() > 0 {
        lemma_history_absent(log.drop_last(), id);
    }
}

/// The totals grow by the record appended to a history.
proof fn lemma_totals_push(h: Seq<TransactionData>, t: TransactionData)
    ensures
        credit_total(h.push(t)) - debit_total(h.push(t)) == credit_total(h) - debit_total(h)
            + t.signed_value(),
{
    assert(h.push(t).drop_last() =~= h);
}

/// Every record of a client's history is well formed when every record of
/// the log is.
proof fn lemma_history_records(log: Seq<LogEntry>, id: ClientId)
    requires
        forall|k: int| 0 <= k < log.len() ==> record_well_formed(#[trigger] log[k].transaction),
    ensures
        forall|j: int|
            0 <= j < history(log, id).len() ==> record_well_formed(#[trigger] history(log, id)[j]),
    decreases log.len(),
{
    if log.len() > 0 {
        let prev = log.drop_last();
        assert forall|k: int| 0 <= k < prev.len() implies record_well_formed(
            #[trigger] prev[k].transaction,
        ) by {
            assert(prev[k] == log[k]);
        }
        lemma_history_records(prev, id);
        assert(record_well_formed(log[log.len() - 1].transaction));
        let h = history(log, id);
        let hp = history(prev, id);
        assert forall|j: int| 0 <= j < h.len() implies record_well_formed(#[trigger] h[j]) by {
            if j < hp.len() {
                assert(h[j] == hp[j]);
            }
        }
    }
}

/// The accounts after provisioning `data` in order: an id not yet present
/// opens an account with that limit and a zero balance; an id already
/// present is left as it is.
pub open spec fn seeded(accounts: Seq<ClientData>, data: Seq<(u32, u32)>) -> Seq<ClientData>
    decreases data.len(),
{
    if data.len() == 0 {
        accounts
    } else {
        let prev = seeded(accounts, data.drop_last());
        let id = data.last().0;
        if has_account(prev, id) {
            prev
        } else {
            prev.push(ClientData { id, limit: data.last().1 as u64, balance: 0 })
        }
    }
}

/// A client's history keeps the log's date order, and no record of it is
/// dated after the log's last record.
proof fn lemma_history_dates(log: Seq<LogEntry>, id: ClientId)
    requires
        dates_ordered(log),
    ensures
        forall|a: int, b: int|
            0 <= a < b < history(log, id).len() ==> history(log, id)[a].date <= history(
                log,
                id,
            )[b].date,
        log.len() > 0 ==> forall|a: int|
            0 <= a < history(log, id).len() ==> history(log, id)[a].date
                <= log.last().transaction.date,
    decreases log.len(),
{
    if log.len() > 0 {
        let prev = log.drop_last();
        assert(dates_ordered(prev)) by {
            assert forall|a: int, b: int| 0 <= a < b < prev.len() implies prev[a].transaction.date
                <= prev[b].transaction.date by {
                assert(prev[a] == log[a] && prev[b] == log[b]);
            }
        }
        lemma_history_dates(prev, id);
        if prev.len() > 0 {
            assert(prev.last() == log[log.len() - 2]);
        }
    }
}

/// An account store and a transaction log, kept consistent with each other:
/// a transaction is appended to the log exactly when its account's balance
/// is updated.
pub struct Ledger {
    clients: Vec<ClientData>,
    log: Vec<LogEntry>,
}

impl Ledger {
    /// The accounts, in the order they were opened.
    pub closed spec fn accounts(&self) -> Seq<ClientData> {
        self.clients@
    }

    /// The transaction log, in commit order.
    pub closed spec fn entries(&self) -> Seq<LogEntry> {
        self.log@
    }

    /// The account with this id, if there is one.
    pub open spec fn client(&self, id: ClientId) -> Option<ClientData> {
        if has_account(self.accounts(), id) {
            Some(self.accounts()[account_index(self.accounts(), id)])
        } else {
            None
        }
    }

    /// The ledger's invariant.
    pub open spec fn wf(&self) -> bool {
        &&& ids_unique(self.accounts())
        &&& all_within_limit(self.accounts())
        &&& reconciled(self.accounts(), self.entries())
        &&& dates_ordered(self.entries())
        &&& forall|k: int|
            0 <= k < self.entries().len() ==> has_account(
                self.accounts(),
                (#[trigger] self.entries()[k]).client_id,
            ) && record_well_formed(self.entries()[k].transaction)
    }

    /// A ledger with no account and an empty log.
    pub fn new() -> (r: Ledger)
        ensures
            r.wf(),
            r.accounts() == Seq::<ClientData>::empty(),
            r.entries() == Seq::<LogEntry>::empty(),
    {
        Ledger { clients: Vec::new(), log: Vec::new() }
    }

    /// Where the account with this id stands in the store.
    fn position(&self, client_id: ClientId) -> (r: Option<usize>)
        requires
            self.wf(),
        ensures
            match r {
                Some(i) => {
                    &&& i < self.accounts().len()
                    &&& has_account(self.accounts(), client_id)
                    &&& account_index(self.accounts(), client_id) == i
                    &&& self.accounts()[i as int].id == client_id
                },
                None => !has_account(self.accounts(), client_id),
            },
    {
        let mut i: usize = 0;
        while i < self.clients.len()
            invariant
                self.wf(),
                i <= self.clients@.len(),
                forall|j: int| 0 <= j < i ==> self.clients@[j].id != client_id,
            decreases self.clients@.len() - i,
        {
            if self.clients[i].id == client_id {
                proof {
                    let k = account_index(self.accounts(), client_id);
                    assert(has_account(self.accounts(), client_id));
                    assert(self.accounts()[k].id == client_id);
                    assert(self.accounts()[i as int].id == client_id);
                    assert(k == i as int);
                }
                return Some(i);
            }
            i += 1;
        }
        None
    }

    /// The account with this id.
    pub fn get_client(&self, client_id: ClientId) -> (r: Result<ClientData, ErrorResponse>)
        requires
            self.wf(),
        ensures
            match self.client(client_id) {
                Some(c) => r == Ok::<ClientData, ErrorResponse>(c),
                None => r == Err::<ClientData, ErrorResponse>(ErrorResponse::ClientNotFound(client_id)),
            },
    {
        match self.position(client_id) {
            Some(i) => Ok(self.clients[i]),
            None => Err(ErrorResponse::ClientNotFound(client_id)),
        }
    }

    /// Applies a transaction to the account `client_id`, committing it under
    /// `commit_date(now)`. The request's shape is checked before the account
    /// is looked up; a refused transaction leaves the ledger as it was. A
    /// balance or a value beyond the range of what is stored is refused as a
    /// storage failure.
    pub fn add_transaction(
        &mut self,
        client_id: ClientId,
        request: TransactionRequest,
        now: Timestamp,
    ) -> (r: Result<TransactionResponse, ErrorResponse>)
        requires
            old(self).wf(),
        ensures
            final(self).wf(),
            ({
                let refused = refusal(client_id, request, old(self).client(client_id));
                let c = old(self).client(client_id)->Some_0;
                let nb = new_balance(request, c);
                let stored = fits_i64(nb) && request.value <= i64::MAX;
                &&& refused is Some ==> r == Err::<TransactionResponse, ErrorResponse>(
                    refused->Some_0,
                ) && *final(self) == *old(self)
                &&& refused is None && !stored ==> r is Err && r->Err_0 is Transient
                    && *final(self) == *old(self)
                &&& refused is None && stored ==> {
                    &&& r == Ok::<TransactionResponse, ErrorResponse>(
                        TransactionResponse { limit: c.limit, balance: nb as i64 },
                    )
                    &&& final(self).accounts() == old(self).accounts().update(
                        account_index(old(self).accounts(), client_id),
                        ClientData { id: c.id, limit: c.limit, balance: nb as i64 },
                    )
                    &&& final(self).entries() == old(self).entries().push(
                        LogEntry {
                            client_id,
                            transaction: TransactionData {
                                value: request.value as i64,
                                transaction_type: request.transaction_type,
                                description: request.description,
                                date: commit_date(old(self).entries(), now),
                            },
                        },
                    )
                }
            }),
    {
        match validate_request(&request) {
            Err(e) => {
                return Err(e);
            },
            Ok(()) => {},
        }
        let i = match self.position(client_id) {
            Some(i) => i,
            None => {
                return Err(ErrorResponse::ClientNotFound(client_id));
            },
        };
        let client = self.clients[i];
        let new_balance = match decide_transaction(client_id, &request, Some(client)) {
            Ok(response) => response.balance,
            Err(e) => {
                return Err(e);
            },
        };
        if request.value > i64::MAX as u64 {
            return Err(ErrorResponse::Transient("transaction value out of range".to_owned()));
        }
        let n = self.log.len();
        let last = if n > 0 {
            Some(self.log[n - 1].transaction.date)
        } else {
            None
        };
        let date = commit_date_after(last, now);
        let ghost old_accounts = self.accounts();
        let ghost old_log = self.entries();
        let entry = LogEntry {
            client_id,
            transaction: TransactionData {
                value: request.value as i64,
                transaction_type: request.transaction_type,
                description: request.description,
                date,
            },
        };
        let ghost e = entry;
        self.log.push(entry);
        self.clients.set(i, ClientData { id: client.id, limit: client.limit, balance: new_balance });
        proof {
            let accounts = self.accounts();
            let log = self.entries();
            assert(log == old_log.push(e));
            assert forall|a: int| 0 <= a < accounts.len() implies accounts[a].id == old_accounts[a].id by {}
            assert(ids_unique(accounts)) by {
                assert forall|a: int, b: int|
                    0 <= a < accounts.len() && 0 <= b < accounts.len() && accounts[a].id == accounts[b].id
                    implies a == b by {
                    assert(old_accounts[a].id == old_accounts[b].id);
                }
            }
            assert(all_within_limit(accounts)) by {
                assert forall|a: int| 0 <= a < accounts.len() implies (#[trigger] accounts[a]).within_limit() by {
                    assert(old_accounts[a].within_limit());
                }
            }
            assert(reconciled(accounts, log)) by {
                assert forall|a: int| 0 <= a < accounts.len() implies (#[trigger] accounts[a]).balance
                    == credit_total(history(log, accounts[a].id)) - debit_total(history(log, accounts[a].id)) by {
                    let id = accounts[a].id;
                    lemma_history_push(old_log, e, id);
                    assert(old_accounts[a].balance == credit_total(history(old_log, id)) - debit_total(history(old_log, id)));
                    if a == i as int {
                        lemma_totals_push(history(old_log, id), e.transaction);
                    } else {
                        assert(old_accounts[i as int].id == client_id);
                        assert(id != client_id);
                    }
                }
            }
            assert(dates_ordered(log)) by {
                assert forall|a: int, b: int| 0 <= a < b < log.len() implies log[a].transaction.date <= log[b].transaction.date by {
                    if b == log.len() - 1 && a < old_log.len() - 1 {
                        assert(old_log[a].transaction.date <= old_log.last().transaction.date);
                    }
                }
            }
            assert forall|k: int| 0 <= k < log.len() implies has_account(accounts, (#[trigger] log[k]).client_id)
                && record_well_formed(log[k].transaction) by {
                if k < old_log.len() {
                    assert(log[k] == old_log[k]);
                    assert(has_account(old_accounts, old_log[k].client_id));
                    let w = choose|w: int| 0 <= w < old_accounts.len() && old_accounts[w].id == old_log[k].client_id;
                    assert(accounts[w].id == log[k].client_id);
                } else {
                    assert(accounts[i as int].id == client_id);
                }
            }
        }
        Ok(TransactionResponse { limit: client.limit, balance: new_balance })
    }

    /// Opens an account for each `(id, limit)` of `data` whose id has none
    /// yet, with a zero balance; existing accounts and the log are kept.
    pub fn seed_data(&mut self, data: &[(u32, u32)])
        requires
            old(self).wf(),
        ensures
            final(self).wf(),
            final(self).accounts() == seeded(old(self).accounts(), data@),
            final(self).entries() == old(self).entries(),
    {
        let ghost start = self.accounts();
        let mut i: usize = 0;
        while i < data.len()
            invariant
                self.wf(),
                i <= data@.len(),
                self.accounts() == seeded(start, data@.take(i as int)),
                self.entries() == old(self).entries(),
            decreases data@.len() - i,
        {
            let (id, limit) = data[i];
            proof {
                assert(data@.take(i + 1).drop_last() =~= data@.take(i as int));
                assert(data@.take(i + 1).last() == data@[i as int]);
            }
            if self.position(id).is_none() {
                let ghost before = self.accounts();
                let c = ClientData { id, limit: limit as u64, balance: 0 };
                self.clients.push(c);
                proof {
                    let accounts = self.accounts();
                    let log = self.entries();
                    assert(accounts == before.push(c));
                    assert(ids_unique(accounts)) by {
                        assert forall|a: int, b: int|
                            0 <= a < accounts.len() && 0 <= b < accounts.len() && accounts[a].id
                                == accounts[b].id implies a == b by {
                            if a < before.len() && b < before.len() {
                                assert(before[a].id == before[b].id);
                            } else if a < before.len() {
                                assert(before[a].id == id);
                            } else if b < before.len() {
                                assert(before[b].id == id);
                            }
                        }
                    }
                    assert(all_within_limit(accounts)) by {
                        assert forall|a: int| 0 <= a < accounts.len() implies (
                        #[trigger] accounts[a]).within_limit() by {
                            if a < before.len() {
                                assert(before[a].within_limit());
                            }
                        }
                    }
                    assert forall|k: int| 0 <= k < log.len() implies (#[trigger] log[k]).client_id != id by {
                        assert(has_account(before, log[k].client_id));
                    }
                    lemma_history_absent(log, id);
                    assert(reconciled(accounts, log)) by {
                        assert forall|a: int| 0 <= a < accounts.len() implies (
                        #[trigger] accounts[a]).balance == credit_total(history(log, accounts[a].id))
                            - debit_total(history(log, accounts[a].id)) by {
                            if a < before.len() {
                                assert(accounts[a] == before[a]);
                            }
                        }
                    }
                    assert forall|k: int| 0 <= k < log.len() implies has_account(
                        accounts,
                        (#[trigger] log[k]).client_id,
                    ) && record_well_formed(log[k].transaction) by {
                        assert(has_account(before, log[k].client_id));
                        let w = choose|w: int| 0 <= w < before.len() && before[w].id == log[k].client_id;
                        assert(accounts[w].id == log[k].client_id);
                    }
                }
            }
            i += 1;
        }
        proof {
            assert(data@.take(data@.len() as int) =~= data@);
        }
    }

    /// What a client's extract holds: its balance and limit as of `now`, and
    /// its most recent transactions, newest first; or that it has no account.
    pub open spec fn extract_post(
        &self,
        client_id: ClientId,
        now: Timestamp,
        r: Result<ExtractResponse, ErrorResponse>,
    ) -> bool {
        match self.client(client_id) {
            None => r == Err::<ExtractResponse, ErrorResponse>(ErrorResponse::ClientNotFound(client_id)),
            Some(c) => {
                &&& r is Ok
                &&& r->Ok_0.balance == (ExtractData { total: c.balance, date: now, limit: c.limit })
                &&& r->Ok_0.transactions@ == newest_first(
                    history(self.entries(), client_id),
                    EXTRACT_LEN as nat,
                )
            },
        }
    }

    /// The extract of `client_id` as of `now`.
    pub fn get_extract(&self, client_id: ClientId, now: Timestamp) -> (r: Result<
        ExtractResponse,
        ErrorResponse,
    >)
        requires
            self.wf(),
        ensures
            self.extract_post(client_id, now, r),
    {
        let client = match self.get_client(client_id) {
            Ok(c) => c,
            Err(e) => {
                return Err(e);
            },
        };
        let ghost log = self.entries();
        let mut picked: Vec<usize> = Vec::new();
        let mut i: usize = 0;
        while i < self.log.len()
            invariant
                log == self.entries(),
                i <= log.len(),
                picked@.len() == history(log.take(i as int), client_id).len(),
                forall|j: int|
                    0 <= j < picked@.len() ==> #[trigger] picked@[j] < i && log[picked@[j] as int].transaction
                        == history(log.take(i as int), client_id)[j],
            decreases log.len() - i,
        {
            proof {
                assert(log.take(i + 1).drop_last() =~= log.take(i as int));
                assert(log.take(i + 1).last() == log[i as int]);
            }
            if self.log[i].client_id == client_id {
                picked.push(i);
            }
            i += 1;
        }
        proof {
            assert(log.take(log.len() as int) =~= log);
        }
        let ghost h = history(log, client_id);
        let n = picked.len();
        let m = if n < EXTRACT_LEN {
            n
        } else {
            EXTRACT_LEN
        };
        let mut transactions: Vec<TransactionData> = Vec::new();
        let mut k: usize = 0;
        while k < m
            invariant
                log == self.entries(),
                h == history(log, client_id),
                n == picked@.len() == h.len(),
                m <= n,
                k <= m,
                forall|j: int|
                    0 <= j < n ==> #[trigger] picked@[j] < log.len() && log[picked@[j] as int].transaction
                        == h[j],
                transactions@.len() == k,
                forall|j: int| 0 <= j < k ==> transactions@[j] == h[h.len() - 1 - j],
            decreases m - k,
        {
            let p = picked[n - 1 - k];
            proof {
                assert(picked@[n - 1 - k] < log.len());
            }
            transactions.push(self.log[p].transaction.duplicate());
            k += 1;
        }
        proof {
            assert(transactions@ =~= newest_first(h, EXTRACT_LEN as nat));
        }
        Ok(
            ExtractResponse {
                balance: ExtractData { total: client.balance, date: now, limit: client.limit },
                transactions,
            },
        )
    }
}

/// Every account of a well-formed ledger is within its limit: its balance is
/// never below minus its limit.
pub proof fn lemma_balance_within_limit(ledger: &Ledger, client_id: ClientId)
    requires
        ledger.wf(),
        ledger.client(client_id) is Some,
    ensures
        ledger.client(client_id)->Some_0.balance >= -(ledger.client(client_id)->Some_0.limit as int),
{
    let i = account_index(ledger.accounts(), client_id);
    assert(ledger.accounts()[i].within_limit());
}

/// An account's balance is what it opened with, zero, plus the values of its
/// committed credits minus the values of its committed debits.
pub proof fn lemma_balance_reconciles(ledger: &Ledger, client_id: ClientId)
    requires
        ledger.wf(),
        ledger.client(client_id) is Some,
    ensures
        ledger.client(client_id)->Some_0.balance == credit_total(history(ledger.entries(), client_id))
            - debit_total(history(ledger.entries(), client_id)),
{
    let i = account_index(ledger.accounts(), client_id);
    assert(ledger.accounts()[i].balance == credit_total(history(ledger.entries(), ledger.accounts()[i].id))
        - debit_total(history(ledger.entries(), ledger.accounts()[i].id)));
}

/// Reading an extract twice from the same ledger, with nothing applied in
/// between and the same reading time, gives the same outcome: the same
/// error, or the same balance and the same transactions.
pub proof fn lemma_extract_repeatable(
    ledger: &Ledger,
    client_id: ClientId,
    now: Timestamp,
    first: Result<ExtractResponse, ErrorResponse>,
    second: Result<ExtractResponse, ErrorResponse>,
)
    requires
        ledger.extract_post(client_id, now, first),
        ledger.extract_post(client_id, now, second),
    ensures
        first is Ok <==> second is Ok,
        first is Err ==> first == second,
        first is Ok ==> first->Ok_0.balance == second->Ok_0.balance
            && first->Ok_0.transactions@ == second->Ok_0.transactions@,
{
}

/// Every transaction an extract lists moves a positive value under a
/// description of one to ten characters.
pub proof fn lemma_extract_records_well_formed(
    ledger: &Ledger,
    client_id: ClientId,
    now: Timestamp,
    r: Result<ExtractResponse, ErrorResponse>,
)
    requires
        ledger.wf(),
        ledger.extract_post(client_id, now, r),
        r is Ok,
    ensures
        forall|j: int|
            0 <= j < r->Ok_0.transactions@.len() ==> valid_description(
                (#[trigger] r->Ok_0.transactions@[j]).description@,
            ) && r->Ok_0.transactions@[j].value > 0,
{
    let h = history(ledger.entries(), client_id);
    lemma_history_records(ledger.entries(), client_id);
    let t = r->Ok_0.transactions@;
    assert forall|j: int| 0 <= j < t.len() implies valid_description((#[trigger] t[j]).description@)
        && t[j].value > 0 by {
        assert(t[j] == h[h.len() - 1 - j]);
        assert(record_well_formed(h[h.len() - 1 - j]));
    }
}

/// An extract lists the client's last transactions, newest first: as many as
/// it has, up to ten, in reverse commit order, with dates that never increase
/// down the list.
pub proof fn lemma_extract_newest_first(
    ledger: &Ledger,
    client_id: ClientId,
    now: Timestamp,
    r: Result<ExtractResponse, ErrorResponse>,
)
    requires
        ledger.wf(),
        ledger.extract_post(client_id, now, r),
        r is Ok,
    ensures
        ({
            let t = r->Ok_0.transactions@;
            let h = history(ledger.entries(), client_id);
            &&& t.len() == if h.len() < EXTRACT_LEN {
                h.len()
            } else {
                EXTRACT_LEN as nat
            }
            &&& forall|j: int| 0 <= j < t.len() ==> t[j] == h[h.len() - 1 - j]
            &&& forall|a: int, b: int| 0 <= a < b < t.len() ==> t[a].date >= t[b].date
        }),
{
    let h = history(ledger.entries(), client_id);
    lemma_history_dates(ledger.entries(), client_id);
    let t = r->Ok_0.transactions@;
    assert forall|a: int, b: int| 0 <= a < b < t.len() implies t[a].date >= t[b].date by {
        assert(t[a] == h[h.len() - 1 - a]);
        assert(t[b] == h[h.len() - 1 - b]);
    }
}

} // verus!
