//! The in-memory account state the pipeline mutates: balances, the set of
//! registered entry ids that transfers may cite, and the signatures of
//! transfers already applied.

use vstd::prelude::*;
use crate::data::Account;
use crate::data::Entry;
use crate::data::EntryView;
use crate::data::Event;
use crate::data::Transaction;
use crate::data::TransferError;
use crate::data::entry_views;

verus! {

/// Mathematical shape of an [`Accountant`].
pub struct AccountantView {
    pub balances: Seq<Account>,
    pub last_ids: Seq<u64>,
    pub sigs: Seq<u64>,
}

/// Index of the first account with the given key, or -1.
pub open spec fn key_index(s: Seq<Account>, key: u64) -> int
    decreases s.len(),
{
    if s.len() == 0 {
        -1
    } else if s[0].key == key {
        0
    } else {
        let r = key_index(s.drop_first(), key);
        if r < 0 {
            -1
        } else {
            r + 1
        }
    }
}

/// Balance of the account with the given key, if it exists.
pub open spec fn spec_lookup(s: Seq<Account>, key: u64) -> Option<u64> {
    let i = key_index(s, key);
    if i < 0 {
        Option::None
    } else {
        Option::Some(s[i].tokens)
    }
}

/// Sum of all balances, over the unbounded integers.
pub open spec fn sum_tokens(s: Seq<Account>) -> int
    decreases s.len(),
{
    if s.len() == 0 {
        0
    } else {
        sum_tokens(s.drop_last()) + s.last().tokens
    }
}

/// No key owns two rows of the table.
pub open spec fn keys_distinct(s: Seq<Account>) -> bool {
    forall|i: int, j: int| 0 <= i < j < s.len() ==> s[i].key != s[j].key
}

/// Registering an id: appended once, a repeat changes nothing.
pub open spec fn spec_register(ids: Seq<u64>, id: u64) -> Seq<u64> {
    if ids.contains(id) {
        ids
    } else {
        ids.push(id)
    }
}

/// The exact verdict the account state gives a transfer.
pub open spec fn spec_check_tx(a: AccountantView, t: Transaction) -> Result<(), TransferError> {
    if !a.last_ids.contains(t.last_id) {
        Result::Err(TransferError::UnknownLastId)
    } else if a.sigs.contains(t.sig) {
        Result::Err(TransferError::DuplicateSignature)
    } else if spec_lookup(a.balances, t.from) is None
        || spec_lookup(a.balances, t.from)->Some_0 < t.tokens {
        Result::Err(TransferError::InsufficientFunds)
    } else if t.from != t.to && spec_lookup(a.balances, t.to) is Some
        && spec_lookup(a.balances, t.to)->Some_0 + t.tokens > u64::MAX {
        Result::Err(TransferError::BalanceOverflow)
    } else {
        Result::Ok(())
    }
}

/// The balances after a credit of `tokens` to `key`: the row is topped up,
/// or appended when the key has no row yet.
pub open spec fn spec_credit(s: Seq<Account>, key: u64, tokens: u64) -> Seq<Account> {
    let i = key_index(s, key);
    if i < 0 {
        s.push(Account { key, tokens })
    } else {
        s.update(i, Account { key, tokens: (s[i].tokens + tokens) as u64 })
    }
}

/// The account state after one transfer: moved when the verdict is `Ok`,
/// untouched otherwise; an applied transfer records its signature.
pub open spec fn spec_apply_tx(a: AccountantView, t: Transaction) -> AccountantView {
    if spec_check_tx(a, t) is Ok {
        let i = key_index(a.balances, t.from);
        let debited = a.balances.update(i, Account { key: t.from, tokens: (a.balances[i].tokens - t.tokens) as u64 });
        let balances = if t.from == t.to {
            a.balances
        } else {
            spec_credit(debited, t.to, t.tokens)
        };
        AccountantView { balances, last_ids: a.last_ids, sigs: a.sigs.push(t.sig) }
    } else {
        a
    }
}

/// The account state after a whole sequence of transfers, first to last.
pub open spec fn spec_apply_txs(a: AccountantView, txs: Seq<Transaction>) -> AccountantView
    decreases txs.len(),
{
    if txs.len() == 0 {
        a
    } else {
        spec_apply_txs(spec_apply_tx(a, txs[0]), txs.drop_first())
    }
}

/// The transfers of a sequence that apply cleanly when played in order.
pub open spec fn spec_accepted_txs(a: AccountantView, txs: Seq<Transaction>) -> Seq<Transaction>
    decreases txs.len(),
{
    if txs.len() == 0 {
        Seq::empty()
    } else {
        let rest = spec_accepted_txs(spec_apply_tx(a, txs[0]), txs.drop_first());
        if spec_check_tx(a, txs[0]) is Ok {
            seq![txs[0]] + rest
        } else {
            rest
        }
    }
}

/// The account state after one event: a transfer is applied, a timestamp
/// notice changes nothing here.
pub open spec fn spec_apply_event(a: AccountantView, e: Event) -> AccountantView {
    match e {
        Event::Transaction(t) => spec_apply_tx(a, t),
        Event::Timestamp(_) => a,
    }
}

/// The account state after the events of one entry, in order.
pub open spec fn spec_apply_events(a: AccountantView, es: Seq<Event>) -> AccountantView
    decreases es.len(),
{
    if es.len() == 0 {
        a
    } else {
        spec_apply_events(spec_apply_event(a, es[0]), es.drop_first())
    }
}

/// The account state after a sequence of entries, in order.
pub open spec fn spec_apply_entries(a: AccountantView, es: Seq<EntryView>) -> AccountantView
    decreases es.len(),
{
    if es.len() == 0 {
        a
    } else {
        spec_apply_entries(spec_apply_events(a, es[0].events), es.drop_first())
    }
}

/// The account table, the recent-entry-id set, and the signatures of the
/// transfers already applied.
#[derive(Debug)]
pub struct Accountant {
    balances: Vec<Account>,
    last_ids: Vec<u64>,
    sigs: Vec<u64>,
}

impl View for Accountant {
    type V = AccountantView;

    closed spec fn view(&self) -> AccountantView {
        AccountantView { balances: self.balances@, last_ids: self.last_ids@, sigs: self.sigs@ }
    }
}

impl Accountant {
    /// The table is well formed: one row per key.
    pub open spec fn wf(&self) -> bool {
        keys_distinct(self@.balances)
    }

    /// A fresh state: the whole supply sits on the mint's account, no
    /// entry id is registered, no transfer has been applied.
    pub fn new(mint: u64, tokens: u64) -> (r: Accountant)
        ensures
            r.wf(),
            r@.balances == seq![Account { key: mint, tokens }],
            r@.last_ids == Seq::<u64>::empty(),
            r@.sigs == Seq::<u64>::empty(),
            sum_tokens(r@.balances) == tokens,
    {
        let mut balances: Vec<Account> = Vec::new();
        balances.push(Account { key: mint, tokens });
        proof {
            reveal_with_fuel(sum_tokens, 2);
            assert(balances@.drop_last() =~= Seq::<Account>::empty());
            assert(balances@ =~= seq![Account { key: mint, tokens }]);
        }
        Accountant { balances, last_ids: Vec::new(), sigs: Vec::new() }
    }

    /// Record an entry id as a valid reference for later transfers.
    /// Registering an id a second time changes nothing.
    pub fn register_entry_id(&mut self, id: u64)
        ensures
            final(self)@.last_ids == spec_register(old(self)@.last_ids, id),
            final(self)@.balances == old(self)@.balances,
            final(self)@.sigs == old(self)@.sigs,
            final(self).wf() == old(self).wf(),
    {
        if !contains_u64(&self.last_ids, id) {
            self.last_ids.push(id);
        }
    }

    /// Balance of the given key, if an account exists for it.
    pub fn get_balance(&self, key: u64) -> (r: Option<u64>)
        ensures
            r == spec_lookup(self@.balances, key),
    {
        match find_key(&self.balances, key) {
            Option::Some(i) => Option::Some(self.balances[i].tokens),
            Option::None => Option::None,
        }
    }

    /// Apply one verified transfer: move the tokens and record the
    /// signature exactly when the verdict is `Ok`, and return the verdict.
    pub fn process_transaction(&mut self, t: &Transaction) -> (r: Result<(), TransferError>)
        requires
            old(self).wf(),
        ensures
            final(self).wf(),
            final(self)@ == spec_apply_tx(old(self)@, *t),
            r == spec_check_tx(old(self)@, *t),
    {
        if !contains_u64(&self.last_ids, t.last_id) {
            return Result::Err(TransferError::UnknownLastId);
        }
        if contains_u64(&self.sigs, t.sig) {
            return Result::Err(TransferError::DuplicateSignature);
        }
        let from_at = match find_key(&self.balances, t.from) {
            Option::Some(i) => i,
            Option::None => {
                return Result::Err(TransferError::InsufficientFunds);
            },
        };
        if self.balances[from_at].tokens < t.tokens {
            return Result::Err(TransferError::InsufficientFunds);
        }
        if t.from != t.to {
            match find_key(&self.balances, t.to) {
                Option::Some(j) => {
                    if self.balances[j].tokens > u64::MAX - t.tokens {
                        return Result::Err(TransferError::BalanceOverflow);
                    }
                    let ghost pre = self.balances@;
                    let debited = self.balances[from_at].tokens - t.tokens;
                    self.balances[from_at] = Account { key: t.from, tokens: debited };
                    proof {
                        lemma_key_index_update(pre, from_at as int, Account { key: t.from, tokens: debited }, t.to);
                        assert(key_index(self.balances@, t.to) == j);
                    }
                    let credited = self.balances[j].tokens + t.tokens;
                    self.balances[j] = Account { key: t.to, tokens: credited };
                },
                Option::None => {
                    let ghost pre = self.balances@;
                    let debited = self.balances[from_at].tokens - t.tokens;
                    self.balances[from_at] = Account { key: t.from, tokens: debited };
                    proof {
                        lemma_key_index_update(pre, from_at as int, Account { key: t.from, tokens: debited }, t.to);
                        assert(key_index(self.balances@, t.to) < 0);
                    }
                    self.balances.push(Account { key: t.to, tokens: t.tokens });
                },
            }
            proof {
                lemma_keys_distinct_apply(old(self)@.balances, *t);
            }
        }
        self.sigs.push(t.sig);
        Result::Ok(())
    }

    /// Apply the events of each entry, first entry to last. Rejected
    /// transfers leave the state untouched; timestamp notices do nothing.
    pub fn process_verified_entries(&mut self, entries: &Vec<Entry>)
        requires
            old(self).wf(),
        ensures
            final(self).wf(),
            final(self)@ == spec_apply_entries(old(self)@, entry_views(entries@)),
    {
        let ghost evs = entry_views(entries@);
        let mut i: usize = 0;
        while i < entries.len()
            invariant
                i <= entries.len(),
                evs == entry_views(entries@),
                self.wf(),
                self@ == spec_apply_entries_prefix(old(self)@, evs, i as int),
            decreases entries.len() - i,
        {
            let entry = &entries[i];
            let mut k: usize = 0;
            let ghost before = self@;
            while k < entry.events.len()
                invariant
                    k <= entry.events.len(),
                    self.wf(),
                    self@ == spec_apply_events_prefix(before, entry.events@, k as int),
                decreases entry.events.len() - k,
            {
                proof {
                    lemma_apply_events_prefix_step(before, entry.events@, k as int);
                }
                match entry.events[k] {
                    Event::Transaction(t) => {
                        let _ = self.process_transaction(&t);
                    },
                    Event::Timestamp(_) => {},
                }
                k = k + 1;
            }
            proof {
                lemma_apply_events_prefix_all(before, entry.events@);
                lemma_apply_entries_prefix_step(old(self)@, evs, i as int);
                assert(evs[i as int].events == entry.events@);
            }
            i = i + 1;
        }
        proof {
            lemma_apply_entries_prefix_all(old(self)@, evs);
        }
    }
}

/// The state after the first `n` events of a sequence.
pub open spec fn spec_apply_events_prefix(a: AccountantView, es: Seq<Event>, n: int) -> AccountantView {
    spec_apply_events(a, es.take(n))
}

/// The state after the first `n` entries of a sequence.
pub open spec fn spec_apply_entries_prefix(a: AccountantView, es: Seq<EntryView>, n: int) -> AccountantView {
    spec_apply_entries(a, es.take(n))
}

/// Whether a vector of ids holds the given id.
pub fn contains_u64(v: &Vec<u64>, x: u64) -> (r: bool)
    ensures
        r == v@.contains(x),
{
    let mut i: usize = 0;
    while i < v.len()
        invariant
            i <= v.len(),
            forall|j: int| 0 <= j < i ==> v@[j] != x,
        decreases v.len() - i,
    {
        if v[i] == x {
            return true;
        }
        i = i + 1;
    }
    false
}

/// Index of the first row with the given key, if any.
pub fn find_key(v: &Vec<Account>, key: u64) -> (r: Option<usize>)
    ensures
        r matches Option::Some(i) ==> i < v@.len() && v@[i as int].key == key && key_index(v@, key) == i as int,
        r is None ==> key_index(v@, key) < 0,
{
    let mut i: usize = 0;
    while i < v.len()
        invariant
            i <= v.len(),
            forall|j: int| 0 <= j < i ==> v@[j].key != key,
        decreases v.len() - i,
    {
        if v[i].key == key {
            proof {
                lemma_key_index_first(v@, key, i as int);
            }
            return Option::Some(i);
        }
        i = i + 1;
    }
    proof {
        lemma_key_index_none(v@, key);
    }
    Option::None
}

/// `key_index` finds exactly the first matching row.
proof fn lemma_key_index_first(s: Seq<Account>, key: u64, i: int)
    requires
        0 <= i < s.len(),
        s[i].key == key,
        forall|j: int| 0 <= j < i ==> s[j].key != key,
    ensures
        key_index(s, key) == i,
    decreases s.len(),
{
    if i > 0 {
        assert(forall|j: int| 0 <= j < i - 1 ==> s.drop_first()[j].key != key);
        lemma_key_index_first(s.drop_first(), key, i - 1);
    }
}

/// With no matching row, `key_index` is negative.
proof fn lemma_key_index_none(s: Seq<Account>, key: u64)
    requires
        forall|j: int| 0 <= j < s.len() ==> s[j].key != key,
    ensures
        key_index(s, key) < 0,
    decreases s.len(),
{
    if s.len() > 0 {
        lemma_key_index_none(s.drop_first(), key);
    }
}

/// A positive `key_index` points at a matching row.
pub proof fn lemma_key_index_hit(s: Seq<Account>, key: u64)
    requires
        key_index(s, key) >= 0,
    ensures
        key_index(s, key) < s.len(),
        s[key_index(s, key)].key == key,
    decreases s.len(),
{
    if s.len() > 0 && s[0].key != key {
        lemma_key_index_hit(s.drop_first(), key);
    }
}

/// A negative `key_index` means no row matches.
pub proof fn lemma_key_index_miss(s: Seq<Account>, key: u64)
    requires
        key_index(s, key) < 0,
    ensures
        forall|j: int| 0 <= j < s.len() ==> s[j].key != key,
    decreases s.len(),
{
    if s.len() > 0 {
        lemma_key_index_miss(s.drop_first(), key);
        assert forall|j: int| 0 <= j < s.len() implies s[j].key != key by {
            if j > 0 {
                assert(s.drop_first()[j - 1] == s[j]);
            }
        }
    }
}

/// Updating one row without changing its key leaves every `key_index`
/// for any other key as it was.
proof fn lemma_key_index_update(s: Seq<Account>, i: int, a: Account, key: u64)
    requires
        0 <= i < s.len(),
        s[i].key == a.key,
        key != a.key,
    ensures
        key_index(s.update(i, a), key) == key_index(s, key),
    decreases s.len(),
{
    if s.len() > 0 {
        if i == 0 {
            assert(s.update(i, a).drop_first() =~= s.drop_first());
        } else {
            assert(s.update(i, a).drop_first() =~= s.drop_first().update(i - 1, a));
            lemma_key_index_update(s.drop_first(), i - 1, a, key);
        }
    }
}

/// Applying a transfer keeps the table's keys distinct.
proof fn lemma_keys_distinct_apply(s: Seq<Account>, t: Transaction)
    requires
        keys_distinct(s),
        key_index(s, t.from) >= 0,
        t.from != t.to,
    ensures
        keys_distinct(spec_credit(
            s.update(key_index(s, t.from), Account { key: t.from, tokens: (s[key_index(s, t.from)].tokens - t.tokens) as u64 }),
            t.to,
            t.tokens,
        )),
{
    let i = key_index(s, t.from);
    lemma_key_index_hit(s, t.from);
    let d = s.update(i, Account { key: t.from, tokens: (s[i].tokens - t.tokens) as u64 });
    assert(forall|j: int| 0 <= j < d.len() ==> d[j].key == s[j].key);
    assert(keys_distinct(d));
    lemma_key_index_update(s, i, Account { key: t.from, tokens: (s[i].tokens - t.tokens) as u64 }, t.to);
    let j = key_index(d, t.to);
    if j < 0 {
        lemma_key_index_miss(d, t.to);
        let c = d.push(Account { key: t.to, tokens: t.tokens });
        assert forall|p: int, q: int| 0 <= p < q < c.len() implies c[p].key != c[q].key by {
            if q == c.len() - 1 {
                assert(c[p].key == d[p].key);
            }
        }
    } else {
        lemma_key_index_hit(d, t.to);
        let c = d.update(j, Account { key: t.to, tokens: (d[j].tokens + t.tokens) as u64 });
        assert(forall|p: int| 0 <= p < c.len() ==> c[p].key == d[p].key);
    }
}

/// One more event extends the prefix fold by one application.
proof fn lemma_apply_events_prefix_step(a: AccountantView, es: Seq<Event>, n: int)
    requires
        0 <= n < es.len(),
    ensures
        spec_apply_events_prefix(a, es, n + 1)
            == spec_apply_event(spec_apply_events_prefix(a, es, n), es[n]),
{
    lemma_apply_events_snoc(a, es.take(n), es[n]);
    assert(es.take(n + 1) =~= es.take(n).push(es[n]));
}

/// Folding events over one appended event applies it last.
proof fn lemma_apply_events_snoc(a: AccountantView, es: Seq<Event>, e: Event)
    ensures
        spec_apply_events(a, es.push(e)) == spec_apply_event(spec_apply_events(a, es), e),
    decreases es.len(),
{
    reveal_with_fuel(spec_apply_events, 2);
    if es.len() == 0 {
        assert(es.push(e)[0] == e);
        assert(es.push(e).drop_first() =~= Seq::<Event>::empty());
    } else {
        assert(es.push(e)[0] == es[0]);
        assert(es.push(e).drop_first() =~= es.drop_first().push(e));
        lemma_apply_events_snoc(spec_apply_event(a, es[0]), es.drop_first(), e);
    }
}

/// The full prefix is the whole fold.
proof fn lemma_apply_events_prefix_all(a: AccountantView, es: Seq<Event>)
    ensures
        spec_apply_events_prefix(a, es, es.len() as int) == spec_apply_events(a, es),
{
    assert(es.take(es.len() as int) =~= es);
}

/// One more entry extends the prefix fold by its events.
proof fn lemma_apply_entries_prefix_step(a: AccountantView, es: Seq<EntryView>, n: int)
    requires
        0 <= n < es.len(),
    ensures
        spec_apply_entries_prefix(a, es, n + 1)
            == spec_apply_events(spec_apply_entries_prefix(a, es, n), es[n].events),
{
    lemma_apply_entries_snoc(a, es.take(n), es[n]);
    assert(es.take(n + 1) =~= es.take(n).push(es[n]));
}

/// Folding entries over one appended entry applies it last.
proof fn lemma_apply_entries_snoc(a: AccountantView, es: Seq<EntryView>, e: EntryView)
    ensures
        spec_apply_entries(a, es.push(e)) == spec_apply_events(spec_apply_entries(a, es), e.events),
    decreases es.len(),
{
    reveal_with_fuel(spec_apply_entries, 2);
    if es.len() == 0 {
        assert(es.push(e)[0] == e);
        assert(es.push(e).drop_first() =~= Seq::<EntryView>::empty());
    } else {
        assert(es.push(e)[0] == es[0]);
        assert(es.push(e).drop_first() =~= es.drop_first().push(e));
        lemma_apply_entries_snoc(spec_apply_events(a, es[0].events), es.drop_first(), e);
    }
}

/// The full prefix is the whole fold.
proof fn lemma_apply_entries_prefix_all(a: AccountantView, es: Seq<EntryView>)
    ensures
        spec_apply_entries_prefix(a, es, es.len() as int) == spec_apply_entries(a, es),
{
    assert(es.take(es.len() as int) =~= es);
}

/// Folding transfers over one appended transfer applies it last.
pub proof fn lemma_apply_txs_snoc(a: AccountantView, txs: Seq<Transaction>, t: Transaction)
    ensures
        spec_apply_txs(a, txs.push(t)) == spec_apply_tx(spec_apply_txs(a, txs), t),
    decreases txs.len(),
{
    reveal_with_fuel(spec_apply_txs, 2);
    if txs.len() == 0 {
        assert(txs.push(t)[0] == t);
        assert(txs.push(t).drop_first() =~= Seq::<Transaction>::empty());
    } else {
        assert(txs.push(t)[0] == txs[0]);
        assert(txs.push(t).drop_first() =~= txs.drop_first().push(t));
        lemma_apply_txs_snoc(spec_apply_tx(a, txs[0]), txs.drop_first(), t);
    }
}

/// The accepted transfers of one appended transfer: it joins the accepted
/// run exactly when it passes the checks against the state all earlier
/// transfers produced.
pub proof fn lemma_accepted_txs_snoc(a: AccountantView, txs: Seq<Transaction>, t: Transaction)
    ensures
        spec_accepted_txs(a, txs.push(t)) == spec_accepted_txs(a, txs)
            + if spec_check_tx(spec_apply_txs(a, txs), t) is Ok { seq![t] } else { Seq::<Transaction>::empty() },
    decreases txs.len(),
{
    reveal_with_fuel(spec_accepted_txs, 2);
    reveal_with_fuel(spec_apply_txs, 2);
    if txs.len() == 0 {
        assert(txs.push(t)[0] == t);
        assert(txs.push(t).drop_first() =~= Seq::<Transaction>::empty());
        if spec_check_tx(a, t) is Ok {
            assert(spec_accepted_txs(a, txs.push(t)) =~= spec_accepted_txs(a, txs) + seq![t]);
        } else {
            assert(spec_accepted_txs(a, txs.push(t)) =~= spec_accepted_txs(a, txs));
        }
    } else {
        assert(txs.push(t)[0] == txs[0]);
        assert(txs.push(t).drop_first() =~= txs.drop_first().push(t));
        lemma_accepted_txs_snoc(spec_apply_tx(a, txs[0]), txs.drop_first(), t);
        if spec_check_tx(spec_apply_txs(a, txs), t) is Ok {
            assert(spec_accepted_txs(a, txs.push(t)) =~= spec_accepted_txs(a, txs) + seq![t]);
        } else {
            assert(spec_accepted_txs(a, txs.push(t)) =~= spec_accepted_txs(a, txs));
        }
    }
}

/// Updating one row changes the sum by the difference of that row.
proof fn lemma_sum_update(s: Seq<Account>, i: int, a: Account)
    requires
        0 <= i < s.len(),
    ensures
        sum_tokens(s.update(i, a)) == sum_tokens(s) - s[i].tokens + a.tokens,
    decreases s.len(),
{
    if i == s.len() - 1 {
        assert(s.update(i, a).drop_last() =~= s.drop_last());
        assert(s.update(i, a).last() == a);
    } else {
        assert(s.update(i, a).drop_last() =~= s.drop_last().update(i, a));
        assert(s.update(i, a).last() == s.last());
        lemma_sum_update(s.drop_last(), i, a);
    }
}

/// Appending a row adds its balance to the sum.
proof fn lemma_sum_push(s: Seq<Account>, a: Account)
    ensures
        sum_tokens(s.push(a)) == sum_tokens(s) + a.tokens,
{
    assert(s.push(a).drop_last() =~= s);
    assert(s.push(a).last() == a);
}

/// One transfer never changes the total supply: an applied transfer moves
/// tokens, a rejected one leaves the table untouched.
pub proof fn lemma_apply_tx_conserves(a: AccountantView, t: Transaction)
    ensures
        sum_tokens(spec_apply_tx(a, t).balances) == sum_tokens(a.balances),
{
    if spec_check_tx(a, t) is Ok {
        let i = key_index(a.balances, t.from);
        lemma_key_index_hit(a.balances, t.from);
        let d = a.balances.update(i, Account { key: t.from, tokens: (a.balances[i].tokens - t.tokens) as u64 });
        if t.from != t.to {
            lemma_sum_update(a.balances, i, Account { key: t.from, tokens: (a.balances[i].tokens - t.tokens) as u64 });
            lemma_key_index_update(a.balances, i, Account { key: t.from, tokens: (a.balances[i].tokens - t.tokens) as u64 }, t.to);
            let j = key_index(d, t.to);
            if j < 0 {
                lemma_sum_push(d, Account { key: t.to, tokens: t.tokens });
            } else {
                lemma_key_index_hit(d, t.to);
                lemma_key_index_hit(a.balances, t.to);
                assert(a.balances[i].key == t.from);
                assert(i != j);
                assert(d[j] == a.balances[j]);
                assert(d[j].tokens + t.tokens <= u64::MAX);
                lemma_sum_update(d, j, Account { key: t.to, tokens: (d[j].tokens + t.tokens) as u64 });
            }
        }
    }
}

/// The events of any one entry keep the total supply.
pub proof fn lemma_apply_events_conserves(a: AccountantView, es: Seq<Event>)
    ensures
        sum_tokens(spec_apply_events(a, es).balances) == sum_tokens(a.balances),
    decreases es.len(),
{
    if es.len() > 0 {
        match es[0] {
            Event::Transaction(t) => lemma_apply_tx_conserves(a, t),
            Event::Timestamp(_) => {},
        }
        lemma_apply_events_conserves(spec_apply_event(a, es[0]), es.drop_first());
    }
}

/// Conservation: however many entries the pipeline applies, and whatever
/// mix of applied and rejected transfers they carry, the sum of all
/// balances stays what it was — for a fresh state, the mint's supply.
pub proof fn lemma_conservation(a: AccountantView, es: Seq<EntryView>)
    ensures
        sum_tokens(spec_apply_entries(a, es).balances) == sum_tokens(a.balances),
    decreases es.len(),
{
    if es.len() > 0 {
        lemma_apply_events_conserves(a, es[0].events);
        lemma_conservation(spec_apply_events(a, es[0].events), es.drop_first());
    }
}

/// Idempotent registration: registering an entry id a second time is the
/// same as registering it once — only the first registration affects the
/// recent-id set.
pub proof fn lemma_register_idempotent(ids: Seq<u64>, id: u64)
    ensures
        spec_register(spec_register(ids, id), id) == spec_register(ids, id),
{
    if !ids.contains(id) {
        assert(ids.push(id)[ids.len() as int] == id);
        assert(ids.push(id).contains(id));
    }
}

} // verus!
