//! The request processor: drains verified batches and sorts every packet
//! into exactly one fate — a transaction forwarded to the accounting
//! input (only with its signature flag set), a query answered from the
//! account state, a subscription registered, or a drop.

use vstd::prelude::*;
use crate::accountant::Accountant;
use crate::accountant::spec_lookup;
use crate::data::Account;
use crate::data::Entry;
use crate::data::Packet;
use crate::data::Request;
use crate::data::Response;
use crate::data::Transaction;

verus! {

/// The transactions a batch hands to the accounting input: those packets,
/// in order, that decode to a transaction and whose signature flag is 1.
pub open spec fn accepted_transactions(packets: Seq<Packet>, flags: Seq<u8>) -> Seq<Transaction>
    decreases packets.len(),
{
    if packets.len() == 0 {
        Seq::empty()
    } else {
        let rest = accepted_transactions(packets.drop_first(), flags.drop_first());
        match packets[0].req {
            Option::Some(Request::Transaction(t)) => if flags[0] == 1 {
                seq![t] + rest
            } else {
                rest
            },
            _ => rest,
        }
    }
}

/// The answers a batch produces: one balance response per decoded
/// balance query, in packet order, addressed to the asking peer.
pub open spec fn query_responses(balances: Seq<Account>, packets: Seq<Packet>) -> Seq<(u64, Response)>
    decreases packets.len(),
{
    if packets.len() == 0 {
        Seq::empty()
    } else {
        let rest = query_responses(balances, packets.drop_first());
        match packets[0].req {
            Option::Some(Request::GetBalance { key }) =>
                seq![(packets[0].addr, Response::Balance { key, val: spec_lookup(balances, key) })] + rest,
            _ => rest,
        }
    }
}

/// The subscriber addresses a batch registers, in packet order.
pub open spec fn subscribe_addrs(packets: Seq<Packet>) -> Seq<u64>
    decreases packets.len(),
{
    if packets.len() == 0 {
        Seq::empty()
    } else {
        let rest = subscribe_addrs(packets.drop_first());
        match packets[0].req {
            Option::Some(Request::Subscribe { addr }) => seq![addr] + rest,
            _ => rest,
        }
    }
}

/// What one drained batch produced.
pub struct ProcessOutput {
    /// Verified transactions bound for the accounting input.
    pub txs: Vec<Transaction>,
    /// Addressed answers bound for the responder.
    pub responses: Vec<(u64, Response)>,
}

/// Serves queries from the account state and keeps the list of peers
/// subscribed to entry-info notices.
pub struct ThinClientService {
    subscribers: Vec<u64>,
}

impl ThinClientService {
    /// The subscribed peers, in registration order.
    pub closed spec fn subscribers(&self) -> Seq<u64> {
        self.subscribers@
    }

    /// A service with no subscribers yet.
    pub fn new() -> (r: ThinClientService)
        ensures
            r.subscribers() == Seq::<u64>::empty(),
    {
        ThinClientService { subscribers: Vec::new() }
    }

    /// Sort one verified batch: transactions with flag 1 go to the
    /// accounting input, balance queries are answered from the account
    /// state whatever their flag, subscriptions join the subscriber list,
    /// and everything else — unverified transactions and malformed
    /// packets — is dropped.
    pub fn process_request_packets(&mut self, accountant: &Accountant, packets: &Vec<Packet>, flags: &Vec<u8>) -> (out: ProcessOutput)
        requires
            packets@.len() == flags@.len(),
        ensures
            out.txs@ == accepted_transactions(packets@, flags@),
            out.responses@ == query_responses(accountant@.balances, packets@),
            final(self).subscribers() == old(self).subscribers() + subscribe_addrs(packets@),
    {
        let mut txs: Vec<Transaction> = Vec::new();
        let mut responses: Vec<(u64, Response)> = Vec::new();
        let ghost osubs = self.subscribers@;
        let mut i: usize = 0;
        proof {
            lemma_accepted_take(packets@, flags@, 0);
        }
        while i < packets.len()
            invariant
                i <= packets@.len(),
                packets@.len() == flags@.len(),
                txs@ == accepted_transactions(packets@.take(i as int), flags@.take(i as int)),
                responses@ == query_responses(accountant@.balances, packets@.take(i as int)),
                self.subscribers@ == osubs + subscribe_addrs(packets@.take(i as int)),
            decreases packets@.len() - i,
        {
            proof {
                lemma_accepted_snoc(packets@.take(i as int), flags@.take(i as int), packets@[i as int], flags@[i as int]);
                lemma_responses_snoc(accountant@.balances, packets@.take(i as int), packets@[i as int]);
                lemma_subscribe_snoc(packets@.take(i as int), packets@[i as int]);
                assert(packets@.take(i + 1) =~= packets@.take(i as int).push(packets@[i as int]));
                assert(flags@.take(i + 1) =~= flags@.take(i as int).push(flags@[i as int]));
            }
            let p = packets[i];
            match p.req {
                Option::Some(Request::Transaction(t)) => {
                    if flags[i] == 1 {
                        txs.push(t);
                        proof {
                            let acc = accepted_transactions(packets@.take(i as int), flags@.take(i as int));
                            assert(acc + seq![t] =~= acc.push(t));
                        }
                    }
                },
                Option::Some(Request::GetBalance { key }) => {
                    let val = accountant.get_balance(key);
                    responses.push((p.addr, Response::Balance { key, val }));
                    proof {
                        let qs = query_responses(accountant@.balances, packets@.take(i as int));
                        assert(qs + seq![(p.addr, Response::Balance { key, val: spec_lookup(accountant@.balances, key) })]
                            =~= qs.push((p.addr, Response::Balance { key, val: spec_lookup(accountant@.balances, key) })));
                    }
                },
                Option::Some(Request::Subscribe { addr }) => {
                    self.subscribers.push(addr);
                    proof {
                        let ss = subscribe_addrs(packets@.take(i as int));
                        assert(osubs + (ss + seq![addr]) =~= (osubs + ss).push(addr));
                    }
                },
                Option::None => {},
            }
            i = i + 1;
        }
        proof {
            assert(packets@.take(packets@.len() as int) =~= packets@);
            assert(flags@.take(flags@.len() as int) =~= flags@);
        }
        ProcessOutput { txs, responses }
    }

    /// Build the entry-info notice of one freshly written entry, one per
    /// subscribed peer.
    pub fn notify_entry_info_subscribers(&self, entry: &Entry) -> (r: Vec<(u64, Response)>)
        ensures
            r@ == entry_notices(self.subscribers(), entry@.id, entry@.num, entry@.events.len() as u64),
        {
        let info = Response::EntryInfo {
            id: entry.id,
            num: entry.num,
            event_count: entry.events.len() as u64,
        };
        let mut r: Vec<(u64, Response)> = Vec::new();
        let mut i: usize = 0;
        while i < self.subscribers.len()
            invariant
                i <= self.subscribers@.len(),
                info == (Response::EntryInfo { id: entry.id, num: entry.num, event_count: entry.events@.len() as u64 }),
                r@ == entry_notices(self.subscribers@, entry.id, entry.num, entry.events@.len() as u64).take(i as int),
            decreases self.subscribers@.len() - i,
        {
            r.push((self.subscribers[i], info));
            proof {
                let all = entry_notices(self.subscribers@, entry.id, entry.num, entry.events@.len() as u64);
                assert(all.take(i + 1) =~= all.take(i as int).push(all[i as int]));
            }
            i = i + 1;
        }
        proof {
            let all = entry_notices(self.subscribers@, entry.id, entry.num, entry.events@.len() as u64);
            assert(all.take(all.len() as int) =~= all);
        }
        r
    }
}

/// One entry-info notice per subscriber, in registration order.
pub open spec fn entry_notices(subs: Seq<u64>, id: u64, num: u64, event_count: u64) -> Seq<(u64, Response)> {
    subs.map_values(|a: u64| (a, Response::EntryInfo { id, num, event_count }))
}

/// Signature gating: every transaction a batch delivers to the
/// accounting input came from a packet whose signature flag is 1 — no
/// unverified or malformed packet reaches the account state.
pub proof fn lemma_signature_gating(packets: Seq<Packet>, flags: Seq<u8>, k: int)
    requires
        packets.len() == flags.len(),
        0 <= k < accepted_transactions(packets, flags).len(),
    ensures
        exists|i: int| 0 <= i < packets.len() && #[trigger] flags[i] == 1
            && packets[i].req == Option::Some(Request::Transaction(accepted_transactions(packets, flags)[k])),
    decreases packets.len(),
{
    let acc = accepted_transactions(packets, flags);
    let rest = accepted_transactions(packets.drop_first(), flags.drop_first());
    let head_tx = packets[0].req matches Option::Some(Request::Transaction(_)) && flags[0] == 1;
    if head_tx && k == 0 {
        assert(acc[0] == packets[0].req->Some_0->Transaction_0);
        assert(0 <= 0 < packets.len() && flags[0] == 1
            && packets[0].req == Option::Some(Request::Transaction(acc[0])));
    } else {
        let kk = if head_tx { k - 1 } else { k };
        lemma_signature_gating(packets.drop_first(), flags.drop_first(), kk);
        let i = choose|i: int| 0 <= i < packets.drop_first().len() && #[trigger] flags.drop_first()[i] == 1
            && packets.drop_first()[i].req == Option::Some(Request::Transaction(rest[kk]));
        assert(acc[k] == rest[kk]);
        assert(flags[i + 1] == 1);
        assert(packets[i + 1].req == Option::Some(Request::Transaction(acc[k])));
    }
}

/// The packets of a batch that go nowhere: malformed payloads and
/// transactions whose signature flag is not set.
pub open spec fn dropped_count(packets: Seq<Packet>, flags: Seq<u8>) -> int
    decreases packets.len(),
{
    if packets.len() == 0 {
        0
    } else {
        let rest = dropped_count(packets.drop_first(), flags.drop_first());
        match packets[0].req {
            Option::Some(Request::Transaction(_)) => if flags[0] == 1 { rest } else { 1 + rest },
            Option::Some(Request::GetBalance { .. }) => rest,
            Option::Some(Request::Subscribe { .. }) => rest,
            Option::None => 1 + rest,
        }
    }
}

/// Every packet of a delivered batch has exactly one fate: forwarded to
/// the accounting input, answered as a query, registered as a
/// subscription, or dropped — nothing is queued silently.
pub proof fn lemma_every_packet_has_one_fate(balances: Seq<Account>, packets: Seq<Packet>, flags: Seq<u8>)
    requires
        packets.len() == flags.len(),
    ensures
        accepted_transactions(packets, flags).len()
            + query_responses(balances, packets).len()
            + subscribe_addrs(packets).len()
            + dropped_count(packets, flags) == packets.len(),
    decreases packets.len(),
{
    if packets.len() > 0 {
        lemma_every_packet_has_one_fate(balances, packets.drop_first(), flags.drop_first());
    }
}

/// `accepted_transactions` of an empty prefix is empty.
proof fn lemma_accepted_take(packets: Seq<Packet>, flags: Seq<u8>, n: int)
    ensures
        accepted_transactions(packets.take(0), flags.take(0)) == Seq::<Transaction>::empty(),
{
    assert(packets.take(0).len() == 0);
}

/// One more packet appends its accepted transaction, if any.
proof fn lemma_accepted_snoc(packets: Seq<Packet>, flags: Seq<u8>, p: Packet, f: u8)
    requires
        packets.len() == flags.len(),
    ensures
        accepted_transactions(packets.push(p), flags.push(f))
            == accepted_transactions(packets, flags)
                + (match p.req {
                    Option::Some(Request::Transaction(t)) => if f == 1 { seq![t] } else { Seq::<Transaction>::empty() },
                    _ => Seq::<Transaction>::empty(),
                }),
    decreases packets.len(),
{
    reveal_with_fuel(accepted_transactions, 2);
    if packets.len() == 0 {
        assert(packets.push(p)[0] == p);
        assert(flags.push(f)[0] == f);
        assert(packets.push(p).drop_first() =~= Seq::<Packet>::empty());
        assert(flags.push(f).drop_first() =~= Seq::<u8>::empty());
        assert(accepted_transactions(packets.push(p), flags.push(f)) =~= accepted_transactions(packets, flags)
            + (match p.req {
                Option::Some(Request::Transaction(t)) => if f == 1 { seq![t] } else { Seq::<Transaction>::empty() },
                _ => Seq::<Transaction>::empty(),
            }));
    } else {
        assert(packets.push(p)[0] == packets[0]);
        assert(flags.push(f)[0] == flags[0]);
        assert(packets.push(p).drop_first() =~= packets.drop_first().push(p));
        assert(flags.push(f).drop_first() =~= flags.drop_first().push(f));
        lemma_accepted_snoc(packets.drop_first(), flags.drop_first(), p, f);
        assert(accepted_transactions(packets.push(p), flags.push(f)) =~= accepted_transactions(packets, flags)
            + (match p.req {
                Option::Some(Request::Transaction(t)) => if f == 1 { seq![t] } else { Seq::<Transaction>::empty() },
                _ => Seq::<Transaction>::empty(),
            }));
    }
}

/// One more packet appends its balance answer, if any.
proof fn lemma_responses_snoc(balances: Seq<Account>, packets: Seq<Packet>, p: Packet)
    ensures
        query_responses(balances, packets.push(p))
            == query_responses(balances, packets)
                + (match p.req {
                    Option::Some(Request::GetBalance { key }) =>
                        seq![(p.addr, Response::Balance { key, val: spec_lookup(balances, key) })],
                    _ => Seq::<(u64, Response)>::empty(),
                }),
    decreases packets.len(),
{
    reveal_with_fuel(query_responses, 2);
    if packets.len() == 0 {
        assert(packets.push(p)[0] == p);
        assert(packets.push(p).drop_first() =~= Seq::<Packet>::empty());
        assert(query_responses(balances, packets.push(p)) =~= query_responses(balances, packets)
            + (match p.req {
                Option::Some(Request::GetBalance { key }) =>
                    seq![(p.addr, Response::Balance { key, val: spec_lookup(balances, key) })],
                _ => Seq::<(u64, Response)>::empty(),
            }));
    } else {
        assert(packets.push(p)[0] == packets[0]);
        assert(packets.push(p).drop_first() =~= packets.drop_first().push(p));
        lemma_responses_snoc(balances, packets.drop_first(), p);
        assert(query_responses(balances, packets.push(p)) =~= query_responses(balances, packets)
            + (match p.req {
                Option::Some(Request::GetBalance { key }) =>
                    seq![(p.addr, Response::Balance { key, val: spec_lookup(balances, key) })],
                _ => Seq::<(u64, Response)>::empty(),
            }));
    }
}

/// One more packet appends its subscription, if any.
proof fn lemma_subscribe_snoc(packets: Seq<Packet>, p: Packet)
    ensures
        subscribe_addrs(packets.push(p))
            == subscribe_addrs(packets)
                + (match p.req {
                    Option::Some(Request::Subscribe { addr }) => seq![addr],
                    _ => Seq::<u64>::empty(),
                }),
    decreases packets.len(),
{
    reveal_with_fuel(subscribe_addrs, 2);
    if packets.len() == 0 {
        assert(packets.push(p)[0] == p);
        assert(packets.push(p).drop_first() =~= Seq::<Packet>::empty());
        assert(subscribe_addrs(packets.push(p)) =~= subscribe_addrs(packets)
            + (match p.req {
                Option::Some(Request::Subscribe { addr }) => seq![addr],
                _ => Seq::<u64>::empty(),
            }));
    } else {
        assert(packets.push(p)[0] == packets[0]);
        assert(packets.push(p).drop_first() =~= packets.drop_first().push(p));
        lemma_subscribe_snoc(packets.drop_first(), p);
        assert(subscribe_addrs(packets.push(p)) =~= subscribe_addrs(packets)
            + (match p.req {
                Option::Some(Request::Subscribe { addr }) => seq![addr],
                _ => Seq::<u64>::empty(),
            }));
    }
}

} // verus!
