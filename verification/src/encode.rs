//! The canonical text encoding of the entry log: one newline-terminated,
//! field-named record per entry, with every number in decimal.

use vstd::prelude::*;
use crate::data::Entry;
use crate::data::EntryView;
use crate::data::Event;

verus! {

/// The decimal digits of a number, most significant first.
pub open spec fn dec_digits(n: nat) -> Seq<u8>
    decreases n,
{
    if n < 10 {
        seq![(48 + n) as u8]
    } else {
        dec_digits(n / 10).push((48 + n % 10) as u8)
    }
}

/// `"entry id="`.
pub open spec fn lbl_entry() -> Seq<u8> {
    seq![101u8, 110u8, 116u8, 114u8, 121u8, 32u8, 105u8, 100u8, 61u8]
}

/// `" num="`.
pub open spec fn lbl_num() -> Seq<u8> {
    seq![32u8, 110u8, 117u8, 109u8, 61u8]
}

/// `" txn from="`.
pub open spec fn lbl_txn() -> Seq<u8> {
    seq![32u8, 116u8, 120u8, 110u8, 32u8, 102u8, 114u8, 111u8, 109u8, 61u8]
}

/// `" to="`.
pub open spec fn lbl_to() -> Seq<u8> {
    seq![32u8, 116u8, 111u8, 61u8]
}

/// `" tokens="`.
pub open spec fn lbl_tokens() -> Seq<u8> {
    seq![32u8, 116u8, 111u8, 107u8, 101u8, 110u8, 115u8, 61u8]
}

/// `" last_id="`.
pub open spec fn lbl_last_id() -> Seq<u8> {
    seq![32u8, 108u8, 97u8, 115u8, 116u8, 95u8, 105u8, 100u8, 61u8]
}

/// `" sig="`.
pub open spec fn lbl_sig() -> Seq<u8> {
    seq![32u8, 115u8, 105u8, 103u8, 61u8]
}

/// `" ts at="`.
pub open spec fn lbl_ts() -> Seq<u8> {
    seq![32u8, 116u8, 115u8, 32u8, 97u8, 116u8, 61u8]
}

/// The record of one event inside an entry line.
pub open spec fn event_record(ev: Event) -> Seq<u8> {
    match ev {
        Event::Transaction(t) => lbl_txn() + dec_digits(t.from as nat)
            + lbl_to() + dec_digits(t.to as nat)
            + lbl_tokens() + dec_digits(t.tokens as nat)
            + lbl_last_id() + dec_digits(t.last_id as nat)
            + lbl_sig() + dec_digits(t.sig as nat),
        Event::Timestamp(v) => lbl_ts() + dec_digits(v as nat),
    }
}

/// The records of an entry's events, in order.
pub open spec fn event_records(es: Seq<Event>) -> Seq<u8>
    decreases es.len(),
{
    if es.len() == 0 {
        Seq::empty()
    } else {
        event_record(es[0]) + event_records(es.drop_first())
    }
}

/// One full log line: the entry's id, sequence number and events,
/// newline-terminated.
pub open spec fn entry_record(e: EntryView) -> Seq<u8> {
    lbl_entry() + dec_digits(e.id as nat)
        + lbl_num() + dec_digits(e.num as nat)
        + event_records(e.events)
        + seq![10u8]
}

/// Write a number in decimal.
pub fn encode_u64(n: u64) -> (r: Vec<u8>)
    ensures
        r@ == dec_digits(n as nat),
    decreases n,
{
    if n < 10 {
        let mut r: Vec<u8> = Vec::new();
        r.push(48 + (n as u8));
        proof {
            assert(r@ =~= dec_digits(n as nat));
        }
        r
    } else {
        let mut r = encode_u64(n / 10);
        r.push(48 + ((n % 10) as u8));
        proof {
            assert(r@ =~= dec_digits(n as nat));
        }
        r
    }
}

/// Append a number's decimal digits.
fn append_u64(r: &mut Vec<u8>, n: u64)
    ensures
        final(r)@ == old(r)@ + dec_digits(n as nat),
{
    let mut d = encode_u64(n);
    r.append(&mut d);
}

/// Write the record of one event.
pub fn encode_event(ev: &Event) -> (r: Vec<u8>)
    ensures
        r@ == event_record(*ev),
{
    let mut r: Vec<u8> = Vec::new();
    match *ev {
        Event::Transaction(t) => {
            r.push(32u8); r.push(116u8); r.push(120u8); r.push(110u8); r.push(32u8);
            r.push(102u8); r.push(114u8); r.push(111u8); r.push(109u8); r.push(61u8);
            proof {
                assert(r@ =~= lbl_txn());
            }
            append_u64(&mut r, t.from);
            r.push(32u8); r.push(116u8); r.push(111u8); r.push(61u8);
            proof {
                assert(r@ =~= lbl_txn() + dec_digits(t.from as nat) + lbl_to());
            }
            append_u64(&mut r, t.to);
            r.push(32u8); r.push(116u8); r.push(111u8); r.push(107u8); r.push(101u8);
            r.push(110u8); r.push(115u8); r.push(61u8);
            proof {
                assert(r@ =~= lbl_txn() + dec_digits(t.from as nat) + lbl_to() + dec_digits(t.to as nat)
                    + lbl_tokens());
            }
            append_u64(&mut r, t.tokens);
            r.push(32u8); r.push(108u8); r.push(97u8); r.push(115u8); r.push(116u8);
            r.push(95u8); r.push(105u8); r.push(100u8); r.push(61u8);
            proof {
                assert(r@ =~= lbl_txn() + dec_digits(t.from as nat) + lbl_to() + dec_digits(t.to as nat)
                    + lbl_tokens() + dec_digits(t.tokens as nat) + lbl_last_id());
            }
            append_u64(&mut r, t.last_id);
            r.push(32u8); r.push(115u8); r.push(105u8); r.push(103u8); r.push(61u8);
            proof {
                assert(r@ =~= lbl_txn() + dec_digits(t.from as nat) + lbl_to() + dec_digits(t.to as nat)
                    + lbl_tokens() + dec_digits(t.tokens as nat) + lbl_last_id() + dec_digits(t.last_id as nat)
                    + lbl_sig());
            }
            append_u64(&mut r, t.sig);
            proof {
                assert(r@ =~= event_record(*ev));
            }
        },
        Event::Timestamp(v) => {
            r.push(32u8); r.push(116u8); r.push(115u8); r.push(32u8);
            r.push(97u8); r.push(116u8); r.push(61u8);
            proof {
                assert(r@ =~= lbl_ts());
            }
            append_u64(&mut r, v);
            proof {
                assert(r@ =~= event_record(*ev));
            }
        },
    }
    r
}

/// Write one entry's full log line.
pub fn encode_entry(e: &Entry) -> (r: Vec<u8>)
    ensures
        r@ == entry_record(e@),
{
    let mut r: Vec<u8> = Vec::new();
    r.push(101u8); r.push(110u8); r.push(116u8); r.push(114u8); r.push(121u8);
    r.push(32u8); r.push(105u8); r.push(100u8); r.push(61u8);
    proof {
        assert(r@ =~= lbl_entry());
    }
    append_u64(&mut r, e.id);
    r.push(32u8); r.push(110u8); r.push(117u8); r.push(109u8); r.push(61u8);
    proof {
        assert(r@ =~= lbl_entry() + dec_digits(e.id as nat) + lbl_num());
    }
    append_u64(&mut r, e.num);
    let ghost head = lbl_entry() + dec_digits(e.id as nat) + lbl_num() + dec_digits(e.num as nat);
    let mut i: usize = 0;
    proof {
        assert(r@ =~= head + event_records(e.events@.take(0)));
    }
    while i < e.events.len()
        invariant
            i <= e.events@.len(),
            r@ == head + event_records(e.events@.take(i as int)),
        decreases e.events@.len() - i,
    {
        let mut ev = encode_event(&e.events[i]);
        proof {
            lemma_event_records_snoc(e.events@.take(i as int), e.events@[i as int]);
            assert(e.events@.take(i + 1) =~= e.events@.take(i as int).push(e.events@[i as int]));
            assert(r@ + ev@ =~= head + event_records(e.events@.take(i + 1)));
        }
        r.append(&mut ev);
        i = i + 1;
    }
    proof {
        assert(e.events@.take(e.events@.len() as int) =~= e.events@);
    }
    r.push(10u8);
    proof {
        assert(r@ =~= entry_record(e@));
    }
    r
}

/// Event records over one appended event put its record last.
proof fn lemma_event_records_snoc(es: Seq<Event>, ev: Event)
    ensures
        event_records(es.push(ev)) == event_records(es) + event_record(ev),
    decreases es.len(),
{
    reveal_with_fuel(event_records, 2);
    if es.len() == 0 {
        assert(es.push(ev)[0] == ev);
        assert(es.push(ev).drop_first() =~= Seq::<Event>::empty());
        assert(event_records(es.push(ev)) =~= event_records(es) + event_record(ev));
    } else {
        assert(es.push(ev)[0] == es[0]);
        assert(es.push(ev).drop_first() =~= es.drop_first().push(ev));
        lemma_event_records_snoc(es.drop_first(), ev);
        assert(event_records(es.push(ev)) =~= event_records(es) + event_record(ev));
    }
}

} // verus!
