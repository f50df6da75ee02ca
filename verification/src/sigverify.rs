//! The verifier stage's pairing step: a batch of packet runs comes back
//! from the signature checker with one flag vector per run, and the two
//! are zipped so every packet travels on beside its own verdict.

use vstd::prelude::*;
use crate::data::Packet;

verus! {

/// Pair each packet run of a batch with its flag vector. The checker owes
/// one flag byte per packet; a batch whose flags come back short, long or
/// missing is rejected whole, and no packet of it travels on. Pairing
/// keeps both the run order and the packet order inside each run.
pub fn verify_batch(batch: Vec<Vec<Packet>>, flags: Vec<Vec<u8>>) -> (r: Option<Vec<(Vec<Packet>, Vec<u8>)>>)
    ensures
        (r is Some) == (flags@.len() == batch@.len()
            && forall|i: int| 0 <= i < batch@.len() ==> (#[trigger] flags@[i])@.len() == batch@[i]@.len()),
        r matches Some(v) ==> v@.len() == batch@.len()
            && (forall|i: int| 0 <= i < v@.len() ==> (#[trigger] v@[i]).0 == batch@[i])
            && (forall|i: int| 0 <= i < v@.len() ==> (#[trigger] v@[i]).1 == flags@[i]),
{
    if flags.len() != batch.len() {
        return None;
    }
    let mut i: usize = 0;
    while i < batch.len()
        invariant
            i <= batch@.len(),
            flags@.len() == batch@.len(),
            forall|j: int| 0 <= j < i ==> (#[trigger] flags@[j])@.len() == batch@[j]@.len(),
        decreases batch@.len() - i,
    {
        if flags[i].len() != batch[i].len() {
            return None;
        }
        i = i + 1;
    }
    let ghost obatch = batch@;
    let ghost oflags = flags@;
    let mut rest_batch = batch;
    let mut rest_flags = flags;
    let mut out: Vec<(Vec<Packet>, Vec<u8>)> = Vec::new();
    let mut k: usize = 0;
    while rest_batch.len() > 0
        invariant
            k + rest_batch@.len() == obatch.len(),
            obatch.len() <= usize::MAX,
            rest_batch@ == obatch.skip(k as int),
            rest_flags@ == oflags.skip(k as int),
            oflags.len() == obatch.len(),
            out@.len() == k,
            forall|j: int| 0 <= j < k ==> (#[trigger] out@[j]).0 == obatch[j],
            forall|j: int| 0 <= j < k ==> (#[trigger] out@[j]).1 == oflags[j],
        decreases rest_batch@.len(),
    {
        let ghost pre_b = rest_batch@;
        let ghost pre_f = rest_flags@;
        let b = rest_batch.remove(0);
        let f = rest_flags.remove(0);
        proof {
            assert(obatch.skip(k as int)[0] == obatch[k as int]);
            assert(oflags.skip(k as int)[0] == oflags[k as int]);
            assert(pre_b.remove(0) =~= obatch.skip(k + 1));
            assert(pre_f.remove(0) =~= oflags.skip(k + 1));
        }
        out.push((b, f));
        k = k + 1;
    }
    Some(out)
}

} // verus!
