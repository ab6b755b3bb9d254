//! Training schedule decisions: which contiguous shard of the training set
//! an epoch trains on, when the stepped-down learning rate takes over, and
//! how validation accuracy is counted.

use vstd::prelude::*;
use vstd::arithmetic::div_mod::lemma_fundamental_div_mod;

verus! {

/// Number of contiguous shards the training set is cut into; an epoch
/// trains on the one indexed by the epoch number modulo this count.
pub const SHARD_COUNT: u64 = 10;

/// The half-open index range `[start, end)` of the shard that `epoch`
/// trains on, inside a training set of `total` examples: shard
/// `epoch % 10`, each shard `total / 10` examples long. The range always
/// lies inside the set; the last few examples of a set whose size is not
/// a multiple of ten belong to no shard.
pub fn shard_bounds(total: usize, epoch: u64) -> (r: (usize, usize))
    ensures
        r.0 == (epoch as int % 10) * (total as int / 10),
        r.1 == r.0 + total as int / 10,
        r.1 <= total,
{
    let shard = (epoch % SHARD_COUNT) as usize;
    let len = total / SHARD_COUNT as usize;
    proof {
        lemma_fundamental_div_mod(total as int, 10);
        assert(10 * (total as int / 10) <= total);
        assert(shard * len + len <= 10 * len) by (nonlinear_arith)
            requires
                0 <= shard < 10,
                len >= 0,
        ;
    }
    let start = shard * len;
    (start, start + len)
}

/// Whether the stepped-down learning rate applies in `epoch`: from the
/// midpoint of the planned epochs on.
pub fn use_reduced_rate(epoch: u64, epochs: u64) -> (r: bool)
    ensures
        r == (epoch >= epochs / 2),
{
    epoch >= epochs / 2
}

/// The decimal digits of `n` as bytes, most significant first.
pub open spec fn dec_digits(n: int) -> Seq<u8>
    recommends
        n >= 0,
    decreases n,
{
    if n < 10 {
        seq![(48 + n) as u8]
    } else {
        dec_digits(n / 10) + seq![(48 + n % 10) as u8]
    }
}

/// Render a number as its decimal digit bytes.
pub fn dec_bytes(n: u64) -> (r: Vec<u8>)
    ensures
        r@ == dec_digits(n as int),
{
    if n == 0 {
        let mut r: Vec<u8> = Vec::new();
        r.push(48);
        proof {
            assert(r@ =~= dec_digits(0));
        }
        return r;
    }
    let mut m: u64 = n;
    let mut rev: Vec<u8> = Vec::new();
    proof {
        assert(dec_digits(n as int) =~= dec_digits(n as int) + rev@.reverse());
    }
    while m > 0
        invariant
            m > 0 ==> dec_digits(n as int) == dec_digits(m as int) + rev@.reverse(),
            m == 0 ==> rev@.len() > 0 && dec_digits(n as int) == rev@.reverse(),
        decreases m,
    {
        let ghost old_m = m as int;
        let ghost old_rev = rev@;
        let d = (m % 10) as u8 + 48;
        rev.push(d);
        m = m / 10;
        proof {
            assert(rev@.reverse() =~= seq![d] + old_rev.reverse());
            if old_m < 10 {
                assert(dec_digits(old_m) == seq![d]);
                assert(dec_digits(n as int) =~= rev@.reverse());
            } else {
                assert(dec_digits(old_m) == dec_digits(old_m / 10) + seq![(48 + old_m % 10) as u8]);
                assert(dec_digits(n as int) =~= dec_digits(m as int) + rev@.reverse());
            }
        }
    }
    let mut out: Vec<u8> = Vec::new();
    let mut i: usize = rev.len();
    proof {
        assert(out@ =~= rev@.reverse().take(rev@.len() as int - i as int));
    }
    while i > 0
        invariant
            i <= rev@.len(),
            out@ == rev@.reverse().take(rev@.len() as int - i as int),
        decreases i,
    {
        i = i - 1;
        let b = rev[i];
        out.push(b);
        proof {
            assert(rev@.reverse()[rev@.len() as int - i as int - 1] == rev@[i as int]);
            assert(out@ =~= rev@.reverse().take(rev@.len() as int - i as int));
        }
    }
    proof {
        assert(rev@.reverse().take(rev@.len() as int) =~= rev@.reverse());
    }
    out
}

/// The bytes of the checkpoint file name that an epoch's weights are saved
/// under: `./`, the run's prefix, `epoch_`, the epoch number in decimal,
/// and `.nn`.
pub open spec fn checkpoint_name_spec(prefix: Seq<u8>, epoch: int) -> Seq<u8> {
    seq![46u8, 47u8] + prefix + seq![101u8, 112u8, 111u8, 99u8, 104u8, 95u8] + dec_digits(epoch)
        + seq![46u8, 110u8, 110u8]
}

/// Append every byte of `s` to `r`.
fn push_all(r: &mut Vec<u8>, s: &[u8])
    ensures
        final(r)@ == old(r)@ + s@,
{
    let mut i: usize = 0;
    proof {
        assert(r@ =~= r@ + s@.take(0));
    }
    while i < s.len()
        invariant
            i <= s@.len(),
            r@ == old(r)@ + s@.take(i as int),
        decreases s@.len() - i,
    {
        let b = s[i];
        r.push(b);
        i = i + 1;
        proof {
            assert(r@ =~= old(r)@ + s@.take(i as int));
        }
    }
    proof {
        assert(old(r)@ + s@.take(s@.len() as int) =~= old(r)@ + s@);
    }
}

/// Build the checkpoint file name for one epoch, `./<prefix>epoch_<n>.nn`.
pub fn checkpoint_name(prefix: &[u8], epoch: u64) -> (r: Vec<u8>)
    ensures
        r@ == checkpoint_name_spec(prefix@, epoch as int),
{
    let mut r: Vec<u8> = Vec::new();
    r.push(46);
    r.push(47);
    push_all(&mut r, prefix);
    let ghost with_prefix = r@;
    r.push(101);
    r.push(112);
    r.push(111);
    r.push(99);
    r.push(104);
    r.push(95);
    let ghost with_word = r@;
    proof {
        assert(with_word =~= with_prefix + seq![101u8, 112u8, 111u8, 99u8, 104u8, 95u8]);
    }
    let digits = dec_bytes(epoch);
    push_all(&mut r, digits.as_slice());
    r.push(46);
    r.push(110);
    r.push(110);
    proof {
        assert(r@ =~= checkpoint_name_spec(prefix@, epoch as int));
    }
    r
}

/// How many positions of two equal-length prediction and label sequences
/// agree.
pub open spec fn match_count(preds: Seq<bool>, labels: Seq<bool>) -> int
    recommends
        preds.len() == labels.len(),
    decreases preds.len(),
{
    if preds.len() == 0 {
        0
    } else {
        match_count(preds.drop_last(), labels.drop_last()) + if preds.last() == labels.last() {
            1int
        } else {
            0int
        }
    }
}

/// Count the validation successes: the positions where the predicted label
/// agrees with the true one.
pub fn count_successes(preds: &Vec<bool>, labels: &Vec<bool>) -> (r: usize)
    requires
        preds@.len() == labels@.len(),
    ensures
        r == match_count(preds@, labels@),
{
    let mut acc: usize = 0;
    let mut i: usize = 0;
    proof {
        assert(preds@.take(0) =~= Seq::<bool>::empty());
        assert(labels@.take(0) =~= Seq::<bool>::empty());
    }
    while i < preds.len()
        invariant
            i <= preds@.len(),
            preds@.len() == labels@.len(),
            acc <= i,
            acc == match_count(preds@.take(i as int), labels@.take(i as int)),
        decreases preds@.len() - i,
    {
        let p = preds[i];
        let l = labels[i];
        proof {
            let pi = preds@.take(i + 1);
            let li = labels@.take(i + 1);
            assert(pi.drop_last() =~= preds@.take(i as int));
            assert(li.drop_last() =~= labels@.take(i as int));
            assert(pi.last() == preds@[i as int]);
            assert(li.last() == labels@[i as int]);
        }
        if p == l {
            acc = acc + 1;
        }
        i = i + 1;
    }
    proof {
        assert(preds@.take(preds@.len() as int) =~= preds@);
        assert(labels@.take(labels@.len() as int) =~= labels@);
    }
    acc
}

} // verus!
