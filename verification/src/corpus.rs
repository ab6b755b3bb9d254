//! Corpus handling: splitting raw corpus text into entries on blank lines,
//! building a balanced labeled dataset, and carving off the validation slice.
//!
//! A corpus file is one block of text whose entries are separated by a blank
//! line, that is by two consecutive newline bytes. The balanced dataset takes
//! entries from one target corpus and two other corpora in rotation until the
//! shortest is exhausted, so its size is exactly three times the shortest
//! corpus length; what remains of the longer corpora is dropped.

use vstd::prelude::*;
use vstd::slice::slice_to_vec;

verus! {

/// The newline byte; two in a row separate corpus entries.
pub const NEWLINE: u8 = 10;

/// Splitting a byte text on every occurrence of two consecutive newlines,
/// scanning left to right with non-overlapping separators. The empty text
/// yields one empty entry.
pub open spec fn split_blank(s: Seq<u8>) -> Seq<Seq<u8>>
    decreases s.len(),
{
    if s.len() >= 2 && s[0] == NEWLINE && s[1] == NEWLINE {
        seq![Seq::<u8>::empty()] + split_blank(s.skip(2))
    } else if s.len() >= 1 {
        let rest = split_blank(s.skip(1));
        seq![seq![s[0]] + rest[0]] + rest.skip(1)
    } else {
        seq![s]
    }
}

/// A split always yields at least one entry.
pub proof fn lemma_split_blank_len(s: Seq<u8>)
    ensures
        split_blank(s).len() >= 1,
    decreases s.len(),
{
    if s.len() >= 2 && s[0] == NEWLINE && s[1] == NEWLINE {
        lemma_split_blank_len(s.skip(2));
    } else if s.len() >= 1 {
        lemma_split_blank_len(s.skip(1));
    }
}

/// Split corpus text into its entries: the pieces between blank lines, in
/// file order, with nothing dropped and nothing deduplicated.
pub fn split_entries(text: &[u8]) -> (r: Vec<Vec<u8>>)
    ensures
        r.deep_view() == split_blank(text@),
{
    let mut out: Vec<Vec<u8>> = Vec::new();
    let mut cur: Vec<u8> = Vec::new();
    let mut i: usize = 0;
    proof {
        lemma_split_blank_len(text@);
        assert(text@.skip(0) =~= text@);
        let full = split_blank(text@);
        assert(out.deep_view() + seq![cur@ + full[0]] + full.skip(1) =~~= full);
    }
    while i < text.len()
        invariant
            i <= text@.len(),
            out.deep_view() + seq![cur@ + split_blank(text@.skip(i as int))[0]]
                + split_blank(text@.skip(i as int)).skip(1) == split_blank(text@),
        decreases text@.len() - i,
    {
        let ghost full = split_blank(text@);
        let ghost rest = split_blank(text@.skip(i as int));
        if i + 1 < text.len() && text[i] == NEWLINE && text[i + 1] == NEWLINE {
            proof {
                let s_i = text@.skip(i as int);
                assert(s_i.len() >= 2 && s_i[0] == NEWLINE && s_i[1] == NEWLINE);
                assert(s_i.skip(2) =~= text@.skip(i + 2));
                let rest2 = split_blank(text@.skip(i + 2));
                lemma_split_blank_len(text@.skip(i + 2));
                assert(rest == seq![Seq::<u8>::empty()] + rest2);
                assert(rest[0] == Seq::<u8>::empty());
                assert(rest.skip(1) =~~= rest2);
                assert(cur@ + rest[0] =~= cur@);
            }
            let ghost old_out_dv = out.deep_view();
            let ghost old_cur = cur@;
            out.push(cur);
            cur = Vec::new();
            i = i + 2;
            proof {
                let rest2 = split_blank(text@.skip(i as int));
                assert(out.deep_view() =~~= old_out_dv.push(old_cur));
                assert(rest2 =~~= seq![rest2[0]] + rest2.skip(1));
                assert(out.deep_view() + seq![cur@ + rest2[0]] + rest2.skip(1)
                    =~~= old_out_dv + seq![old_cur + rest[0]] + rest.skip(1));
            }
        } else {
            proof {
                let s_i = text@.skip(i as int);
                assert(s_i.len() >= 1);
                assert(s_i[0] == text@[i as int]);
                assert(!(s_i.len() >= 2 && s_i[0] == NEWLINE && s_i[1] == NEWLINE));
                assert(s_i.skip(1) =~= text@.skip(i + 1));
                let rest1 = split_blank(text@.skip(i + 1));
                lemma_split_blank_len(text@.skip(i + 1));
                assert(rest == seq![seq![s_i[0]] + rest1[0]] + rest1.skip(1));
                assert(rest[0] == seq![text@[i as int]] + rest1[0]);
                assert(rest.skip(1) =~~= rest1.skip(1));
            }
            let ghost old_cur = cur@;
            let b = text[i];
            cur.push(b);
            i = i + 1;
            proof {
                let rest1 = split_blank(text@.skip(i as int));
                assert(cur@ =~= old_cur.push(b));
                assert(cur@ + rest1[0] =~= old_cur + (seq![b] + rest1[0]));
                assert(out.deep_view() + seq![cur@ + rest1[0]] + rest1.skip(1)
                    =~~= out.deep_view() + seq![old_cur + rest[0]] + rest.skip(1));
            }
        }
    }
    proof {
        let s_end = text@.skip(i as int);
        assert(s_end =~= Seq::<u8>::empty());
        assert(s_end.len() == 0);
        let rest = split_blank(s_end);
        assert(rest == seq![s_end]);
        assert(rest[0] =~= Seq::<u8>::empty());
        assert(cur@ + rest[0] =~= cur@);
        assert(rest.skip(1) =~~= Seq::<Seq<u8>>::empty());
    }
    let ghost old_out_dv = out.deep_view();
    let ghost old_cur = cur@;
    out.push(cur);
    proof {
        assert(out.deep_view() =~~= old_out_dv.push(old_cur));
        assert(out.deep_view() =~~= split_blank(text@));
    }
    out
}

/// One labeled example: an entry's bytes and whether the target author
/// wrote it.
pub struct Entry {
    pub text: Vec<u8>,
    pub label: bool,
}

/// The smallest of three lengths.
pub open spec fn min3(a: int, b: int, c: int) -> int {
    if a <= b && a <= c {
        a
    } else if b <= c {
        b
    } else {
        c
    }
}

/// A fresh copy of a byte vector.
pub(crate) fn copy_bytes(v: &Vec<u8>) -> (r: Vec<u8>)
    ensures
        r@ == v@,
{
    slice_to_vec(v.as_slice())
}

/// Build the balanced dataset: take one entry of `other_a` (labeled false),
/// one of `target` (labeled true) and one of `other_b` (labeled false) per
/// round, until the shortest corpus is exhausted. The result holds exactly
/// three entries per round; the longer corpora's leftovers are dropped.
pub fn build_balanced(target: &Vec<Vec<u8>>, other_a: &Vec<Vec<u8>>, other_b: &Vec<Vec<u8>>) -> (r:
    Vec<Entry>)
    ensures
        r@.len() == 3 * min3(target@.len() as int, other_a@.len() as int, other_b@.len() as int),
        forall|j: int| 0 <= j < r@.len() ==> (#[trigger] r@[j]).label == (j % 3 == 1),
        forall|j: int|
            0 <= j < r@.len() ==> (#[trigger] r@[j]).text@ == (if j % 3 == 0 {
                other_a@[j / 3]@
            } else if j % 3 == 1 {
                target@[j / 3]@
            } else {
                other_b@[j / 3]@
            }),
{
    let mut m = target.len();
    if other_a.len() < m {
        m = other_a.len();
    }
    if other_b.len() < m {
        m = other_b.len();
    }
    assert(m == min3(target@.len() as int, other_a@.len() as int, other_b@.len() as int));
    let mut r: Vec<Entry> = Vec::new();
    let mut k: usize = 0;
    while k < m
        invariant
            k <= m,
            m <= target@.len(),
            m <= other_a@.len(),
            m <= other_b@.len(),
            r@.len() == 3 * k,
            forall|j: int| 0 <= j < r@.len() ==> (#[trigger] r@[j]).label == (j % 3 == 1),
            forall|j: int|
                0 <= j < r@.len() ==> (#[trigger] r@[j]).text@ == (if j % 3 == 0 {
                    other_a@[j / 3]@
                } else if j % 3 == 1 {
                    target@[j / 3]@
                } else {
                    other_b@[j / 3]@
                }),
        decreases m - k,
    {
        r.push(Entry { text: copy_bytes(&other_a[k]), label: false });
        r.push(Entry { text: copy_bytes(&target[k]), label: true });
        r.push(Entry { text: copy_bytes(&other_b[k]), label: false });
        proof {
            let kk = k as int;
            assert((3 * kk) / 3 == kk && (3 * kk) % 3 == 0) by (nonlinear_arith)
                requires
                    kk >= 0,
            ;
            assert((3 * kk + 1) / 3 == kk && (3 * kk + 1) % 3 == 1) by (nonlinear_arith)
                requires
                    kk >= 0,
            ;
            assert((3 * kk + 2) / 3 == kk && (3 * kk + 2) % 3 == 2) by (nonlinear_arith)
                requires
                    kk >= 0,
            ;
        }
        k = k + 1;
    }
    r
}

/// Carve the held-out validation slice off the front of the dataset: the
/// first fifth validates and is never trained on; the rest trains. Returns
/// `(validation, training)`.
pub fn split_validation(data: Vec<Entry>) -> (r: (Vec<Entry>, Vec<Entry>))
    ensures
        r.0@ == data@.subrange(0, data@.len() as int / 5),
        r.1@ == data@.subrange(data@.len() as int / 5, data@.len() as int),
{
    let mut validation = data;
    let at = validation.len() / 5;
    let training = validation.split_off(at);
    (validation, training)
}

} // verus!
