//! Version assigner: logical (Lamport-style) clocks for written objects.
//!
//! Every object written by a transaction receives the version
//! `1 + max(versions of all objects the write causally depends on)` --
//! its own prior version, if any, plus every other object read or written
//! by the same transaction, including the gas object.

use vstd::prelude::*;

verus! {

/// Greatest element of a sequence of versions; `0` for the empty sequence.
pub open spec fn seq_max(s: Seq<u64>) -> nat
    decreases s.len(),
{
    if s.len() == 0 {
        0
    } else {
        let rest = seq_max(s.drop_last());
        if s.last() as nat > rest {
            s.last() as nat
        } else {
            rest
        }
    }
}

/// The logical-clock successor of a set of causal input versions.
pub open spec fn lamport_successor(s: Seq<u64>) -> nat {
    seq_max(s) + 1
}

/// Every element of a sequence is bounded by the sequence's maximum.
pub proof fn lemma_seq_max_ge(s: Seq<u64>, i: int)
    requires
        0 <= i < s.len(),
    ensures
        s[i] as nat <= seq_max(s),
    decreases s.len(),
{
    if i < s.len() - 1 {
        lemma_seq_max_ge(s.drop_last(), i);
    }
}

/// Computes the next logical version from the versions of all causal
/// dependencies of a write.  The result strictly dominates every input
/// version, so no object is ever assigned the same version twice along
/// one causal chain.
pub fn lamport_increment(inputs: &Vec<u64>) -> (v: u64)
    requires
        seq_max(inputs@) < u64::MAX,
    ensures
        v as nat == lamport_successor(inputs@),
        forall|i: int| 0 <= i < inputs@.len() ==> inputs@[i] < v,
{
    let mut max: u64 = 0;
    let mut i: usize = 0;
    while i < inputs.len()
        invariant
            i <= inputs.len(),
            max as nat == seq_max(inputs@.take(i as int)),
            seq_max(inputs@) < u64::MAX,
        decreases inputs.len() - i,
    {
        proof {
            assert(inputs@.take(i + 1).drop_last() =~= inputs@.take(i as int));
            lemma_seq_max_ge(inputs@, i as int);
        }
        if inputs[i] > max {
            max = inputs[i];
        }
        proof {
            lemma_take_max_le(inputs@, i + 1);
        }
        i = i + 1;
    }
    proof {
        assert(inputs@.take(inputs@.len() as int) =~= inputs@);
        assert forall|j: int| 0 <= j < inputs@.len() implies inputs@[j] < max + 1 by {
            lemma_seq_max_ge(inputs@, j);
        }
    }
    max + 1
}

/// The maximum of a prefix never exceeds the maximum of the whole sequence.
pub proof fn lemma_take_max_le(s: Seq<u64>, n: int)
    requires
        0 <= n <= s.len(),
    ensures
        seq_max(s.take(n)) <= seq_max(s),
    decreases s.len() - n,
{
    if n < s.len() {
        lemma_take_max_le(s, n + 1);
        assert(s.take(n + 1).drop_last() =~= s.take(n));
    } else {
        assert(s.take(n) =~= s);
    }
}

} // verus!
