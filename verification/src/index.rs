//! Reduction of a rolled digit sequence to a single wordlist index.

use vstd::prelude::*;

verus! {

/// Value of a digit sequence read left to right: each step multiplies the
/// accumulator by ten and adds the next entry.
pub open spec fn to_index_spec(ns: Seq<usize>) -> int
    decreases ns.len(),
{
    if ns.len() == 0 {
        0
    } else {
        to_index_spec(ns.drop_last()) * 10 + ns.last()
    }
}

pub proof fn lemma_to_index_nonneg(ns: Seq<usize>)
    ensures
        to_index_spec(ns) >= 0,
    decreases ns.len(),
{
    if ns.len() > 0 {
        lemma_to_index_nonneg(ns.drop_last());
    }
}

/// Extending a digit sequence on the right never decreases its value.
pub proof fn lemma_to_index_prefix(ns: Seq<usize>, i: int)
    requires
        0 <= i <= ns.len(),
    ensures
        to_index_spec(ns.take(i)) <= to_index_spec(ns),
    decreases ns.len() - i,
{
    if i == ns.len() {
        assert(ns.take(i) =~= ns);
    } else {
        lemma_to_index_prefix(ns, i + 1);
        assert(ns.take(i + 1).drop_last() =~= ns.take(i));
        assert(ns.take(i + 1).last() == ns[i]);
        lemma_to_index_nonneg(ns.take(i));
    }
}

/// Ten to the given power.
pub open spec fn pow10(n: nat) -> int
    decreases n,
{
    if n == 0 {
        1
    } else {
        10 * pow10((n - 1) as nat)
    }
}

/// A sequence of single decimal digits always folds to fewer digits than
/// ten to its length.
pub proof fn lemma_to_index_bound(ns: Seq<usize>)
    requires
        forall|i: int| 0 <= i < ns.len() ==> ns[i] <= 9,
    ensures
        0 <= to_index_spec(ns) < pow10(ns.len()),
    decreases ns.len(),
{
    if ns.len() > 0 {
        lemma_to_index_bound(ns.drop_last());
    }
}

/// Positional reading of a digit sequence: the first digit weighs ten to
/// the power of the remaining length, and so on down to the last digit.
pub open spec fn numeral_value(ns: Seq<usize>) -> int
    decreases ns.len(),
{
    if ns.len() == 0 {
        0
    } else {
        ns.first() * pow10((ns.len() - 1) as nat) + numeral_value(ns.drop_first())
    }
}

proof fn lemma_numeral_snoc(ns: Seq<usize>, d: usize)
    ensures
        numeral_value(ns.push(d)) == numeral_value(ns) * 10 + d,
    decreases ns.len(),
{
    if ns.len() == 0 {
        reveal_with_fuel(numeral_value, 2);
        assert(ns.push(d).first() == d);
        assert(ns.push(d).drop_first() =~= Seq::<usize>::empty());
        assert(numeral_value(ns.push(d)) == d * pow10(0) + 0);
        assert(numeral_value(ns.push(d)) == numeral_value(ns) * 10 + d);
    } else {
        lemma_numeral_snoc(ns.drop_first(), d);
        assert(ns.push(d).drop_first() =~= ns.drop_first().push(d));
        assert(ns.push(d).first() == ns.first());
        let a = ns.first() as int;
        let p = pow10((ns.len() - 1) as nat);
        let nv = numeral_value(ns.drop_first());
        assert(pow10(ns.len() as nat) == 10 * p);
        assert(numeral_value(ns.push(d)) == a * (10 * p) + (nv * 10 + d));
        assert(a * (10 * p) == (a * p) * 10) by (nonlinear_arith);
        assert(numeral_value(ns.push(d)) == (a * p) * 10 + nv * 10 + d);
        assert(numeral_value(ns) == a * p + nv);
        assert(numeral_value(ns) * 10 == (a * p) * 10 + nv * 10);
        assert(numeral_value(ns.push(d)) == numeral_value(ns) * 10 + d);
    }
}

/// For every digit sequence, the left-to-right fold equals the base-ten
/// integer formed by reading the digits as a numeral.
pub proof fn lemma_to_index_is_numeral(ns: Seq<usize>)
    ensures
        to_index_spec(ns) == numeral_value(ns),
    decreases ns.len(),
{
    if ns.len() > 0 {
        lemma_to_index_is_numeral(ns.drop_last());
        lemma_numeral_snoc(ns.drop_last(), ns.last());
        assert(ns.drop_last().push(ns.last()) =~= ns);
    }
}

/// Folds the digits of all rolls in one run into the index of the word
/// they select.
pub(crate) fn digit_fold(ns: &Vec<usize>) -> (n: usize)
    requires
        to_index_spec(ns@) <= usize::MAX,
    ensures
        n == to_index_spec(ns@),
{
    let mut acc: usize = 0;
    let mut i: usize = 0;
    while i < ns.len()
        invariant
            0 <= i <= ns@.len(),
            to_index_spec(ns@) <= usize::MAX,
            acc == to_index_spec(ns@.take(i as int)),
        decreases ns@.len() - i,
    {
        proof {
            assert(ns@.take(i + 1).drop_last() =~= ns@.take(i as int));
            assert(ns@.take(i + 1).last() == ns@[i as int]);
            lemma_to_index_prefix(ns@, i + 1);
            lemma_to_index_nonneg(ns@.take(i as int));
        }
        acc = acc * 10 + ns[i];
        i += 1;
    }
    proof {
        assert(ns@.take(ns@.len() as int) =~= ns@);
    }
    acc
}

/// Reduces a vector of rolled numbers to the single number used as an index
/// into a Diceware wordlist.
pub fn to_index(ns: Vec<usize>) -> (n: usize)
    requires
        to_index_spec(ns@) <= usize::MAX,
    ensures
        n == to_index_spec(ns@),
{
    digit_fold(&ns)
}

} // verus!
