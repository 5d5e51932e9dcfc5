//! The population: all species, and the generation loop — speciation,
//! stagnation filtering, offspring allotment, reproduction and
//! evaluation.

use vstd::prelude::*;
use vstd::multiset::Multiset;
use vstd::seq_lib::group_to_multiset_ensures;
use crate::RealBits;
use crate::arith::{valid_fitness_bits, RealArith, INFINITY_BITS, QUARTER_BITS, SIGN_BIT, ZERO_BITS};
use crate::genome::{ids_below, GenomeView, NeuralNetwork};
use crate::organism::Organism;
use crate::params::NeatParams;
use crate::rng::random_below;
use crate::specie::{organisms_ids_below, organisms_wf, Specie};

verus! {

/// The errors the evolution loop can report.
#[derive(Clone, Copy, Debug, PartialEq, Eq, Structural)]
pub enum NeatError {
    /// The environment returned a negative or non-finite fitness; the
    /// selection distribution would be corrupted, so the generation is
    /// aborted.
    InvalidFitness,
}

/// A caller-supplied fitness oracle: given a genome, return a
/// non-negative finite fitness as double bits.  A negative or
/// non-finite result aborts the generation with
/// [`NeatError::InvalidFitness`].
pub trait Environment {
    /// Score a genome.
    fn test(&self, genome: &NeuralNetwork) -> RealBits;
}

/// The genome-and-fitness content of one member list.
pub open spec fn org_views(s: Seq<Organism>) -> Seq<(GenomeView, RealBits)> {
    s.map_values(|o: Organism| (o.genome@, o.fitness))
}

/// The `(genome, fitness)` pairs of the first `upto` species,
/// concatenated in species order, members in order within each.
pub open spec fn views_concat(sp: Seq<Specie>, upto: int) -> Seq<(GenomeView, RealBits)>
    decreases upto,
{
    if upto <= 0 {
        Seq::empty()
    } else {
        views_concat(sp, upto - 1) + org_views(sp[upto - 1].organisms@)
    }
}

/// The multiset of `(genome, fitness)` pairs held by the first `upto`
/// species.
pub open spec fn views_flat(sp: Seq<Specie>, upto: int) -> Multiset<(GenomeView, RealBits)>
    decreases upto,
{
    if upto <= 0 {
        Multiset::empty()
    } else {
        views_flat(sp, upto - 1).add(org_views(sp[upto - 1].organisms@).to_multiset())
    }
}

/// The multiset of `(genome, fitness)` pairs held by a species list.
pub open spec fn population_views(sp: Seq<Specie>) -> Multiset<(GenomeView, RealBits)> {
    views_flat(sp, sp.len() as int)
}

/// The number of organisms held by a species list.
pub open spec fn population_count(sp: Seq<Specie>) -> int {
    population_views(sp).len() as int
}

/// Every species has a cached champion that is one of its members and
/// bounds their fitness.
pub open spec fn champions_set(sp: Seq<Specie>) -> bool {
    forall|i: int|
        0 <= i < sp.len() ==> (#[trigger] sp[i]).champion is Some && crate::specie::is_champion_of(
            sp[i].champion->Some_0,
            sp[i].organisms@,
        )
}

/// The species are in descending order of cached champion fitness.
pub open spec fn species_sorted(sp: Seq<Specie>) -> bool {
    forall|a: int, b: int|
        0 <= a <= b < sp.len() ==> sp[a].champion->Some_0.fitness >= sp[b].champion->Some_0.fitness
}

/// Appending a species adds its contents.
proof fn lemma_views_flat_push(sp: Seq<Specie>, s: Specie, upto: int)
    requires
        0 <= upto <= sp.len(),
    ensures
        views_flat(sp.push(s), upto) == views_flat(sp, upto),
    decreases upto,
{
    if upto > 0 {
        lemma_views_flat_push(sp, s, upto - 1);
        assert(sp.push(s)[upto - 1] == sp[upto - 1]);
    }
}

/// Pushing one organism into one species inserts one pair into the
/// species list's contents.
proof fn lemma_views_flat_update(sp: Seq<Specie>, sp2: Seq<Specie>, j: int, upto: int)
    requires
        0 <= j < sp.len(),
        sp2.len() == sp.len(),
        0 <= upto <= sp.len(),
        forall|i: int| 0 <= i < sp.len() && i != j ==> sp2[i] == sp[i],
        sp2[j].organisms@ == sp[j].organisms@.push(sp2[j].organisms@.last()),
    ensures
        views_flat(sp2, upto) == (if j < upto {
            views_flat(sp, upto).insert(
                (sp2[j].organisms@.last().genome@, sp2[j].organisms@.last().fitness),
            )
        } else {
            views_flat(sp, upto)
        }),
    decreases upto,
{
    broadcast use group_to_multiset_ensures;

    if upto > 0 {
        lemma_views_flat_update(sp, sp2, j, upto - 1);
        if j == upto - 1 {
            let o = sp2[j].organisms@.last();
            assert(org_views(sp2[j].organisms@) =~= org_views(sp[j].organisms@).push(
                (o.genome@, o.fitness),
            ));
            assert(org_views(sp2[j].organisms@).to_multiset() =~= org_views(
                sp[j].organisms@,
            ).to_multiset().insert((o.genome@, o.fitness)));
            assert(views_flat(sp2, upto) =~= views_flat(sp, upto).insert((o.genome@, o.fitness)));
        } else {
            assert(sp2[upto - 1] == sp[upto - 1]);
            if j < upto - 1 {
                let o = sp2[j].organisms@.last();
                assert(views_flat(sp2, upto) =~= views_flat(sp, upto).insert(
                    (o.genome@, o.fitness),
                ));
            }
        }
    }
}

/// A prefix of the species list holds no more organisms than the
/// whole list.
proof fn lemma_views_flat_le(sp: Seq<Specie>, upto: int)
    requires
        0 <= upto <= sp.len(),
    ensures
        views_flat(sp, upto).len() <= population_views(sp).len(),
    decreases sp.len() - upto,
{
    broadcast use vstd::multiset::group_multiset_axioms;

    if upto < sp.len() {
        lemma_views_flat_le(sp, upto + 1);
    }
}

/// Species without members contribute nothing.
proof fn lemma_views_flat_empty(sp: Seq<Specie>, upto: int)
    requires
        0 <= upto <= sp.len(),
        forall|i: int| 0 <= i < upto ==> (#[trigger] sp[i]).organisms@.len() == 0,
    ensures
        views_flat(sp, upto) == Multiset::<(GenomeView, RealBits)>::empty(),
    decreases upto,
{
    broadcast use vstd::multiset::group_multiset_axioms;
    broadcast use group_to_multiset_ensures;

    if upto > 0 {
        lemma_views_flat_empty(sp, upto - 1);
        assert(org_views(sp[upto - 1].organisms@) =~= Seq::<(GenomeView, RealBits)>::empty());
        assert(views_flat(sp, upto) =~= Multiset::<(GenomeView, RealBits)>::empty());
    }
}

/// A species list's contents split off its first species.
proof fn lemma_views_flat_first(sp: Seq<Specie>)
    requires
        sp.len() > 0,
    ensures
        population_views(sp) == org_views(sp[0].organisms@).to_multiset().add(
            population_views(sp.drop_first()),
        ),
    decreases sp.len(),
{
    broadcast use vstd::multiset::group_multiset_axioms;

    let t = sp.drop_first();
    if sp.len() == 1 {
        assert(views_flat(sp, 0) == Multiset::<(GenomeView, RealBits)>::empty());
        assert(population_views(t) == Multiset::<(GenomeView, RealBits)>::empty());
        assert(population_views(sp) =~= org_views(sp[0].organisms@).to_multiset().add(
            population_views(t),
        ));
    } else {
        let n = sp.len() as int;
        let last = org_views(sp[n - 1].organisms@).to_multiset();
        assert(t[t.len() - 1] == sp[n - 1]);
        lemma_views_flat_first(sp.drop_last());
        assert(sp.drop_last().drop_first() =~= t.drop_last());
        lemma_views_flat_prefix(sp, sp.drop_last(), n - 1);
        lemma_views_flat_prefix(t, t.drop_last(), t.len() as int - 1);
        assert(population_views(sp) == views_flat(sp, n - 1).add(last));
        assert(views_flat(sp, n - 1) == population_views(sp.drop_last()));
        assert(population_views(sp.drop_last()) == org_views(sp[0].organisms@).to_multiset().add(
            population_views(t.drop_last()),
        ));
        assert(population_views(t) == views_flat(t, t.len() - 1).add(last));
        assert(views_flat(t, t.len() - 1) == population_views(t.drop_last()));
        let ov0 = org_views(sp[0].organisms@).to_multiset();
        let b = population_views(t.drop_last());
        assert(population_views(sp) == ov0.add(b).add(last));
        assert(population_views(t) == b.add(last));
        assert forall|x: (GenomeView, RealBits)|
            ov0.add(b).add(last).count(x) == ov0.add(b.add(last)).count(x) by {
            assert(ov0.add(b).add(last).count(x) == ov0.count(x) + b.count(x) + last.count(x));
            assert(ov0.add(b.add(last)).count(x) == ov0.count(x) + b.count(x) + last.count(x));
        }
        assert(ov0.add(b).add(last) =~= ov0.add(b.add(last)));
        assert(population_views(sp) =~= org_views(sp[0].organisms@).to_multiset().add(
            population_views(t),
        ));
    }
}

/// Two species lists that agree on a prefix have the same contents
/// over that prefix.
proof fn lemma_views_flat_prefix(a: Seq<Specie>, b: Seq<Specie>, upto: int)
    requires
        0 <= upto <= a.len(),
        upto <= b.len(),
        forall|i: int| 0 <= i < upto ==> a[i] == b[i],
    ensures
        views_flat(a, upto) == views_flat(b, upto),
    decreases upto,
{
    if upto > 0 {
        lemma_views_flat_prefix(a, b, upto - 1);
    }
}

/// Appending a species to a list adds that species' contents.
proof fn lemma_population_views_push(sp: Seq<Specie>, s: Specie)
    ensures
        population_views(sp.push(s)) == population_views(sp).add(
            org_views(s.organisms@).to_multiset(),
        ),
{
    lemma_views_flat_push(sp, s, sp.len() as int);
    assert(sp.push(s)[sp.len() as int] == s);
}

/// Species lists whose members agree position by position hold the
/// same contents (other fields may differ).
proof fn lemma_views_flat_same_organisms(a: Seq<Specie>, b: Seq<Specie>, upto: int)
    requires
        a.len() == b.len(),
        0 <= upto <= a.len(),
        forall|i: int| 0 <= i < a.len() ==> (#[trigger] b[i]).organisms@ == a[i].organisms@,
    ensures
        views_flat(a, upto) == views_flat(b, upto),
    decreases upto,
{
    if upto > 0 {
        lemma_views_flat_same_organisms(a, b, upto - 1);
    }
}

/// A member's `(genome, fitness)` pair is counted in the species
/// list's contents.
proof fn lemma_views_flat_member(sp: Seq<Specie>, j: int, idx: int)
    requires
        0 <= j < sp.len(),
        0 <= idx < sp[j].organisms@.len(),
    ensures
        population_views(sp).count((sp[j].organisms@[idx].genome@, sp[j].organisms@[idx].fitness))
            > 0,
{
    broadcast use vstd::multiset::group_multiset_axioms;
    broadcast use group_to_multiset_ensures;

    let pair = (sp[j].organisms@[idx].genome@, sp[j].organisms@[idx].fitness);
    assert(org_views(sp[j].organisms@)[idx] == pair);
    assert(org_views(sp[j].organisms@).contains(pair));
    assert(org_views(sp[j].organisms@).to_multiset().count(pair) > 0);
    lemma_views_flat_member_helper(sp, j, pair);
}

proof fn lemma_views_flat_member_helper(sp: Seq<Specie>, j: int, pair: (GenomeView, RealBits))
    requires
        0 <= j < sp.len(),
        org_views(sp[j].organisms@).to_multiset().count(pair) > 0,
    ensures
        population_views(sp).count(pair) > 0,
    decreases sp.len(),
{
    broadcast use vstd::multiset::group_multiset_axioms;

    if j == sp.len() - 1 {
    } else {
        lemma_views_flat_member_helper(sp.drop_last(), j, pair);
        lemma_views_flat_prefix(sp, sp.drop_last(), sp.len() - 1);
    }
}

/// A pair counted in the species list's contents is some member's.
proof fn lemma_views_flat_member_exists(sp: Seq<Specie>, pair: (GenomeView, RealBits), upto: int)
    requires
        0 <= upto <= sp.len(),
        views_flat(sp, upto).count(pair) > 0,
    ensures
        exists|i: int, j: int|
            0 <= i < upto && 0 <= j < sp[i].organisms@.len() && (
            #[trigger] sp[i].organisms@[j]).genome@ == pair.0 && sp[i].organisms@[j].fitness
                == pair.1,
    decreases upto,
{
    broadcast use vstd::multiset::group_multiset_axioms;
    broadcast use group_to_multiset_ensures;

    if upto > 0 {
        if org_views(sp[upto - 1].organisms@).to_multiset().count(pair) > 0 {
            let ov = org_views(sp[upto - 1].organisms@);
            assert(ov.contains(pair));
            let j = choose|j: int| 0 <= j < ov.len() && ov[j] == pair;
            assert(sp[upto - 1].organisms@[j].genome@ == pair.0);
            assert(sp[upto - 1].organisms@[j].fitness == pair.1);
        } else {
            assert(views_flat(sp, upto - 1).count(pair) > 0);
            lemma_views_flat_member_exists(sp, pair, upto - 1);
        }
    }
}

/// When every species' champion fitness is bounded, so is every
/// member's fitness in the list's contents.
proof fn lemma_views_flat_fitness_bound(sp: Seq<Specie>, bound: RealBits, upto: int)
    requires
        champions_set(sp),
        0 <= upto <= sp.len(),
        forall|i: int| 0 <= i < sp.len() ==> (#[trigger] sp[i]).champion->Some_0.fitness <= bound,
    ensures
        forall|q: (GenomeView, RealBits)| views_flat(sp, upto).count(q) > 0 ==> q.1 <= bound,
    decreases upto,
{
    broadcast use vstd::multiset::group_multiset_axioms;
    broadcast use group_to_multiset_ensures;

    if upto > 0 {
        lemma_views_flat_fitness_bound(sp, bound, upto - 1);
        assert forall|q: (GenomeView, RealBits)|
            views_flat(sp, upto).count(q) > 0 implies q.1 <= bound by {
            assert(views_flat(sp, upto).count(q) == views_flat(sp, upto - 1).count(q) + org_views(
                sp[upto - 1].organisms@,
            ).to_multiset().count(q));
            if org_views(sp[upto - 1].organisms@).to_multiset().count(q) > 0 {
                let ov = org_views(sp[upto - 1].organisms@);
                assert(ov.contains(q));
                let t = choose|t: int| 0 <= t < ov.len() && ov[t] == q;
                assert(sp[upto - 1].organisms@[t].fitness == q.1);
                assert(crate::specie::is_champion_of(
                    sp[upto - 1].champion->Some_0,
                    sp[upto - 1].organisms@,
                ));
                assert(sp[upto - 1].organisms@[t].fitness <= sp[upto
                    - 1].champion->Some_0.fitness);
            }
        }
    }
}

/// The sum of the first `upto` values.
pub open spec fn usum(s: Seq<usize>, upto: int) -> int
    decreases upto,
{
    if upto <= 0 {
        0
    } else {
        usum(s, upto - 1) + s[upto - 1]
    }
}

/// Two share lists that agree on a prefix sum alike over it.
proof fn lemma_usum_prefix(a: Seq<usize>, b: Seq<usize>, upto: int)
    requires
        0 <= upto <= a.len(),
        upto <= b.len(),
        forall|i: int| 0 <= i < upto ==> a[i] == b[i],
    ensures
        usum(a, upto) == usum(b, upto),
    decreases upto,
{
    if upto > 0 {
        lemma_usum_prefix(a, b, upto - 1);
    }
}

/// A sum of zeroes is zero.
proof fn lemma_usum_zero(s: Seq<usize>, upto: int)
    requires
        0 <= upto <= s.len(),
        forall|i: int| 0 <= i < upto ==> s[i] == 0,
    ensures
        usum(s, upto) == 0,
    decreases upto,
{
    if upto > 0 {
        lemma_usum_zero(s, upto - 1);
    }
}

/// Updating one share changes the sum by the difference.
proof fn lemma_usum_update(a: Seq<usize>, b: Seq<usize>, j: int, upto: int)
    requires
        a.len() == b.len(),
        0 <= j < a.len(),
        0 <= upto <= a.len(),
        forall|i: int| 0 <= i < a.len() && i != j ==> a[i] == b[i],
    ensures
        usum(b, upto) == (if j < upto {
            usum(a, upto) - a[j] + b[j]
        } else {
            usum(a, upto)
        }),
    decreases upto,
{
    if upto > 0 {
        lemma_usum_update(a, b, j, upto - 1);
    }
}

/// Appending a value adds it to the sum.
proof fn lemma_usum_push(s: Seq<usize>, v: usize)
    ensures
        usum(s.push(v), s.len() as int + 1) == usum(s, s.len() as int) + v,
{
    lemma_usum_prefix(s.push(v), s, s.len() as int);
    assert(s.push(v)[s.len() as int] == v);
}

/// Sums of non-negative values are non-negative.
proof fn lemma_usum_nonneg(s: Seq<usize>, upto: int)
    requires
        0 <= upto <= s.len(),
    ensures
        usum(s, upto) >= 0,
    decreases upto,
{
    if upto > 0 {
        lemma_usum_nonneg(s, upto - 1);
    }
}

/// Each value is at most the sum it contributes to.
proof fn lemma_usum_le(s: Seq<usize>, j: int, upto: int)
    requires
        0 <= j < upto <= s.len(),
    ensures
        s[j] <= usum(s, upto),
    decreases upto,
{
    lemma_usum_nonneg(s, upto - 1);
    if j < upto - 1 {
        lemma_usum_le(s, j, upto - 1);
    }
}

/// Removing one species splits its contents off the list's.
proof fn lemma_views_flat_remove(sp: Seq<Specie>, m: int)
    requires
        0 <= m < sp.len(),
    ensures
        population_views(sp) == population_views(sp.remove(m)).add(
            org_views(sp[m].organisms@).to_multiset(),
        ),
    decreases sp.len(),
{
    broadcast use vstd::multiset::group_multiset_axioms;

    let n = sp.len() as int;
    let ovm = org_views(sp[m].organisms@).to_multiset();
    if m == n - 1 {
        lemma_views_flat_prefix(sp, sp.remove(m), n - 1);
        assert(sp.remove(m) =~= sp.drop_last());
        assert(population_views(sp) == views_flat(sp, n - 1).add(ovm));
        assert(views_flat(sp.remove(m), n - 1) == population_views(sp.remove(m)));
    } else {
        let last = org_views(sp[n - 1].organisms@).to_multiset();
        lemma_views_flat_remove(sp.drop_last(), m);
        assert(sp.drop_last()[m] == sp[m]);
        lemma_views_flat_prefix(sp, sp.drop_last(), n - 1);
        assert(population_views(sp) == population_views(sp.drop_last()).add(last));
        let r = sp.remove(m);
        assert(r.len() == n - 1);
        assert(r[r.len() - 1] == sp[n - 1]);
        assert(r.drop_last() =~= sp.drop_last().remove(m));
        lemma_views_flat_prefix(r, r.drop_last(), n - 2);
        assert(population_views(r) == population_views(r.drop_last()).add(last));
        let q = population_views(sp.drop_last().remove(m));
        assert(population_views(sp.drop_last()) == q.add(ovm));
        assert(population_views(sp) == q.add(ovm).add(last));
        assert(population_views(r) == q.add(last));
        assert forall|x: (GenomeView, RealBits)|
            q.add(ovm).add(last).count(x) == q.add(last).add(ovm).count(x) by {
            assert(q.add(ovm).add(last).count(x) == q.count(x) + ovm.count(x) + last.count(x));
            assert(q.add(last).add(ovm).count(x) == q.count(x) + last.count(x) + ovm.count(x));
        }
        assert(q.add(ovm).add(last) =~= q.add(last).add(ovm));
        assert(population_views(sp) =~= population_views(r).add(ovm));
    }
}

/// A prefix sum plus its next value stays within the total.
proof fn lemma_usum_prefix_le(s: Seq<usize>, i: int, n: int)
    requires
        0 <= i < n <= s.len(),
    ensures
        usum(s, i) + s[i] <= usum(s, n),
    decreases n,
{
    if i == n - 1 {
    } else {
        lemma_usum_prefix_le(s, i, n - 1);
    }
}

/// Species lists whose member counts agree position by position hold
/// the same number of organisms.
proof fn lemma_views_flat_len_eq(a: Seq<Specie>, b: Seq<Specie>, upto: int)
    requires
        a.len() == b.len(),
        0 <= upto <= a.len(),
        forall|i: int|
            0 <= i < a.len() ==> (#[trigger] b[i]).organisms@.len() == a[i].organisms@.len(),
    ensures
        views_flat(a, upto).len() == views_flat(b, upto).len(),
    decreases upto,
{
    broadcast use vstd::multiset::group_multiset_axioms;
    broadcast use group_to_multiset_ensures;

    if upto > 0 {
        lemma_views_flat_len_eq(a, b, upto - 1);
        assert(org_views(a[upto - 1].organisms@).to_multiset().len() == a[upto
            - 1].organisms@.len());
        assert(org_views(b[upto - 1].organisms@).to_multiset().len() == b[upto
            - 1].organisms@.len());
    }
}

/// Sort species in descending order of cached champion fitness
/// (selection sort); the result is a permutation of the input.
fn sort_species_desc(v: Vec<Specie>) -> (r: Vec<Specie>)
    requires
        champions_set(v@),
    ensures
        r@.to_multiset() == v@.to_multiset(),
        r@.len() == v@.len(),
        species_sorted(r@),
        champions_set(r@),
        population_views(r@) == population_views(v@),
{
    broadcast use group_to_multiset_ensures;
    broadcast use vstd::multiset::group_multiset_axioms;

    let mut rest = v;
    let mut out: Vec<Specie> = Vec::new();
    proof {
        assert(out@.to_multiset().add(rest@.to_multiset()) =~= v@.to_multiset());
        lemma_views_flat_empty(out@, 0);
    }
    while rest.len() > 0
        invariant
            out@.to_multiset().add(rest@.to_multiset()) == v@.to_multiset(),
            out@.len() + rest@.len() == v@.len(),
            population_views(out@).add(population_views(rest@)) == population_views(v@),
            species_sorted(out@),
            champions_set(out@),
            champions_set(rest@),
            forall|a: int, b: int|
                0 <= a < out@.len() && 0 <= b < rest@.len() ==> out@[a].champion->Some_0.fitness
                    >= rest@[b].champion->Some_0.fitness,
        decreases rest@.len(),
    {
        let mut m: usize = 0;
        let mut i: usize = 1;
        while i < rest.len()
            invariant
                m < rest@.len(),
                i <= rest@.len(),
                champions_set(rest@),
                forall|t: int|
                    0 <= t < i ==> rest@[m as int].champion->Some_0.fitness
                        >= rest@[t].champion->Some_0.fitness,
            decreases rest@.len() - i,
        {
            if (&rest[i]).champion_fitness() > (&rest[m]).champion_fitness() {
                m = i;
            }
            i = i + 1;
        }
        let ghost pre = rest@;
        let ghost pre_out = out@;
        let x = rest.remove(m);
        out.push(x);
        proof {
            assert(rest@.to_multiset() =~= pre.to_multiset().remove(x));
            assert(out@.to_multiset() =~= pre_out.to_multiset().insert(x));
            assert(pre.contains(x)) by {
                assert(pre[m as int] == x);
            }
            assert(pre.to_multiset().count(x) > 0);
            assert(out@.to_multiset().add(rest@.to_multiset()) =~= pre_out.to_multiset().add(
                pre.to_multiset(),
            ));
            lemma_views_flat_remove(pre, m as int);
            lemma_population_views_push(pre_out, x);
            let ovx = org_views(x.organisms@).to_multiset();
            assert(population_views(pre) == population_views(rest@).add(ovx));
            assert(population_views(out@) == population_views(pre_out).add(ovx));
            assert forall|z: (GenomeView, RealBits)|
                population_views(out@).add(population_views(rest@)).count(z) == population_views(
                    pre_out,
                ).add(population_views(pre)).count(z) by {
            }
            assert(population_views(out@).add(population_views(rest@)) =~= population_views(
                pre_out,
            ).add(population_views(pre)));
            assert forall|t: int|
                0 <= t < rest@.len() implies (#[trigger] rest@[t]).champion is Some
                && crate::specie::is_champion_of(rest@[t].champion->Some_0, rest@[t].organisms@)
                && x.champion->Some_0.fitness >= rest@[t].champion->Some_0.fitness by {
                assert(rest@[t] == (if t < m { pre[t] } else { pre[t + 1] }));
            }
            assert forall|a: int, b: int|
                0 <= a <= b < out@.len() implies out@[a].champion->Some_0.fitness
                >= out@[b].champion->Some_0.fitness by {
                if b == pre_out.len() as int {
                    if a < b {
                        assert(out@[a] == pre_out[a]);
                        assert(out@[b] == x);
                        assert(pre[m as int] == x);
                        assert(pre_out[a].champion->Some_0.fitness
                            >= pre[m as int].champion->Some_0.fitness);
                    }
                } else {
                    assert(out@[a] == pre_out[a]);
                    assert(out@[b] == pre_out[b]);
                }
            }
        }
    }
    proof {
        assert(out@.to_multiset().add(rest@.to_multiset()) =~= out@.to_multiset());
        assert(out@.to_multiset() =~= v@.to_multiset());
        assert(out@.to_multiset().len() == v@.to_multiset().len());
        assert(population_views(rest@) == Multiset::<(GenomeView, RealBits)>::empty());
        assert(population_views(out@) =~= population_views(v@));
    }
    out
}

/// Partition `target` into one integer share per species,
/// proportional to the rescaled average fitnesses: the averages are
/// shifted above zero (subtract the minimum, add a quarter of the
/// range as a floor), each species gets its proportional share rounded
/// to the nearest slot — clamped so the shares never exceed the
/// target — and the
/// remainder goes to the elite species at position zero, which always
/// receives at least one slot.  When every average is equal the
/// target is split evenly, the remainder going to the first species.
fn allot_offspring<A: RealArith>(
    species: &Vec<Specie>,
    target: usize,
    arith: &A,
    p: &NeatParams,
) -> (shares: Vec<usize>)
    requires
        species@.len() >= 1,
        target >= 1,
    ensures
        shares@.len() == species@.len(),
        usum(shares@, shares@.len() as int) == target,
        shares@[0] >= 1,
{
    let n = species.len();
    let mut avgs: Vec<RealBits> = Vec::new();
    let mut i: usize = 0;
    while i < n
        invariant
            i <= n,
            n == species@.len(),
            avgs@.len() == i,
        decreases n - i,
    {
        avgs.push((&species[i]).average_fitness(arith));
        i = i + 1;
    }
    let mut mn: RealBits = avgs[0];
    let mut mx: RealBits = avgs[0];
    let mut i2: usize = 1;
    while i2 < n
        invariant
            i2 <= n,
            n == avgs@.len(),
        decreases n - i2,
    {
        if arith.less_than(avgs[i2], mn) {
            mn = avgs[i2];
        }
        if arith.less_than(mx, avgs[i2]) {
            mx = avgs[i2];
        }
        i2 = i2 + 1;
    }
    if mn == mx {
        let base = target / n;
        let rem = target % n;
        let mut shares: Vec<usize> = Vec::new();
        let mut i3: usize = 0;
        while i3 < n
            invariant
                i3 <= n,
                n >= 1,
                shares@.len() == i3,
                base == target / n,
                rem == target % n,
                usum(shares@, i3 as int) == i3 * base + (if i3 < rem {
                    i3 as int
                } else {
                    rem as int
                }),
                forall|t: int|
                    0 <= t < i3 ==> shares@[t] == base + (if t < rem {
                        1int
                    } else {
                        0int
                    }),
            decreases n - i3,
        {
            let ghost pre = shares@;
            if i3 < rem {
                proof {
                    assert(n * base + rem == target) by (nonlinear_arith)
                        requires
                            n >= 1,
                            base == target / n,
                            rem == target % n,
                    ;
                    assert(base + 1 <= target) by (nonlinear_arith)
                        requires
                            n >= 1,
                            rem < n,
                            rem >= 1,
                            n * base + rem == target,
                    ;
                }
                shares.push(base + 1);
            } else {
                shares.push(base);
            }
            proof {
                lemma_usum_push(pre, shares@[i3 as int]);
                assert((i3 + 1) * base == i3 * base + base) by (nonlinear_arith);
            }
            i3 = i3 + 1;
        }
        proof {
            assert(n * base + rem == target) by (nonlinear_arith)
                requires
                    n >= 1,
                    base == target / n,
                    rem == target % n,
            ;
            assert(rem < n);
            if rem == 0 {
                assert(base >= 1) by (nonlinear_arith)
                    requires
                        n >= 1,
                        target >= 1,
                        n * base == target,
                ;
            }
            assert(shares@[0] >= 1);
        }
        shares
    } else {
        let range = arith.minus(mx, mn);
        let floor_w = arith.times(range, QUARTER_BITS);
        let mut weights: Vec<RealBits> = Vec::new();
        let mut i4: usize = 0;
        while i4 < n
            invariant
                i4 <= n,
                n == avgs@.len(),
                weights@.len() == i4,
            decreases n - i4,
        {
            weights.push(arith.plus(arith.minus(avgs[i4], mn), floor_w));
            i4 = i4 + 1;
        }
        let mut total: RealBits = ZERO_BITS;
        let mut i5: usize = 0;
        while i5 < n
            invariant
                i5 <= n,
                n == weights@.len(),
            decreases n - i5,
        {
            total = arith.plus(total, weights[i5]);
            i5 = i5 + 1;
        }
        let tf = arith.of_usize(target);
        let mut shares: Vec<usize> = Vec::new();
        let mut left: usize = target;
        let mut i6: usize = 0;
        while i6 < n
            invariant
                i6 <= n,
                n == weights@.len(),
                shares@.len() == i6,
                usum(shares@, i6 as int) + left == target,
                left <= target,
            decreases n - i6,
        {
            let ghost pre = shares@;
            let proportional = arith.div_by(arith.times(weights[i6], tf), total);
            let raw = arith.to_usize(arith.plus(proportional, crate::arith::HALF_BITS));
            let share = if raw < left {
                raw
            } else {
                left
            };
            shares.push(share);
            proof {
                lemma_usum_push(pre, share);
            }
            left = left - share;
            i6 = i6 + 1;
        }
        if left > 0 {
            let ghost pre = shares@;
            let s0 = shares[0];
            proof {
                lemma_usum_le(pre, 0, pre.len() as int);
            }
            shares.set(0, s0 + left);
            proof {
                lemma_usum_update(pre, shares@, 0, pre.len() as int);
            }
        }
        if shares[0] == 0 {
            let mut j: usize = 0;
            let mut found: usize = n;
            while j < n
                invariant
                    j <= n,
                    n == shares@.len(),
                    found <= n,
                    found == n ==> forall|t: int| 0 <= t < j ==> shares@[t] == 0,
                    found < n ==> shares@[found as int] > 0,
                decreases n - j,
            {
                if found == n && shares[j] > 0 {
                    found = j;
                }
                j = j + 1;
            }
            proof {
                if found == n {
                    lemma_usum_zero(shares@, n as int);
                    assert(false);
                }
            }
            let ghost pre = shares@;
            let sf = shares[found];
            shares.set(found, sf - 1);
            proof {
                lemma_usum_update(pre, shares@, found as int, n as int);
            }
            let ghost pre2 = shares@;
            shares.set(0, 1);
            proof {
                lemma_usum_update(pre2, shares@, 0, n as int);
            }
        }
        shares
    }
}

/// When each species' member count equals its share, the list's
/// contents count to the shares' sum.
proof fn lemma_count_from_lens(sp: Seq<Specie>, shares: Seq<usize>, upto: int)
    requires
        sp.len() == shares.len(),
        0 <= upto <= sp.len(),
        forall|i: int| 0 <= i < sp.len() ==> (#[trigger] sp[i]).organisms@.len() == shares[i],
    ensures
        views_flat(sp, upto).len() == usum(shares, upto),
    decreases upto,
{
    broadcast use vstd::multiset::group_multiset_axioms;
    broadcast use group_to_multiset_ensures;

    if upto > 0 {
        lemma_count_from_lens(sp, shares, upto - 1);
        assert(org_views(sp[upto - 1].organisms@).to_multiset().len() == shares[upto - 1]);
    }
}

/// All species of a run, the monotonic innovation and species-id
/// counters, and the champion bookkeeping across generations.
#[derive(Debug)]
pub struct Population {
    /// The species, each non-empty between generations.
    pub species: Vec<Specie>,
    /// The best fitness seen by the latest evaluation.
    pub champion_fitness: RealBits,
    /// How many evaluations in a row came without an improvement of
    /// the champion fitness.
    pub epochs_without_improvements: usize,
    /// The best organism seen so far, updated on improvement.
    pub champion: Option<Organism>,
    /// The innovation counter: the single source of fresh neuron ids.
    /// Every neuron id in use lies strictly below it, and it never
    /// decreases.
    pub innovation_id: usize,
    /// The species-id counter; fresh species draw from it.
    pub next_specie_id: usize,
}

impl Population {
    /// The population invariant between the public operations: at
    /// least one species, all species non-empty with well-formed
    /// genomes, every neuron id below the innovation counter, and a
    /// total that fits the machine.
    pub open spec fn wf(&self) -> bool {
        &&& self.species@.len() >= 1
        &&& forall|i: int| 0 <= i < self.species@.len() ==> (#[trigger] self.species@[i]).wf()
        &&& forall|i: int|
            0 <= i < self.species@.len() ==> (#[trigger] self.species@[i]).organisms@.len() > 0
        &&& forall|i: int|
            0 <= i < self.species@.len() ==> (#[trigger] self.species@[i]).ids_below(
                self.innovation_id,
            )
        &&& population_count(self.species@) <= usize::MAX
        &&& (self.champion matches Some(c) ==> c.wf())
    }

    /// Create a population of `population_size` organisms, each with
    /// the default seed genome (one neuron with id `0`, no
    /// connections), all in one species.
    pub fn create_population(population_size: usize) -> (r: Population)
        requires
            population_size >= 1,
        ensures
            r.wf(),
            population_count(r.species@) == population_size,
            r.species@.len() == 1,
            r.species@[0].organisms@.len() == population_size,
            forall|j: int|
                0 <= j < r.species@[0].organisms@.len() ==> (
                #[trigger] r.species@[0].organisms@[j]).genome@ == crate::genome::seed_view(1)
                    && r.species@[0].organisms@[j].fitness == ZERO_BITS,
            r.innovation_id == 1,
            r.next_specie_id == 1,
            r.champion is None,
            r.champion_fitness == ZERO_BITS,
            r.epochs_without_improvements == 0,
    {
        Population::create_population_initialized(population_size, 1, 0)
    }

    /// Create a population of `population_size` organisms whose seed
    /// genomes have `input_neurons + output_neurons` neurons and no
    /// connections, all in one species.
    pub fn create_population_initialized(
        population_size: usize,
        input_neurons: usize,
        output_neurons: usize,
    ) -> (r: Population)
        requires
            population_size >= 1,
            input_neurons + output_neurons <= usize::MAX,
        ensures
            r.wf(),
            population_count(r.species@) == population_size,
            r.species@.len() == 1,
            r.species@[0].organisms@.len() == population_size,
            forall|j: int|
                0 <= j < r.species@[0].organisms@.len() ==> (
                #[trigger] r.species@[0].organisms@[j]).genome@ == crate::genome::seed_view(
                    (input_neurons + output_neurons) as nat,
                ) && r.species@[0].organisms@[j].fitness == ZERO_BITS,
            r.innovation_id == input_neurons + output_neurons,
            r.next_specie_id == 1,
            r.champion is None,
            r.champion_fitness == ZERO_BITS,
            r.epochs_without_improvements == 0,
    {
        broadcast use group_to_multiset_ensures;

        let n_neurons = input_neurons + output_neurons;
        let mut organisms: Vec<Organism> = Vec::new();
        let mut i: usize = 0;
        while i < population_size
            invariant
                i <= population_size,
                organisms@.len() == i,
                organisms_wf(organisms@),
                organisms_ids_below(organisms@, n_neurons),
                forall|j: int|
                    0 <= j < i ==> (#[trigger] organisms@[j]).genome@ == crate::genome::seed_view(
                        n_neurons as nat,
                    ) && organisms@[j].fitness == ZERO_BITS,
            decreases population_size - i,
        {
            let genome = NeuralNetwork::with_neurons(n_neurons);
            organisms.push(Organism::new(genome));
            i = i + 1;
        }
        let mut rest = organisms;
        let first = rest.remove(0);
        let mut specie = Specie::new(first, 0);
        let mut k: usize = 0;
        let ghost pre = specie.organisms@;
        while rest.len() > 0
            invariant
                specie.wf(),
                specie.ids_below(n_neurons),
                organisms_wf(rest@),
                organisms_ids_below(rest@, n_neurons),
                specie.organisms@.len() + rest@.len() == population_size,
                specie.organisms@.len() >= 1,
                forall|j: int|
                    0 <= j < specie.organisms@.len() ==> (
                    #[trigger] specie.organisms@[j]).genome@ == crate::genome::seed_view(
                        n_neurons as nat,
                    ) && specie.organisms@[j].fitness == ZERO_BITS,
                forall|j: int|
                    0 <= j < rest@.len() ==> (#[trigger] rest@[j]).genome@
                        == crate::genome::seed_view(n_neurons as nat) && rest@[j].fitness
                        == ZERO_BITS,
            decreases rest@.len(),
        {
            let ghost pre_rest = rest@;
            let o = rest.remove(0);
            specie.organisms.push(o);
            proof {
                assert forall|j: int| 0 <= j < rest@.len() implies (#[trigger] rest@[j])
                    == pre_rest[j + 1] by {
                }
            }
        }
        let mut species: Vec<Specie> = Vec::new();
        let ghost final_members = specie.organisms@;
        species.push(specie);
        proof {
            assert(views_flat(species@, 0) == Multiset::<(GenomeView, RealBits)>::empty());
            assert(population_views(species@) =~= org_views(final_members).to_multiset());
            assert(org_views(final_members).to_multiset().len() == org_views(final_members).len());
        }
        Population {
            species,
            champion_fitness: ZERO_BITS,
            epochs_without_improvements: 0,
            champion: None,
            innovation_id: n_neurons,
            next_specie_id: 1,
        }
    }

    /// The total number of organisms over all species.
    pub fn size(&self) -> (r: usize)
        requires
            self.wf(),
        ensures
            r == population_count(self.species@),
    {
        broadcast use vstd::multiset::group_multiset_axioms;
        broadcast use group_to_multiset_ensures;

        let mut total: usize = 0;
        let mut i: usize = 0;
        while i < self.species.len()
            invariant
                i <= self.species@.len(),
                self.wf(),
                total == views_flat(self.species@, i as int).len(),
            decreases self.species@.len() - i,
        {
            proof {
                lemma_views_flat_le(self.species@, i + 1);
                assert(org_views(self.species@[i as int].organisms@).to_multiset().len()
                    == org_views(self.species@[i as int].organisms@).len());
            }
            total = total + self.species[i].organisms.len();
            i = i + 1;
        }
        total
    }

    /// All organisms of the population, as owned copies, species by
    /// species in order.
    pub fn get_organisms(&self) -> (r: Vec<Organism>)
        requires
            self.wf(),
        ensures
            r@.len() == population_count(self.species@),
            organisms_wf(r@),
            organisms_ids_below(r@, self.innovation_id),
            org_views(r@).to_multiset() == population_views(self.species@),
            org_views(r@) == views_concat(self.species@, self.species@.len() as int),
    {
        broadcast use vstd::multiset::group_multiset_axioms;
        broadcast use group_to_multiset_ensures;

        let mut r: Vec<Organism> = Vec::new();
        let mut i: usize = 0;
        proof {
            assert(org_views(r@) =~= Seq::<(GenomeView, RealBits)>::empty());
            assert(org_views(r@).to_multiset() =~= views_flat(self.species@, 0));
            assert(org_views(r@) =~= views_concat(self.species@, 0));
        }
        while i < self.species.len()
            invariant
                i <= self.species@.len(),
                self.wf(),
                organisms_wf(r@),
                organisms_ids_below(r@, self.innovation_id),
                org_views(r@).to_multiset() == views_flat(self.species@, i as int),
                org_views(r@) == views_concat(self.species@, i as int),
                r@.len() == views_flat(self.species@, i as int).len(),
            decreases self.species@.len() - i,
        {
            let members = &self.species[i].organisms;
            let ghost msv = members@;
            let mut j: usize = 0;
            while j < members.len()
                invariant
                    j <= msv.len(),
                    members@ == msv,
                    organisms_wf(msv),
                    organisms_ids_below(msv, self.innovation_id),
                    organisms_wf(r@),
                    organisms_ids_below(r@, self.innovation_id),
                    org_views(r@).to_multiset() == views_flat(self.species@, i as int).add(
                        org_views(msv.take(j as int)).to_multiset(),
                    ),
                    org_views(r@) == views_concat(self.species@, i as int) + org_views(
                        msv.take(j as int),
                    ),
                    r@.len() == views_flat(self.species@, i as int).len() + j,
                    i < self.species@.len(),
                    msv == self.species@[i as int].organisms@,
                decreases msv.len() - j,
            {
                let ghost pre = r@;
                let o = (&members[j]).duplicate();
                r.push(o);
                proof {
                    assert(org_views(r@) =~= org_views(pre).push(
                        (msv[j as int].genome@, msv[j as int].fitness),
                    ));
                    assert(msv.take(j + 1) =~= msv.take(j as int).push(msv[j as int]));
                    assert(org_views(msv.take(j + 1)) =~= org_views(msv.take(j as int)).push(
                        (msv[j as int].genome@, msv[j as int].fitness),
                    ));
                    assert(org_views(r@).to_multiset() =~= views_flat(
                        self.species@,
                        i as int,
                    ).add(org_views(msv.take(j + 1)).to_multiset()));
                    assert(org_views(r@) =~= views_concat(self.species@, i as int) + org_views(
                        msv.take(j + 1),
                    ));
                }
                j = j + 1;
            }
            proof {
                assert(msv.take(msv.len() as int) =~= msv);
                assert(org_views(r@).to_multiset() =~= views_flat(self.species@, i + 1));
                assert(org_views(r@) =~= views_concat(self.species@, i + 1));
            }
            i = i + 1;
        }
        proof {
            lemma_views_flat_le(self.species@, self.species@.len() as int);
        }
        r
    }

    /// Re-bucket every organism by compatibility distance.  Each
    /// existing species elects a uniformly random current member as
    /// the next generation's representative and starts empty; every
    /// organism then joins the first species whose representative it
    /// matches, or founds a new species with a fresh id.  Species that
    /// end up empty are dropped, and every surviving species gets its
    /// champion recomputed.
    ///
    /// The multiset of `(genome, fitness)` pairs is preserved exactly:
    /// afterwards every organism is a member of exactly one species,
    /// and no species is empty.
    pub fn speciate<A: RealArith>(&mut self, arith: &A, p: &NeatParams)
        requires
            old(self).wf(),
            old(self).next_specie_id + population_count(old(self).species@) <= usize::MAX,
        ensures
            final(self).wf(),
            population_views(final(self).species@) == population_views(old(self).species@),
            population_count(final(self).species@) == population_count(old(self).species@),
            champions_set(final(self).species@),
            forall|i: int|
                0 <= i < final(self).species@.len() ==> population_views(old(self).species@).count(
                    (
                        (#[trigger] final(self).species@[i]).representative.genome@,
                        final(self).species@[i].representative.fitness,
                    ),
                ) > 0,
            final(self).innovation_id == old(self).innovation_id,
            old(self).next_specie_id <= final(self).next_specie_id <= old(self).next_specie_id
                + population_count(old(self).species@),
            final(self).champion == old(self).champion,
            final(self).champion_fitness == old(self).champion_fitness,
            final(self).epochs_without_improvements == old(self).epochs_without_improvements,
    {
        broadcast use vstd::multiset::group_multiset_axioms;
        broadcast use group_to_multiset_ensures;

        let ghost total = population_views(old(self).species@);
        let organisms = self.get_organisms();
        let ghost orgs = organisms@;
        let mut shells: Vec<Specie> = Vec::new();
        let mut i: usize = 0;
        while i < self.species.len()
            invariant
                i <= self.species@.len(),
                self.wf(),
                shells@.len() == i,
                forall|t: int| 0 <= t < i ==> (#[trigger] shells@[t]).wf(),
                forall|t: int|
                    0 <= t < i ==> (#[trigger] shells@[t]).ids_below(self.innovation_id),
                forall|t: int| 0 <= t < i ==> (#[trigger] shells@[t]).organisms@.len() == 0,
                forall|t: int|
                    0 <= t < i ==> total.count(
                        (
                            (#[trigger] shells@[t]).representative.genome@,
                            shells@[t].representative.fitness,
                        ),
                    ) > 0,
            decreases self.species@.len() - i,
        {
            let sp = &self.species[i];
            let idx = random_below(sp.organisms.len());
            let rep = (&sp.organisms[idx]).duplicate();
            let champ = match &sp.champion {
                Some(c) => Some(c.duplicate()),
                None => None,
            };
            proof {
                assert(self.species@[i as int].organisms@[idx as int].wf());
                assert(ids_below(
                    self.species@[i as int].organisms@[idx as int].genome@,
                    self.innovation_id,
                ));
                lemma_views_flat_member(self.species@, i as int, idx as int);
            }
            shells.push(
                Specie {
                    id: sp.id,
                    representative: rep,
                    champion: champ,
                    age: sp.age,
                    age_last_improvement: sp.age_last_improvement,
                    organisms: Vec::new(),
                },
            );
            i = i + 1;
        }
        proof {
            lemma_views_flat_empty(shells@, shells@.len() as int);
        }
        let n_orgs = organisms.len();
        let mut k: usize = 0;
        while k < n_orgs
            invariant
                k <= n_orgs,
                n_orgs == orgs.len(),
                organisms@ == orgs,
                organisms_wf(orgs),
                organisms_ids_below(orgs, self.innovation_id),
                self.wf(),
                forall|t: int| 0 <= t < shells@.len() ==> (#[trigger] shells@[t]).wf(),
                forall|t: int|
                    0 <= t < shells@.len() ==> (#[trigger] shells@[t]).ids_below(
                        self.innovation_id,
                    ),
                population_views(shells@) == org_views(orgs.take(k as int)).to_multiset(),
                forall|t: int|
                    0 <= t < shells@.len() ==> total.count(
                        (
                            (#[trigger] shells@[t]).representative.genome@,
                            shells@[t].representative.fitness,
                        ),
                    ) > 0,
                self.next_specie_id + (n_orgs - k) <= usize::MAX,
                self.next_specie_id <= old(self).next_specie_id + k,
                self.innovation_id == old(self).innovation_id,
                self.species@ == old(self).species@,
                self.champion == old(self).champion,
                self.champion_fitness == old(self).champion_fitness,
                self.epochs_without_improvements == old(self).epochs_without_improvements,
                old(self).next_specie_id <= self.next_specie_id,
            decreases n_orgs - k,
        {
            let org = (&organisms[k]).duplicate();
            let ghost pair = (orgs[k as int].genome@, orgs[k as int].fitness);
            let n_shells = shells.len();
            let mut j: usize = 0;
            let mut found: usize = n_shells;
            while j < n_shells
                invariant
                    j <= n_shells,
                    n_shells == shells@.len(),
                    found <= n_shells,
                    forall|t: int| 0 <= t < shells@.len() ==> (#[trigger] shells@[t]).wf(),
                    org.wf(),
                decreases n_shells - j,
            {
                if (&shells[j]).match_genome(&org.genome, arith, p) {
                    found = j;
                    j = n_shells;
                } else {
                    j = j + 1;
                }
            }
            let ghost pre_shells = shells@;
            if found < n_shells {
                shells[found].organisms.push(org);
                proof {
                    assert(shells@[found as int].organisms@ == pre_shells[
                        found as int
                    ].organisms@.push(org));
                    lemma_views_flat_update(
                        pre_shells,
                        shells@,
                        found as int,
                        shells@.len() as int,
                    );
                    assert(orgs.take(k + 1) =~= orgs.take(k as int).push(orgs[k as int]));
                    assert(org_views(orgs.take(k + 1)) =~= org_views(orgs.take(k as int)).push(
                        pair,
                    ));
                    assert(population_views(shells@) =~= org_views(orgs.take(k + 1)).to_multiset());
                    assert forall|t: int|
                        0 <= t < shells@.len() implies (#[trigger] shells@[t]).wf() && shells@[
                        t].ids_below(self.innovation_id) && total.count(
                        (shells@[t].representative.genome@, shells@[t].representative.fitness),
                    ) > 0 by {
                        if t != found {
                            assert(shells@[t] == pre_shells[t]);
                        } else {
                            assert(shells@[t].representative == pre_shells[t].representative);
                            assert(pre_shells[t].wf());
                            assert(pre_shells[t].ids_below(self.innovation_id));
                            assert(ids_below(orgs[k as int].genome@, self.innovation_id));
                            assert(org.genome@ == orgs[k as int].genome@);
                            assert forall|u: int|
                                0 <= u < shells@[t].organisms@.len() implies (
                            #[trigger] shells@[t].organisms@[u]).wf() && ids_below(
                                shells@[t].organisms@[u].genome@,
                                self.innovation_id,
                            ) by {
                                if u < pre_shells[t].organisms@.len() {
                                    assert(shells@[t].organisms@[u] == pre_shells[t].organisms@[u]);
                                    assert(pre_shells[t].organisms@[u].wf());
                                    assert(ids_below(
                                        pre_shells[t].organisms@[u].genome@,
                                        self.innovation_id,
                                    ));
                                } else {
                                    assert(shells@[t].organisms@[u] == org);
                                }
                            }
                        }
                    }
                }
            } else {
                let id = self.next_specie_id;
                self.next_specie_id = self.next_specie_id + 1;
                let sp = Specie::new(org, id);
                shells.push(sp);
                proof {
                    lemma_population_views_push(pre_shells, sp);
                    assert(org_views(sp.organisms@) =~= Seq::<(
                        GenomeView,
                        RealBits,
                    )>::empty().push(pair));
                    assert(org_views(sp.organisms@).to_multiset() =~= Multiset::<(
                        GenomeView,
                        RealBits,
                    )>::empty().insert(pair));
                    assert(orgs.take(k + 1) =~= orgs.take(k as int).push(orgs[k as int]));
                    assert(org_views(orgs.take(k + 1)) =~= org_views(orgs.take(k as int)).push(
                        pair,
                    ));
                    assert(population_views(shells@) =~= org_views(orgs.take(k + 1)).to_multiset());
                    assert forall|t: int|
                        0 <= t < shells@.len() implies (#[trigger] shells@[t]).wf() && shells@[
                        t].ids_below(self.innovation_id) && total.count(
                        (shells@[t].representative.genome@, shells@[t].representative.fitness),
                    ) > 0 by {
                        if t < pre_shells.len() {
                            assert(shells@[t] == pre_shells[t]);
                        } else {
                            assert(shells@[t] == sp);
                            assert(sp.representative.genome@ == orgs[k as int].genome@);
                            assert(sp.representative.fitness == orgs[k as int].fitness);
                            assert(org_views(orgs)[k as int] == (
                                orgs[k as int].genome@,
                                orgs[k as int].fitness,
                            ));
                            assert(org_views(orgs).contains(
                                (orgs[k as int].genome@, orgs[k as int].fitness),
                            ));
                            assert(org_views(orgs).to_multiset().count(
                                (orgs[k as int].genome@, orgs[k as int].fitness),
                            ) > 0);
                        }
                    }
                }
            }
            k = k + 1;
        }
        proof {
            assert(orgs.take(orgs.len() as int) =~= orgs);
            assert(population_views(shells@) == total);
        }
        let mut survivors: Vec<Specie> = Vec::new();
        proof {
            lemma_views_flat_empty(survivors@, 0);
        }
        while shells.len() > 0
            invariant
                forall|t: int| 0 <= t < survivors@.len() ==> (#[trigger] survivors@[t]).wf(),
                forall|t: int|
                    0 <= t < survivors@.len() ==> (#[trigger] survivors@[t]).ids_below(
                        self.innovation_id,
                    ),
                forall|t: int|
                    0 <= t < survivors@.len() ==> (#[trigger] survivors@[t]).organisms@.len() > 0,
                forall|t: int|
                    0 <= t < survivors@.len() ==> total.count(
                        (
                            (#[trigger] survivors@[t]).representative.genome@,
                            survivors@[t].representative.fitness,
                        ),
                    ) > 0,
                forall|t: int| 0 <= t < shells@.len() ==> (#[trigger] shells@[t]).wf(),
                forall|t: int|
                    0 <= t < shells@.len() ==> (#[trigger] shells@[t]).ids_below(
                        self.innovation_id,
                    ),
                forall|t: int|
                    0 <= t < shells@.len() ==> total.count(
                        (
                            (#[trigger] shells@[t]).representative.genome@,
                            shells@[t].representative.fitness,
                        ),
                    ) > 0,
                population_views(survivors@).add(population_views(shells@)) == total,
            decreases shells@.len(),
        {
            let ghost pre_shells = shells@;
            let sp = shells.remove(0);
            proof {
                assert(shells@ =~= pre_shells.drop_first());
                lemma_views_flat_first(pre_shells);
                assert(sp == pre_shells[0]);
                assert forall|t: int| 0 <= t < shells@.len() implies #[trigger] shells@[t]
                    == pre_shells[t + 1] by {
                }
            }
            if sp.organisms.len() > 0 {
                let ghost pre_surv = survivors@;
                survivors.push(sp);
                proof {
                    lemma_population_views_push(pre_surv, sp);
                    assert(population_views(survivors@).add(population_views(shells@)) =~= total);
                }
            } else {
                proof {
                    assert(org_views(sp.organisms@) =~= Seq::<(GenomeView, RealBits)>::empty());
                    assert(org_views(sp.organisms@).to_multiset() =~= Multiset::<(
                        GenomeView,
                        RealBits,
                    )>::empty());
                    assert(population_views(survivors@).add(population_views(shells@)) =~= total);
                }
            }
        }
        proof {
            assert(population_views(shells@) == Multiset::<(GenomeView, RealBits)>::empty());
            assert(population_views(survivors@) =~= total);
        }
        let ghost pre_champ = survivors@;
        let mut t: usize = 0;
        while t < survivors.len()
            invariant
                t <= survivors@.len(),
                survivors@.len() == pre_champ.len(),
                forall|x: int| 0 <= x < survivors@.len() ==> (#[trigger] survivors@[x]).wf(),
                forall|x: int|
                    0 <= x < survivors@.len() ==> (#[trigger] survivors@[x]).ids_below(
                        self.innovation_id,
                    ),
                forall|x: int|
                    0 <= x < survivors@.len() ==> (#[trigger] survivors@[x]).organisms@
                        == pre_champ[x].organisms@,
                forall|x: int|
                    0 <= x < survivors@.len() ==> (#[trigger] survivors@[x]).representative
                        == pre_champ[x].representative,
                forall|x: int|
                    0 <= x < survivors@.len() ==> total.count(
                        (
                            (#[trigger] pre_champ[x]).representative.genome@,
                            pre_champ[x].representative.fitness,
                        ),
                    ) > 0,
                forall|x: int|
                    0 <= x < survivors@.len() ==> (#[trigger] survivors@[x]).organisms@.len() > 0,
                forall|x: int|
                    0 <= x < t ==> (#[trigger] survivors@[x]).champion is Some
                        && crate::specie::is_champion_of(
                        survivors@[x].champion->Some_0,
                        survivors@[x].organisms@,
                    ),
            decreases survivors@.len() - t,
        {
            survivors[t].update_champion();
            t = t + 1;
        }
        proof {
            lemma_views_flat_same_organisms(pre_champ, survivors@, survivors@.len() as int);
            assert(population_views(survivors@) == total);
            assert(total.len() > 0) by {
                lemma_views_flat_member(old(self).species@, 0, 0);
                assert(total.count(
                    (
                        old(self).species@[0].organisms@[0].genome@,
                        old(self).species@[0].organisms@[0].fitness,
                    ),
                ) > 0);
            }
            if survivors@.len() == 0 {
                assert(population_views(survivors@) == Multiset::<(GenomeView, RealBits)>::empty());
            }
        }
        self.species = survivors;
    }

    /// Sort the species by descending champion fitness, protect the
    /// top `species_elite` (at least the single best), and drop every
    /// other species that has not improved its champion for
    /// `remove_after_n_generations` generations.
    fn remove_stagnant(&mut self, p: &NeatParams)
        requires
            old(self).wf(),
            champions_set(old(self).species@),
        ensures
            final(self).wf(),
            population_count(final(self).species@) <= population_count(old(self).species@),
            champions_set(final(self).species@),
            species_sorted(final(self).species@),
            final(self).species@.len() >= 1,
            ({
                let before = old(self).species@;
                let after = final(self).species@;
                forall|i: int|
                    0 <= i < after.len() ==> exists|j: int|
                        0 <= j < before.len() && #[trigger] after[i] == before[j]
            }),
            ({
                let before = old(self).species@;
                let after = final(self).species@;
                forall|j: int|
                    0 <= j < before.len() ==> (#[trigger] before[j]).champion->Some_0.fitness
                        <= after[0].champion->Some_0.fitness
            }),
            final(self).innovation_id == old(self).innovation_id,
            final(self).next_specie_id == old(self).next_specie_id,
            final(self).champion == old(self).champion,
            final(self).champion_fitness == old(self).champion_fitness,
            final(self).epochs_without_improvements == old(self).epochs_without_improvements,
    {
        broadcast use group_to_multiset_ensures;

        let ghost orig = old(self).species@;
        let mut tmp: Vec<Specie> = Vec::new();
        core::mem::swap(&mut tmp, &mut self.species);
        let sorted_v = sort_species_desc(tmp);
        let n_sorted = sorted_v.len();
        let ghost sortedv = sorted_v@;
        proof {
            assert forall|i: int| 0 <= i < sortedv.len() implies exists|j: int|
                0 <= j < orig.len() && #[trigger] sortedv[i] == orig[j] by {
                assert(sortedv.contains(sortedv[i]));
                assert(sortedv.to_multiset().count(sortedv[i]) > 0);
                assert(orig.to_multiset().count(sortedv[i]) > 0);
                assert(orig.contains(sortedv[i]));
            }
            assert forall|i: int| 0 <= i < sortedv.len() implies (#[trigger] sortedv[i]).wf()
                && sortedv[i].ids_below(self.innovation_id) && sortedv[i].organisms@.len() > 0 by {
                let j = choose|j: int| 0 <= j < orig.len() && sortedv[i] == orig[j];
                assert(orig[j].wf());
            }
        }
        let keep_elite = if p.species_elite > 1 {
            p.species_elite
        } else {
            1
        };
        let mut rest = sorted_v;
        let mut survivors: Vec<Specie> = Vec::new();
        proof {
            lemma_views_flat_empty(survivors@, 0);
        }
        let mut idx: usize = 0;
        while rest.len() > 0
            invariant
                idx + rest@.len() == sortedv.len(),
                sortedv.len() == n_sorted,
                rest@ == sortedv.skip(idx as int),
                population_views(survivors@).len() + population_views(rest@).len()
                    <= population_views(orig).len(),
                keep_elite >= 1,
                species_sorted(sortedv),
                champions_set(sortedv),
                forall|i: int| 0 <= i < sortedv.len() ==> (#[trigger] sortedv[i]).wf(),
                forall|i: int|
                    0 <= i < sortedv.len() ==> (#[trigger] sortedv[i]).ids_below(
                        self.innovation_id,
                    ),
                forall|i: int|
                    0 <= i < sortedv.len() ==> (#[trigger] sortedv[i]).organisms@.len() > 0,
                forall|i: int|
                    0 <= i < sortedv.len() ==> exists|j: int|
                        0 <= j < orig.len() && #[trigger] sortedv[i] == orig[j],
                forall|t: int|
                    0 <= t < survivors@.len() ==> exists|j: int|
                        0 <= j < sortedv.len() && #[trigger] survivors@[t] == sortedv[j],
                species_sorted(survivors@),
                champions_set(survivors@),
                forall|t: int| 0 <= t < survivors@.len() ==> (#[trigger] survivors@[t]).wf(),
                forall|t: int|
                    0 <= t < survivors@.len() ==> (#[trigger] survivors@[t]).ids_below(
                        self.innovation_id,
                    ),
                forall|t: int|
                    0 <= t < survivors@.len() ==> (#[trigger] survivors@[t]).organisms@.len() > 0,
                forall|a: int, b: int|
                    0 <= a < survivors@.len() && 0 <= b < rest@.len() ==> survivors@[
                        a
                    ].champion->Some_0.fitness >= rest@[b].champion->Some_0.fitness,
                idx >= 1 ==> survivors@.len() >= 1 && survivors@[0] == sortedv[0],
                idx == 0 ==> survivors@.len() == 0,
            decreases rest@.len(),
        {
            let ghost pre_rest = rest@;
            let sp = rest.remove(0);
            proof {
                assert(rest@ =~= sortedv.skip(idx + 1));
                assert(sp == sortedv[idx as int]);
                lemma_views_flat_remove(pre_rest, 0);
                assert(rest@ =~= pre_rest.remove(0));
            }
            let diff = if sp.age >= sp.age_last_improvement {
                sp.age - sp.age_last_improvement
            } else {
                0
            };
            if idx < keep_elite || diff < p.remove_after_n_generations {
                let ghost pre_surv = survivors@;
                survivors.push(sp);
                proof {
                    lemma_population_views_push(pre_surv, sp);
                }
            }
            idx = idx + 1;
        }
        proof {
            assert(sortedv.len() >= 1);
            assert(survivors@.len() >= 1 && survivors@[0] == sortedv[0]);
            assert forall|j: int|
                0 <= j < orig.len() implies (#[trigger] orig[j]).champion->Some_0.fitness
                <= survivors@[0].champion->Some_0.fitness by {
                assert(orig.contains(orig[j]));
                assert(orig.to_multiset().count(orig[j]) > 0);
                assert(sortedv.to_multiset().count(orig[j]) > 0);
                assert(sortedv.contains(orig[j]));
                let i = choose|i: int| 0 <= i < sortedv.len() && sortedv[i] == orig[j];
                assert(sortedv[0].champion->Some_0.fitness >= sortedv[i].champion->Some_0.fitness);
            }
        }
        self.species = survivors;
    }

    /// One round of reproduction: speciate, drop stagnant species,
    /// partition the population size among the survivors in proportion
    /// to their rescaled average fitness, and let every species
    /// produce its allotted offspring (elites verbatim, the rest by
    /// crossover and mutation), drawing cross-species mates from the
    /// pre-reproduction snapshot.
    ///
    /// The population size is preserved exactly, the innovation
    /// counter never decreases, and at least one new member carries,
    /// bit for bit, the genome and fitness of a pre-reproduction
    /// organism of maximal fitness (the population champion's genes
    /// survive reproduction verbatim).
    pub fn generate_offspring<A: RealArith>(&mut self, arith: &A, p: &NeatParams)
        requires
            old(self).wf(),
            old(self).innovation_id + population_count(old(self).species@) <= usize::MAX,
            old(self).next_specie_id + population_count(old(self).species@) <= usize::MAX,
        ensures
            final(self).wf(),
            population_count(final(self).species@) == population_count(old(self).species@),
            old(self).innovation_id <= final(self).innovation_id <= old(self).innovation_id
                + population_count(old(self).species@),
            old(self).next_specie_id <= final(self).next_specie_id <= old(self).next_specie_id
                + population_count(old(self).species@),
            final(self).champion == old(self).champion,
            final(self).champion_fitness == old(self).champion_fitness,
            final(self).epochs_without_improvements == old(self).epochs_without_improvements,
            forall|i: int| 0 <= i < final(self).species@.len() ==> (#[trigger] final(self).species@[i]).age >= 1,
            forall|i: int, t: int|
                0 <= i < final(self).species@.len() && 0 <= t < final(self).species@[
                    i
                ].organisms@.len() - 1 ==> (#[trigger] final(self).species@[i].organisms@[
                    t
                ]).fitness == ZERO_BITS,
            exists|pair: (GenomeView, RealBits)|
                {
                    &&& #[trigger] population_views(final(self).species@).count(pair) > 0
                    &&& population_views(old(self).species@).count(pair) > 0
                    &&& forall|q: (GenomeView, RealBits)|
                        population_views(old(self).species@).count(q) > 0 ==> q.1 <= pair.1
                },
    {
        broadcast use vstd::multiset::group_multiset_axioms;
        broadcast use group_to_multiset_ensures;

        let ghost total_views = population_views(old(self).species@);
        let target = self.size();
        proof {
            lemma_views_flat_member(self.species@, 0, 0);
        }
        self.speciate(arith, p);
        let ghost mid = self.species@;
        self.remove_stagnant(p);
        let ghost kept = self.species@;
        let shares = allot_offspring(&self.species, target, arith, p);
        let snapshot = self.get_organisms();
        let ghost pre_species = self.species@;
        let ghost next_after = self.next_specie_id;
        proof {
            assert(snapshot@.len() > 0) by {
                lemma_views_flat_member(pre_species, 0, 0);
            }
        }
        // The best surviving species' champion fitness bounds every
        // pre-reproduction organism's fitness.
        let ghost champ0 = pre_species[0].champion->Some_0;
        proof {
            lemma_views_flat_fitness_bound(mid, champ0.fitness, mid.len() as int);
            assert forall|q: (GenomeView, RealBits)| total_views.count(q) > 0 implies q.1
                <= champ0.fitness by {
                assert(population_views(mid).count(q) > 0);
            }
        }
        let mut innov = self.innovation_id;
        let ghost innov0 = innov;
        let n_species = self.species.len();
        let mut i: usize = 0;
        while i < n_species
            invariant
                i <= n_species,
                n_species == self.species@.len(),
                shares@.len() == n_species,
                pre_species.len() == n_species,
                organisms_wf(snapshot@),
                snapshot@.len() > 0,
                usum(shares@, n_species as int) == target,
                shares@[0] >= 1,
                innov0 + target <= usize::MAX,
                innov0 <= innov,
                innov <= innov0 + usum(shares@, i as int),
                organisms_ids_below(snapshot@, innov),
                forall|t: int|
                    i <= t < n_species ==> (#[trigger] self.species@[t]) == pre_species[t],
                forall|t: int| 0 <= t < i ==> (#[trigger] self.species@[t]).wf(),
                forall|t: int|
                    0 <= t < i ==> (#[trigger] self.species@[t]).ids_below(innov),
                forall|t: int|
                    0 <= t < i ==> (#[trigger] self.species@[t]).organisms@.len() == shares@[t],
                forall|t: int| 0 <= t < n_species ==> (#[trigger] pre_species[t]).wf(),
                forall|t: int|
                    0 <= t < n_species ==> (#[trigger] pre_species[t]).ids_below(innov),
                forall|t: int|
                    0 <= t < n_species ==> (#[trigger] pre_species[t]).organisms@.len() > 0,
                i >= 1 ==> self.species@[0].organisms@.len() == shares@[0] && exists|t: int|
                    0 <= t < self.species@[0].organisms@.len() && (
                    #[trigger] self.species@[0].organisms@[t]).fitness == champ0.fitness
                        && population_views(mid).count(
                        (self.species@[0].organisms@[t].genome@, champ0.fitness),
                    ) > 0,
                forall|t: int| 0 <= t < i ==> (#[trigger] self.species@[t]).age >= 1,
                forall|t: int, u: int|
                    0 <= t < i && 0 <= u < self.species@[t].organisms@.len() - 1 ==> (
                    #[trigger] self.species@[t].organisms@[u]).fitness == ZERO_BITS,
                self.innovation_id == innov0,
                self.next_specie_id == next_after,
                self.champion == old(self).champion,
                self.champion_fitness == old(self).champion_fitness,
                self.epochs_without_improvements == old(self).epochs_without_improvements,
            decreases n_species - i,
        {
            let share = shares[i];
            proof {
                lemma_usum_nonneg(shares@, i as int);
                lemma_usum_le(shares@, i as int, n_species as int);
                lemma_usum_prefix_le(shares@, i as int, n_species as int);
            }
            let ghost pre_innov = innov;
            let ghost pre_specie = self.species@[i as int];
            self.species[i].generate_offspring(share, &snapshot, &mut innov, arith, p);
            proof {
                assert forall|t: int| 0 <= t < snapshot@.len() implies ids_below(
                    (#[trigger] snapshot@[t]).genome@,
                    innov,
                ) by {
                    assert(ids_below(snapshot@[t].genome@, pre_innov));
                }
                assert forall|t: int| 0 <= t < n_species implies (
                #[trigger] pre_species[t]).ids_below(innov) by {
                    assert(pre_species[t].ids_below(pre_innov));
                }
                assert forall|t: int| 0 <= t < i implies (#[trigger] self.species@[t]).ids_below(
                    innov,
                ) by {
                    assert(self.species@[t].ids_below(pre_innov));
                }
                if i == 0 {
                    let j = choose|j: int|
                        0 <= j < pre_specie.organisms@.len() && (
                        #[trigger] pre_specie.organisms@[j]).genome@ == self.species@[
                            0
                        ].organisms@[share - 1].genome@ && pre_specie.organisms@[j].fitness
                            == self.species@[0].organisms@[share - 1].fitness && (forall|t: int|
                            0 <= t < pre_specie.organisms@.len()
                                ==> (#[trigger] pre_specie.organisms@[t]).fitness
                                <= pre_specie.organisms@[j].fitness);
                    assert(crate::specie::is_champion_of(champ0, pre_specie.organisms@));
                    let c = choose|c: int|
                        0 <= c < pre_specie.organisms@.len() && (
                        #[trigger] pre_specie.organisms@[c]).genome@ == champ0.genome@
                            && pre_specie.organisms@[c].fitness == champ0.fitness;
                    assert(pre_specie.organisms@[j].fitness <= champ0.fitness);
                    assert(pre_specie.organisms@[c].fitness <= pre_specie.organisms@[j].fitness);
                    assert(self.species@[0].organisms@[share - 1].fitness == champ0.fitness);
                    let jj = choose|jj: int|
                        0 <= jj < mid.len() && #[trigger] pre_species[0] == mid[jj];
                    lemma_views_flat_member(mid, jj, j);
                    assert(population_views(mid).count(
                        (self.species@[0].organisms@[share - 1].genome@, champ0.fitness),
                    ) > 0);
                }
            }
            i = i + 1;
        }
        self.innovation_id = innov;
        proof {
            lemma_count_from_lens(self.species@, shares@, n_species as int);
        }
        let ghost reproduced = self.species@;
        let ghost wt = choose|t: int|
            0 <= t < reproduced[0].organisms@.len() && (
            #[trigger] reproduced[0].organisms@[t]).fitness == champ0.fitness && population_views(
                mid,
            ).count((reproduced[0].organisms@[t].genome@, champ0.fitness)) > 0;
        let ghost wpair = (reproduced[0].organisms@[wt].genome@, champ0.fitness);
        proof {
            assert(total_views.count(wpair) > 0);
        }
        let mut rest2: Vec<Specie> = Vec::new();
        core::mem::swap(&mut rest2, &mut self.species);
        let mut survivors: Vec<Specie> = Vec::new();
        proof {
            broadcast use vstd::multiset::group_multiset_axioms;

            lemma_views_flat_empty(survivors@, 0);
            assert(org_views(reproduced[0].organisms@)[wt] == wpair);
            assert(org_views(reproduced[0].organisms@).contains(wpair));
            assert(org_views(reproduced[0].organisms@).to_multiset().count(wpair) > 0);
            assert(rest2@[0] == reproduced[0]);
        }
        while rest2.len() > 0
            invariant
                forall|t: int| 0 <= t < survivors@.len() ==> (#[trigger] survivors@[t]).wf(),
                forall|t: int|
                    0 <= t < survivors@.len() ==> (#[trigger] survivors@[t]).ids_below(
                        self.innovation_id,
                    ),
                forall|t: int|
                    0 <= t < survivors@.len() ==> (#[trigger] survivors@[t]).organisms@.len() > 0,
                forall|t: int| 0 <= t < rest2@.len() ==> (#[trigger] rest2@[t]).wf(),
                forall|t: int|
                    0 <= t < rest2@.len() ==> (#[trigger] rest2@[t]).ids_below(
                        self.innovation_id,
                    ),
                forall|t: int| 0 <= t < survivors@.len() ==> (#[trigger] survivors@[t]).age >= 1,
                forall|t: int, u: int|
                    0 <= t < survivors@.len() && 0 <= u < survivors@[t].organisms@.len() - 1 ==> (
                    #[trigger] survivors@[t].organisms@[u]).fitness == ZERO_BITS,
                forall|t: int| 0 <= t < rest2@.len() ==> (#[trigger] rest2@[t]).age >= 1,
                forall|t: int, u: int|
                    0 <= t < rest2@.len() && 0 <= u < rest2@[t].organisms@.len() - 1 ==> (
                    #[trigger] rest2@[t].organisms@[u]).fitness == ZERO_BITS,
                population_views(survivors@).add(population_views(rest2@)) == population_views(
                    reproduced,
                ),
                population_views(survivors@).count(wpair) > 0 || (exists|t: int|
                    0 <= t < rest2@.len() && (#[trigger] rest2@[t]).organisms@.len() > 0
                        && org_views(rest2@[t].organisms@).to_multiset().count(wpair) > 0),
            decreases rest2@.len(),
        {
            let ghost pre_rest = rest2@;
            let sp = rest2.remove(0);
            proof {
                assert(rest2@ =~= pre_rest.drop_first());
                lemma_views_flat_first(pre_rest);
            }
            if sp.organisms.len() > 0 {
                let ghost pre_surv = survivors@;
                survivors.push(sp);
                proof {
                    lemma_population_views_push(pre_surv, sp);
                    assert forall|t: int|
                        0 <= t < rest2@.len() implies rest2@[t] == pre_rest[t + 1] by {
                    }
                    if population_views(pre_surv).count(wpair) > 0 {
                        assert(population_views(survivors@).count(wpair) > 0);
                    } else {
                        let t = choose|t: int|
                            0 <= t < pre_rest.len() && (#[trigger] pre_rest[t]).organisms@.len()
                                > 0 && org_views(pre_rest[t].organisms@).to_multiset().count(wpair)
                                > 0;
                        if t == 0 {
                            assert(population_views(survivors@).count(wpair) > 0);
                        } else {
                            assert(rest2@[t - 1] == pre_rest[t]);
                        }
                    }
                }
            } else {
                proof {
                    assert(org_views(sp.organisms@) =~= Seq::<(GenomeView, RealBits)>::empty());
                    assert(org_views(sp.organisms@).to_multiset() =~= Multiset::<(
                        GenomeView,
                        RealBits,
                    )>::empty());
                    assert forall|t: int|
                        0 <= t < rest2@.len() implies rest2@[t] == pre_rest[t + 1] by {
                    }
                    if population_views(survivors@).count(wpair) > 0 {
                    } else {
                        let t = choose|t: int|
                            0 <= t < pre_rest.len() && (#[trigger] pre_rest[t]).organisms@.len()
                                > 0 && org_views(pre_rest[t].organisms@).to_multiset().count(wpair)
                                > 0;
                        assert(t != 0);
                        assert(rest2@[t - 1] == pre_rest[t]);
                    }
                }
            }
        }
        proof {
            assert(population_views(rest2@) == Multiset::<(GenomeView, RealBits)>::empty());
            assert(population_views(survivors@) =~= population_views(reproduced));
            assert(population_views(survivors@).count(wpair) > 0);
            if survivors@.len() == 0 {
                assert(population_views(survivors@) == Multiset::<(GenomeView, RealBits)>::empty());
            }
        }
        self.species = survivors;
    }

    /// Evaluate every organism through the environment and refresh the
    /// champion bookkeeping.  A negative fitness is normalized at
    /// `-0.0` and otherwise fatal, as is a non-finite one: the
    /// generation aborts with [`NeatError::InvalidFitness`].  On
    /// success every organism carries a valid fitness, the recorded
    /// champion fitness is the population-wide maximum, and the
    /// improvement counter grows exactly when that maximum does not
    /// beat the previous record.
    pub fn evaluate_in<E: Environment>(&mut self, environment: &E) -> (r: Result<(), NeatError>)
        requires
            old(self).wf(),
        ensures
            final(self).wf(),
            final(self).species@.len() == old(self).species@.len(),
            forall|i: int|
                0 <= i < final(self).species@.len() ==> (
                #[trigger] final(self).species@[i]).organisms@.len() == old(self).species@[
                    i
                ].organisms@.len(),
            forall|i: int, j: int|
                0 <= i < final(self).species@.len() && 0 <= j < final(self).species@[
                    i
                ].organisms@.len() ==> (#[trigger] final(self).species@[i].organisms@[j]).genome@
                    == old(self).species@[i].organisms@[j].genome@,
            final(self).innovation_id == old(self).innovation_id,
            final(self).next_specie_id == old(self).next_specie_id,
            r is Err ==> final(self).champion == old(self).champion
                && final(self).champion_fitness == old(self).champion_fitness
                && final(self).epochs_without_improvements == old(
                self,
            ).epochs_without_improvements,
            r is Ok && old(self).champion_fitness >= final(self).champion_fitness
                ==> final(self).champion == old(self).champion,
            r is Ok ==> forall|i: int, j: int|
                0 <= i < final(self).species@.len() && 0 <= j < final(self).species@[
                    i
                ].organisms@.len() ==> valid_fitness_bits(
                    (#[trigger] final(self).species@[i].organisms@[j]).fitness,
                ),
            r is Ok ==> forall|i: int, j: int|
                0 <= i < final(self).species@.len() && 0 <= j < final(self).species@[
                    i
                ].organisms@.len() ==> (#[trigger] final(self).species@[i].organisms@[j]).fitness
                    <= final(self).champion_fitness,
            r is Ok ==> exists|i: int, j: int|
                0 <= i < final(self).species@.len() && 0 <= j < final(self).species@[
                    i
                ].organisms@.len() && (#[trigger] final(self).species@[i].organisms@[j]).fitness
                    == final(self).champion_fitness,
            r is Ok && old(self).champion_fitness < final(self).champion_fitness ==> (final(self).champion is Some
                && exists|i: int, j: int|
                0 <= i < final(self).species@.len() && 0 <= j < final(self).species@[
                    i
                ].organisms@.len() && (#[trigger] final(self).species@[i].organisms@[j]).genome@
                    == final(self).champion->Some_0.genome@ && final(self).species@[i].organisms@[
                    j
                ].fitness == final(self).champion->Some_0.fitness),
            r is Ok ==> (final(self).epochs_without_improvements == (if old(self).champion_fitness
                >= final(self).champion_fitness {
                if old(self).epochs_without_improvements < usize::MAX {
                    old(self).epochs_without_improvements + 1
                } else {
                    old(self).epochs_without_improvements as int
                }
            } else {
                0
            })),
    {
        let n_species = self.species.len();
        let mut i: usize = 0;
        while i < n_species
            invariant
                i <= n_species,
                n_species == self.species@.len(),
                self.species@.len() == old(self).species@.len(),
                forall|t: int| 0 <= t < n_species ==> (#[trigger] self.species@[t]).wf(),
                forall|t: int|
                    0 <= t < n_species ==> (#[trigger] self.species@[t]).organisms@.len()
                        == old(self).species@[t].organisms@.len(),
                forall|t: int, u: int|
                    0 <= t < n_species && 0 <= u < self.species@[t].organisms@.len() ==> (
                    #[trigger] self.species@[t].organisms@[u]).genome@ == old(self).species@[
                        t
                    ].organisms@[u].genome@,
                forall|t: int|
                    0 <= t < n_species ==> (#[trigger] self.species@[t]).ids_below(
                        self.innovation_id,
                    ),
                forall|t: int|
                    0 <= t < n_species ==> (#[trigger] self.species@[t]).organisms@.len() > 0,
                forall|t: int, u: int|
                    0 <= t < i && 0 <= u < self.species@[t].organisms@.len()
                        ==> valid_fitness_bits(
                        (#[trigger] self.species@[t].organisms@[u]).fitness,
                    ),
                self.innovation_id == old(self).innovation_id,
                self.next_specie_id == old(self).next_specie_id,
                self.champion == old(self).champion,
                self.champion_fitness == old(self).champion_fitness,
                self.epochs_without_improvements == old(self).epochs_without_improvements,
                old(self).wf(),
            decreases n_species - i,
        {
            let n_members = self.species[i].organisms.len();
            let mut j: usize = 0;
            while j < n_members
                invariant
                    j <= n_members,
                    i < n_species,
                    n_species == self.species@.len(),
                    self.species@.len() == old(self).species@.len(),
                    n_members == self.species@[i as int].organisms@.len(),
                    forall|t: int| 0 <= t < n_species ==> (#[trigger] self.species@[t]).wf(),
                    forall|t: int|
                        0 <= t < n_species ==> (#[trigger] self.species@[t]).organisms@.len()
                            == old(self).species@[t].organisms@.len(),
                    forall|t: int, u: int|
                        0 <= t < n_species && 0 <= u < self.species@[t].organisms@.len() ==> (
                        #[trigger] self.species@[t].organisms@[u]).genome@ == old(self).species@[
                            t
                        ].organisms@[u].genome@,
                    forall|t: int|
                        0 <= t < n_species ==> (#[trigger] self.species@[t]).ids_below(
                            self.innovation_id,
                        ),
                    forall|t: int|
                        0 <= t < n_species ==> (#[trigger] self.species@[t]).organisms@.len() > 0,
                    forall|t: int, u: int|
                        0 <= t < i && 0 <= u < self.species@[t].organisms@.len()
                            ==> valid_fitness_bits(
                            (#[trigger] self.species@[t].organisms@[u]).fitness,
                        ),
                    forall|u: int|
                        0 <= u < j ==> valid_fitness_bits(
                            (#[trigger] self.species@[i as int].organisms@[u]).fitness,
                        ),
                    self.innovation_id == old(self).innovation_id,
                    self.next_specie_id == old(self).next_specie_id,
                    self.champion == old(self).champion,
                    self.champion_fitness == old(self).champion_fitness,
                    self.epochs_without_improvements == old(self).epochs_without_improvements,
                    old(self).wf(),
                decreases n_members - j,
            {
                let f = environment.test(&self.species[i].organisms[j].genome);
                let f = if f == SIGN_BIT {
                    ZERO_BITS
                } else {
                    f
                };
                if f >= INFINITY_BITS {
                    proof {
                        lemma_views_flat_len_eq(
                            old(self).species@,
                            self.species@,
                            self.species@.len() as int,
                        );
                    }
                    return Err(NeatError::InvalidFitness);
                }
                self.species[i].organisms[j].fitness = f;
                j = j + 1;
            }
            i = i + 1;
        }
        let mut bi: usize = 0;
        let mut bj: usize = 0;
        let mut best: RealBits = self.species[0].organisms[0].fitness;
        let mut i2: usize = 0;
        while i2 < n_species
            invariant
                i2 <= n_species,
                n_species == self.species@.len(),
                bi < n_species,
                bj < self.species@[bi as int].organisms@.len(),
                best == self.species@[bi as int].organisms@[bj as int].fitness,
                forall|t: int| 0 <= t < n_species ==> (#[trigger] self.species@[t]).wf(),
                forall|t: int|
                    0 <= t < n_species ==> (#[trigger] self.species@[t]).organisms@.len() > 0,
                forall|t: int, u: int|
                    0 <= t < i2 && 0 <= u < self.species@[t].organisms@.len() ==> (
                    #[trigger] self.species@[t].organisms@[u]).fitness <= best,
            decreases n_species - i2,
        {
            let n_members = self.species[i2].organisms.len();
            let mut j2: usize = 0;
            while j2 < n_members
                invariant
                    j2 <= n_members,
                    i2 < n_species,
                    n_species == self.species@.len(),
                    n_members == self.species@[i2 as int].organisms@.len(),
                    bi < n_species,
                    bj < self.species@[bi as int].organisms@.len(),
                    best == self.species@[bi as int].organisms@[bj as int].fitness,
                    forall|t: int| 0 <= t < n_species ==> (#[trigger] self.species@[t]).wf(),
                    forall|t: int|
                        0 <= t < n_species ==> (#[trigger] self.species@[t]).organisms@.len() > 0,
                    forall|t: int, u: int|
                        0 <= t < i2 && 0 <= u < self.species@[t].organisms@.len() ==> (
                        #[trigger] self.species@[t].organisms@[u]).fitness <= best,
                    forall|u: int|
                        0 <= u < j2 ==> (#[trigger] self.species@[i2 as int].organisms@[u]).fitness
                            <= best,
                decreases n_members - j2,
            {
                if self.species[i2].organisms[j2].fitness > best {
                    best = self.species[i2].organisms[j2].fitness;
                    bi = i2;
                    bj = j2;
                }
                j2 = j2 + 1;
            }
            i2 = i2 + 1;
        }
        if self.champion_fitness >= best {
            if self.epochs_without_improvements < usize::MAX {
                self.epochs_without_improvements = self.epochs_without_improvements + 1;
            }
        } else {
            self.champion = Some((&self.species[bi].organisms[bj]).duplicate());
            self.epochs_without_improvements = 0;
        }
        self.champion_fitness = best;
        proof {
            lemma_views_flat_len_eq(old(self).species@, self.species@, self.species@.len() as int);
        }
        Ok(())
    }

    /// One generation: speciation, stagnation filtering, offspring
    /// allotment, reproduction, then evaluation of every organism
    /// through the environment.
    ///
    /// The population size is preserved exactly and both counters grow
    /// by at most that size, so a caller can chain generations.  A
    /// genome of maximal pre-call fitness is still present afterwards
    /// (reproduction copies the champion verbatim and evaluation never
    /// touches a genome).  On success every organism carries a valid
    /// fitness, the recorded champion fitness is their maximum, and
    /// the improvement counter resets exactly when that maximum beats
    /// the previous record; an invalid fitness aborts with an error,
    /// still leaving the population well-formed and of the same size.
    pub fn evolve<E: Environment, A: RealArith>(
        &mut self,
        environment: &E,
        arith: &A,
        p: &NeatParams,
    ) -> (r: Result<(), NeatError>)
        requires
            old(self).wf(),
            old(self).innovation_id + population_count(old(self).species@) <= usize::MAX,
            old(self).next_specie_id + population_count(old(self).species@) <= usize::MAX,
        ensures
            final(self).wf(),
            population_count(final(self).species@) == population_count(old(self).species@),
            old(self).innovation_id <= final(self).innovation_id <= old(self).innovation_id
                + population_count(old(self).species@),
            old(self).next_specie_id <= final(self).next_specie_id <= old(self).next_specie_id
                + population_count(old(self).species@),
            exists|g: GenomeView, f: RealBits|
                {
                    &&& #[trigger] population_views(old(self).species@).count((g, f)) > 0
                    &&& forall|q: (GenomeView, RealBits)|
                        population_views(old(self).species@).count(q) > 0 ==> q.1 <= f
                    &&& exists|i: int, j: int|
                        0 <= i < final(self).species@.len() && 0 <= j < final(self).species@[
                            i
                        ].organisms@.len() && (#[trigger] final(self).species@[i].organisms@[
                            j
                        ]).genome@ == g
                },
            r is Ok ==> forall|i: int, j: int|
                0 <= i < final(self).species@.len() && 0 <= j < final(self).species@[
                    i
                ].organisms@.len() ==> valid_fitness_bits(
                    (#[trigger] final(self).species@[i].organisms@[j]).fitness,
                ),
            r is Ok ==> forall|i: int, j: int|
                0 <= i < final(self).species@.len() && 0 <= j < final(self).species@[
                    i
                ].organisms@.len() ==> (#[trigger] final(self).species@[i].organisms@[j]).fitness
                    <= final(self).champion_fitness,
            r is Ok ==> exists|i: int, j: int|
                0 <= i < final(self).species@.len() && 0 <= j < final(self).species@[
                    i
                ].organisms@.len() && (#[trigger] final(self).species@[i].organisms@[j]).fitness
                    == final(self).champion_fitness,
            r is Ok ==> (final(self).epochs_without_improvements == (if old(self).champion_fitness
                >= final(self).champion_fitness {
                if old(self).epochs_without_improvements < usize::MAX {
                    old(self).epochs_without_improvements + 1
                } else {
                    old(self).epochs_without_improvements as int
                }
            } else {
                0
            })),
    {
        self.generate_offspring(arith, p);
        let ghost pair = choose|pair: (GenomeView, RealBits)|
            {
                &&& #[trigger] population_views(self.species@).count(pair) > 0
                &&& population_views(old(self).species@).count(pair) > 0
                &&& forall|q: (GenomeView, RealBits)|
                    population_views(old(self).species@).count(q) > 0 ==> q.1 <= pair.1
            };
        proof {
            lemma_views_flat_member_exists(self.species@, pair, self.species@.len() as int);
        }
        let ghost pre = self.species@;
        let r = self.evaluate_in(environment);
        proof {
            lemma_views_flat_len_eq(pre, self.species@, self.species@.len() as int);
            let (wi, wj) = choose|wi: int, wj: int|
                0 <= wi < pre.len() && 0 <= wj < pre[wi].organisms@.len() && (
                #[trigger] pre[wi].organisms@[wj]).genome@ == pair.0 && pre[wi].organisms@[
                    wj
                ].fitness == pair.1;
            assert(self.species@[wi].organisms@[wj].genome@ == pair.0);
        }
        r
    }

    /// How many evaluations in a row came without improvement.
    pub fn epochs_without_improvements(&self) -> (r: usize)
        ensures
            r == self.epochs_without_improvements,
    {
        self.epochs_without_improvements
    }
}

} // verus!
