//! A species: a bucket of organisms sharing a representative, with its
//! historical statistics, and the per-species reproduction policy —
//! sorting by fitness, culling, one elite copied verbatim, and the
//! remaining offspring mated from sampled parents and possibly
//! mutated.

use vstd::prelude::*;
use vstd::seq_lib::group_to_multiset_ensures;
use crate::RealBits;
use crate::arith::{RealArith, ZERO_BITS};
use crate::genome::{ids_below, NeuralNetwork};
use crate::organism::Organism;
use crate::params::NeatParams;
use crate::rng::{bernoulli, random_below, random_in};

verus! {

/// Every organism of the sequence has a well-formed genome.
pub open spec fn organisms_wf(s: Seq<Organism>) -> bool {
    forall|i: int| 0 <= i < s.len() ==> (#[trigger] s[i]).wf()
}

/// Every organism's neuron ids lie below `bound`.
pub open spec fn organisms_ids_below(s: Seq<Organism>, bound: usize) -> bool {
    forall|i: int| 0 <= i < s.len() ==> ids_below((#[trigger] s[i]).genome@, bound)
}

/// `c` carries a member's genome and fitness, and no member's
/// fitness exceeds `c`'s.
pub open spec fn is_champion_of(c: Organism, members: Seq<Organism>) -> bool {
    &&& exists|i: int|
        0 <= i < members.len() && (#[trigger] members[i]).genome@ == c.genome@ && members[i].fitness
            == c.fitness
    &&& forall|j: int| 0 <= j < members.len() ==> (#[trigger] members[j]).fitness <= c.fitness
}

/// The sequence is ascending in fitness.
pub open spec fn sorted_by_fitness(s: Seq<Organism>) -> bool {
    forall|a: int, b: int| 0 <= a <= b < s.len() ==> s[a].fitness <= s[b].fitness
}

/// Sort organisms ascending by fitness (selection sort).  The result
/// is a permutation of the input.
fn sort_by_fitness(v: Vec<Organism>) -> (r: Vec<Organism>)
    ensures
        r@.to_multiset() == v@.to_multiset(),
        r@.len() == v@.len(),
        sorted_by_fitness(r@),
{
    broadcast use group_to_multiset_ensures;

    let mut rest = v;
    let mut out: Vec<Organism> = Vec::new();
    proof {
        assert(out@.to_multiset().add(rest@.to_multiset()) =~= v@.to_multiset());
    }
    while rest.len() > 0
        invariant
            out@.to_multiset().add(rest@.to_multiset()) == v@.to_multiset(),
            out@.len() + rest@.len() == v@.len(),
            sorted_by_fitness(out@),
            forall|a: int, b: int|
                0 <= a < out@.len() && 0 <= b < rest@.len() ==> out@[a].fitness
                    <= rest@[b].fitness,
        decreases rest@.len(),
    {
        let mut m: usize = 0;
        let mut i: usize = 1;
        while i < rest.len()
            invariant
                m < rest@.len(),
                i <= rest@.len(),
                forall|t: int| 0 <= t < i ==> rest@[m as int].fitness <= rest@[t].fitness,
            decreases rest@.len() - i,
        {
            if rest[i].fitness < rest[m].fitness {
                m = i;
            }
            i = i + 1;
        }
        let ghost pre = rest@;
        let ghost pre_out = out@;
        let x = rest.remove(m);
        out.push(x);
        proof {
            assert(rest@.to_multiset() =~= pre.to_multiset().remove(x));
            assert(out@.to_multiset() =~= pre_out.to_multiset().insert(x));
            assert(pre.contains(x)) by {
                assert(pre[m as int] == x);
            }
            assert(pre.to_multiset().count(x) > 0);
            assert(out@.to_multiset().add(rest@.to_multiset()) =~= pre_out.to_multiset().add(
                pre.to_multiset(),
            ));
            assert forall|a: int, b: int|
                0 <= a < out@.len() && 0 <= b < rest@.len() implies out@[a].fitness
                <= rest@[b].fitness by {
                assert(rest@[b] == (if b < m { pre[b] } else { pre[b + 1] }));
                if a < pre_out.len() {
                    assert(out@[a] == pre_out[a]);
                } else {
                    assert(out@[a] == x);
                }
            }
            assert forall|a: int, b: int|
                0 <= a <= b < out@.len() implies out@[a].fitness <= out@[b].fitness by {
                if b < pre_out.len() {
                } else {
                    assert(out@[b] == x);
                    if a < pre_out.len() {
                        assert(out@[a].fitness <= pre[m as int].fitness);
                    }
                }
            }
        }
    }
    proof {
        assert(out@.to_multiset().add(rest@.to_multiset()) =~= out@.to_multiset());
        assert(out@.to_multiset() =~= v@.to_multiset());
        assert(out@.to_multiset().len() == v@.to_multiset().len());
    }
    out
}

/// A species: a numeric id, a representative organism from the
/// previous generation, the current members, the cached champion, and
/// the age statistics that drive stagnation.
#[derive(Debug)]
pub struct Specie {
    /// Identifier of the species, handed out by the population's
    /// monotonic counter.
    pub id: usize,
    /// A representative organism from the previous generation, used to
    /// test membership.
    pub representative: Organism,
    /// The cached champion; set by [`Specie::update_champion`].
    pub champion: Option<Organism>,
    /// Number of generations this species has existed.
    pub age: usize,
    /// The age of the species at the last champion improvement.
    pub age_last_improvement: usize,
    /// All organisms in this species.
    pub organisms: Vec<Organism>,
}

impl Specie {
    /// The species' genomes are all well-formed.
    pub open spec fn wf(&self) -> bool {
        &&& organisms_wf(self.organisms@)
        &&& self.representative.wf()
        &&& (self.champion matches Some(c) ==> c.wf())
    }

    /// Every member's neuron ids lie below `bound`.
    pub open spec fn ids_below(&self, bound: usize) -> bool {
        organisms_ids_below(self.organisms@, bound) && ids_below(self.representative.genome@, bound)
    }

    /// Create a new species with a representative organism as its only
    /// member.
    pub fn new(organism: Organism, id: usize) -> (s: Specie)
        requires
            organism.wf(),
        ensures
            s.wf(),
            s.id == id,
            s.age == 0,
            s.age_last_improvement == 0,
            s.champion is None,
            s.organisms@.len() == 1,
            s.organisms@[0] == organism,
            s.representative.genome@ == organism.genome@,
            s.representative.fitness == organism.fitness,
    {
        let representative = organism.duplicate();
        let mut organisms: Vec<Organism> = Vec::new();
        organisms.push(organism);
        Specie { id, representative, champion: None, age: 0, age_last_improvement: 0, organisms }
    }

    /// Append an organism to the member list.
    pub fn add(&mut self, organism: Organism)
        requires
            old(self).wf(),
            organism.wf(),
        ensures
            final(self).wf(),
            final(self).organisms@ == old(self).organisms@.push(organism),
            final(self).id == old(self).id,
            final(self).age == old(self).age,
            final(self).age_last_improvement == old(self).age_last_improvement,
            final(self).representative == old(self).representative,
            final(self).champion == old(self).champion,
    {
        self.organisms.push(organism);
    }

    /// Whether a genome matches this species: its compatibility
    /// distance to the representative lies under the threshold.
    pub fn match_genome<A: RealArith>(
        &self,
        genome: &NeuralNetwork,
        arith: &A,
        p: &NeatParams,
    ) -> bool
        requires
            self.wf(),
            genome.wf(),
    {
        self.representative.genome.is_same_specie(genome, arith, p)
    }

    /// The member with the highest fitness (the first of them, on
    /// ties), as an owned copy.
    pub fn get_champion(&self) -> (r: Organism)
        requires
            self.wf(),
            self.organisms@.len() > 0,
        ensures
            r.wf(),
            is_champion_of(r, self.organisms@),
    {
        let mut best: usize = 0;
        let mut i: usize = 1;
        while i < self.organisms.len()
            invariant
                best < self.organisms@.len(),
                i <= self.organisms@.len(),
                forall|t: int|
                    0 <= t < i ==> (#[trigger] self.organisms@[t]).fitness <= self.organisms@[
                        best as int
                    ].fitness,
            decreases self.organisms@.len() - i,
        {
            if self.organisms[i].fitness > self.organisms[best].fitness {
                best = i;
            }
            i = i + 1;
        }
        (&self.organisms[best]).duplicate()
    }

    /// Recompute and cache the champion; when its fitness strictly
    /// exceeds the previously cached champion's, record the current
    /// age as the age of last improvement.
    pub fn update_champion(&mut self)
        requires
            old(self).wf(),
            old(self).organisms@.len() > 0,
        ensures
            final(self).wf(),
            final(self).champion is Some,
            is_champion_of(final(self).champion->Some_0, final(self).organisms@),
            final(self).organisms == old(self).organisms,
            final(self).id == old(self).id,
            final(self).age == old(self).age,
            final(self).representative == old(self).representative,
            final(self).age_last_improvement == (match old(self).champion {
                Some(oc) => if final(self).champion->Some_0.fitness > oc.fitness {
                    old(self).age
                } else {
                    old(self).age_last_improvement
                },
                None => old(self).age_last_improvement,
            }),
    {
        let new_champion = self.get_champion();
        match &self.champion {
            Some(oc) => {
                if new_champion.fitness > oc.fitness {
                    self.age_last_improvement = self.age;
                }
            },
            None => {
            },
        }
        self.champion = Some(new_champion);
    }

    /// The cached champion's fitness.
    pub fn champion_fitness(&self) -> (r: RealBits)
        requires
            self.champion is Some,
        ensures
            r == self.champion->Some_0.fitness,
    {
        match &self.champion {
            Some(c) => c.fitness,
            None => ZERO_BITS,
        }
    }

    /// The average fitness of the members, folded with the host
    /// arithmetic; `0.0` for an empty species.
    pub fn average_fitness<A: RealArith>(&self, arith: &A) -> (r: RealBits)
        ensures
            self.organisms@.len() == 0 ==> r == ZERO_BITS,
    {
        let n = self.organisms.len();
        if n == 0 {
            return ZERO_BITS;
        }
        let mut total: RealBits = ZERO_BITS;
        let mut i: usize = 0;
        while i < n
            invariant
                i <= n,
                n == self.organisms@.len(),
            decreases n - i,
        {
            total = arith.plus(total, self.organisms[i].fitness);
            i = i + 1;
        }
        arith.div_by(total, arith.of_usize(n))
    }

    /// An owned copy of the representative organism.
    pub fn get_representative(&self) -> (r: Organism)
        requires
            self.wf(),
        ensures
            r.wf(),
            r.genome@ == self.representative.genome@,
            r.fitness == self.representative.fitness,
    {
        self.representative.duplicate()
    }

    /// Clear the member list.
    pub fn remove_organisms(&mut self)
        ensures
            final(self).organisms@.len() == 0,
            final(self).id == old(self).id,
            final(self).age == old(self).age,
            final(self).age_last_improvement == old(self).age_last_improvement,
            final(self).representative == old(self).representative,
            final(self).champion == old(self).champion,
    {
        self.organisms = Vec::new();
    }

    /// Create one child: mate a parent with a second parent from this
    /// species — or, behind the interspecies gate, from the whole
    /// population — then mutate it behind the mutation gate.
    fn create_child<A: RealArith>(
        &self,
        parent: usize,
        population_organisms: &Vec<Organism>,
        innovation_id: &mut usize,
        arith: &A,
        p: &NeatParams,
    ) -> (child: Organism)
        requires
            self.wf(),
            parent < self.organisms@.len(),
            organisms_wf(population_organisms@),
            population_organisms@.len() > 0,
            organisms_ids_below(self.organisms@, *old(innovation_id)),
            organisms_ids_below(population_organisms@, *old(innovation_id)),
            *old(innovation_id) < usize::MAX,
        ensures
            child.wf(),
            child.fitness == ZERO_BITS,
            *old(innovation_id) <= *final(innovation_id) <= *old(innovation_id) + 1,
            ids_below(child.genome@, *final(innovation_id)),
    {
        let o = &self.organisms[parent];
        proof {
            assert(ids_below(self.organisms@[parent as int].genome@, *innovation_id));
        }
        let mut child: Organism;
        if bernoulli(p.interspecie_mate_pr) {
            let m = random_below(population_organisms.len());
            proof {
                assert(ids_below(population_organisms@[m as int].genome@, *innovation_id));
            }
            child = o.mate(&population_organisms[m]);
        } else {
            let m = random_below(self.organisms.len());
            proof {
                assert(ids_below(self.organisms@[m as int].genome@, *innovation_id));
            }
            child = o.mate(&self.organisms[m]);
        }
        proof {
            assert(ids_below(child.genome@, *innovation_id));
        }
        if bernoulli(p.mutation_pr) {
            child.mutate(innovation_id, arith, p);
        }
        child
    }

    /// Replace the members with `n_offspring` offspring: the top
    /// member is copied verbatim (the elite), and the rest are created
    /// by crossover of parents sampled above the culled fraction, each
    /// possibly mutated.  Increments the species' age.
    pub fn generate_offspring<A: RealArith>(
        &mut self,
        n_offspring: usize,
        population_organisms: &Vec<Organism>,
        innovation_id: &mut usize,
        arith: &A,
        p: &NeatParams,
    )
        requires
            old(self).wf(),
            old(self).organisms@.len() > 0,
            organisms_wf(population_organisms@),
            population_organisms@.len() > 0,
            organisms_ids_below(old(self).organisms@, *old(innovation_id)),
            organisms_ids_below(population_organisms@, *old(innovation_id)),
            *old(innovation_id) + n_offspring <= usize::MAX,
        ensures
            final(self).wf(),
            final(self).organisms@.len() == n_offspring,
            final(self).age == (if old(self).age < usize::MAX {
                old(self).age + 1
            } else {
                old(self).age as int
            }),
            final(self).id == old(self).id,
            final(self).age_last_improvement == old(self).age_last_improvement,
            final(self).representative == old(self).representative,
            *old(innovation_id) <= *final(innovation_id) <= *old(innovation_id) + n_offspring,
            organisms_ids_below(final(self).organisms@, *final(innovation_id)),
            forall|t: int|
                0 <= t < n_offspring - 1 ==> (#[trigger] final(self).organisms@[t]).fitness
                    == ZERO_BITS,
            n_offspring > 0 ==> exists|j: int|
                0 <= j < old(self).organisms@.len() && (#[trigger] old(self).organisms@[j]).genome@
                    == final(self).organisms@[n_offspring - 1].genome@ && old(self).organisms@[
                    j
                ].fitness == final(self).organisms@[n_offspring - 1].fitness && (forall|t: int|
                    0 <= t < old(self).organisms@.len() ==> (#[trigger] old(self).organisms@[
                    t]).fitness <= old(self).organisms@[j].fitness),
    {
        broadcast use group_to_multiset_ensures;

        if self.age < usize::MAX {
            self.age = self.age + 1;
        }
        if n_offspring == 0 {
            self.organisms = Vec::new();
            return ;
        }
        let ghost orig_members = self.organisms@;
        let mut members: Vec<Organism> = Vec::new();
        core::mem::swap(&mut members, &mut self.organisms);
        let sorted = sort_by_fitness(members);
        self.organisms = sorted;
        proof {
            assert forall|i: int| 0 <= i < self.organisms@.len() implies (
            #[trigger] self.organisms@[i]).wf() && ids_below(
                self.organisms@[i].genome@,
                *innovation_id,
            ) && (exists|j: int|
                0 <= j < orig_members.len() && orig_members[j] == self.organisms@[i]) by {
                assert(self.organisms@.to_multiset().contains(self.organisms@[i]));
                assert(orig_members.to_multiset().contains(self.organisms@[i]));
                assert(orig_members.contains(self.organisms@[i]));
                let j = choose|j: int|
                    0 <= j < orig_members.len() && orig_members[j] == self.organisms@[i];
                assert(orig_members[j].wf());
                assert(ids_below(orig_members[j].genome@, *innovation_id));
            }
        }
        let len = self.organisms.len();
        let first_elite = len - 1;
        let n_random = n_offspring - 1;
        proof {
            assert((len as u128) * (p.cull_fraction as u128) <= u128::MAX) by (nonlinear_arith)
                requires
                    (len as u128) < 0x10000000000000000u128,
                    (p.cull_fraction as u128) < 0x10000000000000000u128,
            ;
        }
        let cull_limit: u128 = (len as u128) * (p.cull_fraction as u128) / 0x20000000000000u128;
        let n_to_cull: usize = if cull_limit < (first_elite as u128) {
            cull_limit as usize
        } else {
            first_elite
        };
        let ghost innov0 = *innovation_id;
        let mut offspring: Vec<Organism> = Vec::new();
        let mut c: usize = 0;
        while c < n_random
            invariant
                c <= n_random,
                n_random < n_offspring,
                offspring@.len() == c,
                self.wf(),
                self.organisms@.len() == len,
                len > 0,
                n_to_cull < len,
                organisms_wf(offspring@),
                forall|t: int| 0 <= t < c ==> (#[trigger] offspring@[t]).fitness == ZERO_BITS,
                organisms_wf(population_organisms@),
                population_organisms@.len() > 0,
                organisms_ids_below(self.organisms@, *innovation_id),
                organisms_ids_below(population_organisms@, *innovation_id),
                organisms_ids_below(offspring@, *innovation_id),
                innov0 <= *innovation_id <= innov0 + c,
                innov0 + n_offspring <= usize::MAX,
            decreases n_random - c,
        {
            let idx = random_in(n_to_cull, len);
            let ghost innov_pre = *innovation_id;
            let child = self.create_child(idx, population_organisms, innovation_id, arith, p);
            proof {
                assert forall|i: int| 0 <= i < offspring@.len() implies ids_below(
                    (#[trigger] offspring@[i]).genome@,
                    *innovation_id,
                ) by {
                    assert(ids_below(offspring@[i].genome@, innov_pre));
                }
                assert forall|i: int| 0 <= i < self.organisms@.len() implies ids_below(
                    (#[trigger] self.organisms@[i]).genome@,
                    *innovation_id,
                ) by {
                    assert(ids_below(self.organisms@[i].genome@, innov_pre));
                }
                assert forall|i: int| 0 <= i < population_organisms@.len() implies ids_below(
                    (#[trigger] population_organisms@[i]).genome@,
                    *innovation_id,
                ) by {
                    assert(ids_below(population_organisms@[i].genome@, innov_pre));
                }
            }
            offspring.push(child);
            c = c + 1;
        }
        let elite = (&self.organisms[first_elite]).duplicate();
        offspring.push(elite);
        proof {
            assert(offspring@.len() == n_offspring);
            assert forall|i: int| 0 <= i < offspring@.len() implies (#[trigger] offspring@[i]).wf()
                && ids_below(offspring@[i].genome@, *innovation_id) by {
                if i < n_random {
                } else {
                    assert(offspring@[i].genome@ == self.organisms@[first_elite as int].genome@);
                    assert(ids_below(self.organisms@[first_elite as int].genome@, *innovation_id));
                }
            }
            let e = offspring@[n_offspring - 1];
            assert(e.genome@ == self.organisms@[first_elite as int].genome@);
            assert(self.organisms@.contains(self.organisms@[first_elite as int]));
            assert(self.organisms@.to_multiset().contains(self.organisms@[first_elite as int]));
            assert(orig_members.to_multiset().contains(self.organisms@[first_elite as int]));
            assert(orig_members.contains(self.organisms@[first_elite as int]));
            let j = choose|j: int|
                0 <= j < orig_members.len() && orig_members[j] == self.organisms@[
                    first_elite as int
                ];
            assert forall|t: int| 0 <= t < orig_members.len() implies (
            #[trigger] orig_members[t]).fitness <= orig_members[j].fitness by {
                assert(orig_members.contains(orig_members[t]));
                assert(orig_members.to_multiset().contains(orig_members[t]));
                assert(self.organisms@.to_multiset().contains(orig_members[t]));
                assert(self.organisms@.contains(orig_members[t]));
                let s = choose|s: int|
                    0 <= s < self.organisms@.len() && self.organisms@[s] == orig_members[t];
                assert(self.organisms@[s].fitness <= self.organisms@[first_elite as int].fitness);
            }
        }
        self.organisms = offspring;
    }
}

} // verus!
