//! The network genome: two insertion-ordered maps of genes, keyed by
//! stable identifiers — neurons by their innovation id, connections by
//! their `(source, sink)` pair.  All structural operations (adding
//! genes, crossover, mutation, the dense matrix for the evaluator) are
//! verified against the entry sequences of the two maps.

use vstd::prelude::*;
use indexmap::IndexMap;
use crate::RealBits;
use crate::arith::{RealArith, ONE_BITS, ZERO_BITS};
use crate::gene::{ConnectionGene, NeuronGene};
use crate::maps::{
    cm_clone, cm_get, cm_get_index, cm_insert, cm_len, cm_new, cm_set_index, conn_entries, has_key,
    nm_clone, nm_get_index, nm_index_of, nm_insert, nm_len, nm_new, nm_set_index, neuron_entries,
    unique_keys,
};
use crate::mutation::Mutation;
use crate::params::NeatParams;
use crate::rng::{bernoulli, random_below};

verus! {

/// The mathematical content of a genome: the entries of its two maps,
/// in insertion order.
pub ghost struct GenomeView {
    /// Neuron entries: `(innovation id, gene)`.
    pub neurons: Seq<(usize, NeuronGene)>,
    /// Connection entries: `((source, sink), gene)`.
    pub conns: Seq<((usize, usize), ConnectionGene)>,
}

/// A well-formed genome: keys are unique in both maps, every connection
/// gene agrees with the key it is stored under, and every connection's
/// source and sink id occur as neuron ids in the same genome.
pub open spec fn genome_wf(g: GenomeView) -> bool {
    &&& unique_keys(g.neurons)
    &&& unique_keys(g.conns)
    &&& forall|i: int| 0 <= i < g.conns.len() ==> (#[trigger] g.conns[i]).1.spec_id() == g.conns[i].0
    &&& forall|i: int|
        0 <= i < g.conns.len() ==> has_key(g.neurons, (#[trigger] g.conns[i]).0.0) && has_key(
            g.neurons,
            g.conns[i].0.1,
        )
}

/// Every neuron id of `g` lies below `bound` — the genome never uses an
/// id that the population's innovation counter has not yet handed out.
pub open spec fn ids_below(g: GenomeView, bound: usize) -> bool {
    forall|i: int| 0 <= i < g.neurons.len() ==> (#[trigger] g.neurons[i]).0 < bound
}

/// The index of the entry of `s` keyed `k` (the entry, when keys are
/// unique).
pub open spec fn key_index<K, V>(s: Seq<(K, V)>, k: K) -> int {
    choose|i: int| 0 <= i < s.len() && s[i].0 == k
}

/// The value stored under `k` in `s` (meaningful when `has_key(s, k)`).
pub open spec fn value_at<K, V>(s: Seq<(K, V)>, k: K) -> V {
    s[key_index(s, k)].1
}

/// The connection entries after adding (or reviving) the connection
/// `(in_neuron, out_neuron)` with weight `w`: an existing key keeps its
/// place and takes the fresh enabled gene, a new key is appended.
pub open spec fn conns_with(
    s: Seq<((usize, usize), ConnectionGene)>,
    in_neuron: usize,
    out_neuron: usize,
    w: RealBits,
) -> Seq<((usize, usize), ConnectionGene)> {
    let k = (in_neuron, out_neuron);
    let gene = ConnectionGene {
        in_neuron_id: in_neuron,
        out_neuron_id: out_neuron,
        weight: w,
        enabled: true,
    };
    if has_key(s, k) {
        Seq::new(
            s.len(),
            |i: int|
                if s[i].0 == k {
                    (k, gene)
                } else {
                    s[i]
                },
        )
    } else {
        s.push((k, gene))
    }
}

/// The view of a seed genome with `n` neurons: ids `0..n` in order,
/// bias zero, and no connections.
pub open spec fn seed_view(n: nat) -> GenomeView {
    GenomeView {
        neurons: Seq::new(n, |i: int| (i as usize, NeuronGene { bias: ZERO_BITS })),
        conns: Seq::<((usize, usize), ConnectionGene)>::empty(),
    }
}

/// The connection entries `t` are `s` after splitting the connection
/// at `idx` with the fresh neuron `new_id`: the picked gene is
/// disabled in place, a connection from its source to `new_id` with
/// weight `1.0` is added, and one from `new_id` to its sink with the
/// old weight.
pub open spec fn split_connection(
    s: Seq<((usize, usize), ConnectionGene)>,
    idx: int,
    new_id: usize,
    t: Seq<((usize, usize), ConnectionGene)>,
) -> bool {
    let e = s[idx];
    let disabled = ConnectionGene {
        in_neuron_id: e.1.in_neuron_id,
        out_neuron_id: e.1.out_neuron_id,
        weight: e.1.weight,
        enabled: false,
    };
    let step1 = s.update(idx, (e.0, disabled));
    let step2 = conns_with(step1, e.1.in_neuron_id, new_id, ONE_BITS);
    t == conns_with(step2, new_id, e.1.out_neuron_id, e.1.weight)
}

/// The cell `(row, col)` of a row-major `n`-column matrix stored as a
/// flat sequence.
pub open spec fn mat_at(m: Seq<RealBits>, n: int, row: int, col: int) -> RealBits {
    m[row * n + col]
}

/// The value of the weight-matrix cell `(row, col)` after the first `c`
/// connection entries have been written into the matrix: the weight of
/// the last enabled connection among them from the neuron at position
/// `col` to the neuron at position `row`, or `0.0`.
pub open spec fn prefix_cell(g: GenomeView, c: int, row: int, col: int) -> RealBits
    decreases c,
{
    if c <= 0 {
        ZERO_BITS
    } else {
        let e = g.conns[c - 1];
        if e.1.enabled && e.0.0 == g.neurons[col].0 && e.0.1 == g.neurons[row].0 {
            e.1.weight
        } else {
            prefix_cell(g, c - 1, row, col)
        }
    }
}

/// The value of the weight-matrix cell `(row, col)`: the weight of the
/// enabled connection from the neuron at position `col` to the neuron
/// at position `row`, or `0.0` where there is none.
pub open spec fn weight_cell(g: GenomeView, row: int, col: int) -> RealBits {
    prefix_cell(g, g.conns.len() as int, row, col)
}

proof fn lemma_flat_index(n: int, row: int, col: int)
    requires
        0 <= row < n,
        0 <= col < n,
    ensures
        0 <= row * n + col < n * n,
{
    assert(0 <= row * n + col < n * n) by (nonlinear_arith)
        requires
            0 <= row < n,
            0 <= col < n,
    ;
}

proof fn lemma_flat_injective(n: int, r1: int, c1: int, r2: int, c2: int)
    requires
        0 <= r1 < n,
        0 <= c1 < n,
        0 <= r2 < n,
        0 <= c2 < n,
        r1 * n + c1 == r2 * n + c2,
    ensures
        r1 == r2 && c1 == c2,
{
    assert(r1 == r2 && c1 == c2) by (nonlinear_arith)
        requires
            0 <= r1 < n,
            0 <= c1 < n,
            0 <= r2 < n,
            0 <= c2 < n,
            r1 * n + c1 == r2 * n + c2,
    ;
}

/// Writing the enabled connection entry `c` into its cell advances
/// every cell of the matrix from prefix `c` to prefix `c + 1`.
proof fn lemma_matrix_update(
    g: GenomeView,
    c: int,
    pre: Seq<RealBits>,
    post: Seq<RealBits>,
    row: int,
    col: int,
    n: int,
)
    requires
        genome_wf(g),
        n == g.neurons.len(),
        0 <= c < g.conns.len(),
        g.conns[c].1.enabled,
        0 <= row < n,
        0 <= col < n,
        g.neurons[col].0 == g.conns[c].0.0,
        g.neurons[row].0 == g.conns[c].0.1,
        pre.len() == n * n,
        forall|r2: int, c2: int|
            0 <= r2 < n && 0 <= c2 < n ==> #[trigger] mat_at(pre, n, r2, c2) == prefix_cell(
                g,
                c,
                r2,
                c2,
            ),
        post == pre.update(row * n + col, g.conns[c].1.weight),
    ensures
        forall|r2: int, c2: int|
            0 <= r2 < n && 0 <= c2 < n ==> #[trigger] mat_at(post, n, r2, c2) == prefix_cell(
                g,
                c + 1,
                r2,
                c2,
            ),
{
    lemma_flat_index(n, row, col);
    assert forall|r2: int, c2: int| 0 <= r2 < n && 0 <= c2 < n implies #[trigger] mat_at(
        post,
        n,
        r2,
        c2,
    ) == prefix_cell(g, c + 1, r2, c2) by {
        lemma_flat_index(n, r2, c2);
        if r2 * n + c2 == row * n + col {
            lemma_flat_injective(n, r2, c2, row, col);
            assert(mat_at(post, n, r2, c2) == g.conns[c].1.weight);
            assert(prefix_cell(g, c + 1, r2, c2) == g.conns[c].1.weight);
        } else {
            assert(mat_at(pre, n, r2, c2) == prefix_cell(g, c, r2, c2));
            assert(mat_at(post, n, r2, c2) == mat_at(pre, n, r2, c2));
            if r2 == row && c2 == col {
                assert(false);
            }
            if g.neurons[c2].0 == g.conns[c].0.0 && g.neurons[r2].0 == g.conns[c].0.1 {
                assert(g.neurons[c2].0 == g.neurons[col].0);
                if c2 < col {
                    assert(g.neurons[c2].0 != g.neurons[col].0);
                } else if col < c2 {
                    assert(g.neurons[col].0 != g.neurons[c2].0);
                }
                assert(c2 == col);
                assert(g.neurons[r2].0 == g.neurons[row].0);
                if r2 < row {
                    assert(g.neurons[r2].0 != g.neurons[row].0);
                } else if row < r2 {
                    assert(g.neurons[row].0 != g.neurons[r2].0);
                }
                assert(r2 == row);
                assert(false);
            }
            assert(prefix_cell(g, c + 1, r2, c2) == prefix_cell(g, c, r2, c2));
        }
    }
}

/// Skipping a disabled connection entry leaves every cell at its
/// prefix value.
proof fn lemma_matrix_skip(g: GenomeView, c: int, m: Seq<RealBits>, n: int)
    requires
        n == g.neurons.len(),
        0 <= c < g.conns.len(),
        !g.conns[c].1.enabled,
        forall|r2: int, c2: int|
            0 <= r2 < n && 0 <= c2 < n ==> #[trigger] mat_at(m, n, r2, c2) == prefix_cell(
                g,
                c,
                r2,
                c2,
            ),
    ensures
        forall|r2: int, c2: int|
            0 <= r2 < n && 0 <= c2 < n ==> #[trigger] mat_at(m, n, r2, c2) == prefix_cell(
                g,
                c + 1,
                r2,
                c2,
            ),
{
    assert forall|r2: int, c2: int| 0 <= r2 < n && 0 <= c2 < n implies #[trigger] mat_at(
        m,
        n,
        r2,
        c2,
    ) == prefix_cell(g, c + 1, r2, c2) by {
        assert(prefix_cell(g, c + 1, r2, c2) == prefix_cell(g, c, r2, c2));
    }
}

/// Two entry sequences carry the same keys at the same positions.
pub open spec fn same_keys<K, V>(a: Seq<(K, V)>, b: Seq<(K, V)>) -> bool {
    a.len() == b.len() && forall|i: int| 0 <= i < a.len() ==> (#[trigger] b[i]).0 == a[i].0
}

/// Changing gene values without touching any key or any connection
/// keeps a genome well-formed.
proof fn lemma_wf_same_keys(orig: GenomeView, cur: GenomeView)
    requires
        genome_wf(orig),
        same_keys(orig.neurons, cur.neurons),
        same_keys(orig.conns, cur.conns),
        forall|i: int|
            0 <= i < cur.conns.len() ==> (#[trigger] cur.conns[i]).1.spec_id() == cur.conns[i].0,
    ensures
        genome_wf(cur),
{
    assert forall|x: int, y: int|
        0 <= x < y < cur.neurons.len() implies cur.neurons[x].0 != cur.neurons[y].0 by {
        assert(cur.neurons[x].0 == orig.neurons[x].0);
        assert(cur.neurons[y].0 == orig.neurons[y].0);
    }
    assert forall|x: int, y: int|
        0 <= x < y < cur.conns.len() implies cur.conns[x].0 != cur.conns[y].0 by {
        assert(cur.conns[x].0 == orig.conns[x].0);
        assert(cur.conns[y].0 == orig.conns[y].0);
    }
    assert forall|i: int| 0 <= i < cur.conns.len() implies has_key(
        cur.neurons,
        (#[trigger] cur.conns[i]).0.0,
    ) && has_key(cur.neurons, cur.conns[i].0.1) by {
        assert(cur.conns[i].0 == orig.conns[i].0);
        let a = choose|t: int| 0 <= t < orig.neurons.len() && orig.neurons[t].0 == orig.conns[i].0.0;
        assert(cur.neurons[a].0 == orig.conns[i].0.0);
        let b = choose|t: int| 0 <= t < orig.neurons.len() && orig.neurons[t].0 == orig.conns[i].0.1;
        assert(cur.neurons[b].0 == orig.conns[i].0.1);
    }
}

/// The bias pairs of the first `i` neuron entries of `a` whose key `b`
/// also carries: `a`'s bias beside `b`'s.
pub open spec fn common_pairs_n(
    a: Seq<(usize, NeuronGene)>,
    b: Seq<(usize, NeuronGene)>,
    i: int,
) -> Seq<(RealBits, RealBits)>
    decreases i,
{
    if i <= 0 {
        Seq::empty()
    } else {
        let r = common_pairs_n(a, b, i - 1);
        if has_key(b, a[i - 1].0) {
            r.push((a[i - 1].1.bias, value_at(b, a[i - 1].0).bias))
        } else {
            r
        }
    }
}

/// The weight pairs of the first `i` connection entries of `a` whose
/// key `b` also carries: `a`'s weight beside `b`'s.
pub open spec fn common_pairs_c(
    a: Seq<((usize, usize), ConnectionGene)>,
    b: Seq<((usize, usize), ConnectionGene)>,
    i: int,
) -> Seq<(RealBits, RealBits)>
    decreases i,
{
    if i <= 0 {
        Seq::empty()
    } else {
        let r = common_pairs_c(a, b, i - 1);
        if has_key(b, a[i - 1].0) {
            r.push((a[i - 1].1.weight, value_at(b, a[i - 1].0).weight))
        } else {
            r
        }
    }
}

/// One collection's contribution to the compatibility distance:
/// `(disjoint * disjoint_coef + parameter_difference * weight_coef) /
/// max(sizes)`, or `0.0` when both collections are empty.  `n_a` and
/// `n_b` are the two collections' sizes and `pairs` the parameter
/// pairs of their common keys.
fn collection_contribution<A: RealArith>(
    arith: &A,
    p: &NeatParams,
    n_a: usize,
    n_b: usize,
    pairs: &Vec<(RealBits, RealBits)>,
) -> RealBits {
    let common = pairs.len();
    let max_genes = if n_a > n_b {
        n_a
    } else {
        n_b
    };
    if max_genes == 0 {
        return ZERO_BITS;
    }
    let da = if common <= n_a {
        n_a - common
    } else {
        0
    };
    let db = if common <= n_b {
        n_b - common
    } else {
        0
    };
    let disjoint = if da <= usize::MAX - db {
        da + db
    } else {
        usize::MAX
    };
    let mut param_diff = ZERO_BITS;
    let mut i: usize = 0;
    while i < pairs.len()
        invariant
            i <= pairs.len(),
        decreases pairs.len() - i,
    {
        let pair = pairs[i];
        param_diff = arith.plus(param_diff, arith.abs_diff(pair.0, pair.1));
        i = i + 1;
    }
    arith.div_by(
        arith.plus(
            arith.times(arith.of_usize(disjoint), p.distance_disjoint_coef),
            arith.times(param_diff, p.distance_weight_coef),
        ),
        arith.of_usize(max_genes),
    )
}

/// The crossover relation between gene maps.  The child has exactly
/// the fitter parent's keys, in the fitter parent's order; a gene whose
/// key both parents carry comes from either parent; a gene disjoint
/// from the less fit parent is inherited from the fitter one.
pub open spec fn mated<K, V>(best: Seq<(K, V)>, worst: Seq<(K, V)>, child: Seq<(K, V)>) -> bool {
    &&& child.len() == best.len()
    &&& forall|i: int| 0 <= i < best.len() ==> (#[trigger] child[i]).0 == best[i].0
    &&& forall|i: int|
        0 <= i < best.len() ==> ((#[trigger] child[i]).1 == best[i].1 || (has_key(worst, best[i].0)
            && child[i].1 == value_at(worst, best[i].0)))
    &&& forall|i: int|
        0 <= i < best.len() && !has_key(worst, best[i].0) ==> (#[trigger] child[i]).1 == best[i].1
}

/// Crossover homology: if the fitter parent carries a connection under
/// the key `k` and the less fit parent does not, the child carries a
/// connection under `k` with the fitter parent's weight.
pub proof fn lemma_crossover_homology(
    best: GenomeView,
    worst: GenomeView,
    child: GenomeView,
    k: (usize, usize),
)
    requires
        unique_keys(best.conns),
        mated(best.conns, worst.conns, child.conns),
        has_key(best.conns, k),
        !has_key(worst.conns, k),
    ensures
        has_key(child.conns, k),
        value_at(child.conns, k) == value_at(best.conns, k),
        value_at(child.conns, k).weight == value_at(best.conns, k).weight,
{
    let i = key_index(best.conns, k);
    assert(0 <= i < best.conns.len() && best.conns[i].0 == k);
    assert(child.conns[i].0 == k);
    assert(has_key(child.conns, k));
    let j = key_index(child.conns, k);
    assert(0 <= j < child.conns.len() && child.conns[j].0 == k);
    assert(best.conns[j].0 == k);
    if i < j {
        assert(best.conns[i].0 != best.conns[j].0);
    } else if j < i {
        assert(best.conns[j].0 != best.conns[i].0);
    }
    assert(i == j);
    assert(child.conns[i].1 == best.conns[i].1);
}

/// Pick each of the fitter parent's neuron genes, taking the less fit
/// parent's version of a shared gene with even odds.
fn reproduce_neuron_maps(
    best: &IndexMap<usize, NeuronGene>,
    worst: &IndexMap<usize, NeuronGene>,
) -> (r: IndexMap<usize, NeuronGene>)
    requires
        unique_keys(neuron_entries(*best)),
        unique_keys(neuron_entries(*worst)),
    ensures
        mated(neuron_entries(*best), neuron_entries(*worst), neuron_entries(r)),
        unique_keys(neuron_entries(r)),
{
    let ghost b = neuron_entries(*best);
    let ghost w = neuron_entries(*worst);
    let mut r = nm_new();
    let n = nm_len(best);
    let mut i: usize = 0;
    while i < n
        invariant
            i <= n,
            n == b.len(),
            b == neuron_entries(*best),
            w == neuron_entries(*worst),
            unique_keys(b),
            unique_keys(w),
            neuron_entries(r).len() == i,
            forall|j: int| 0 <= j < i ==> (#[trigger] neuron_entries(r)[j]).0 == b[j].0,
            forall|j: int|
                0 <= j < i ==> ((#[trigger] neuron_entries(r)[j]).1 == b[j].1 || (has_key(w, b[j].0)
                    && neuron_entries(r)[j].1 == value_at(w, b[j].0))),
            forall|j: int|
                0 <= j < i && !has_key(w, b[j].0) ==> (#[trigger] neuron_entries(r)[j]).1
                    == b[j].1,
        decreases n - i,
    {
        let (k, bg) = nm_get_index(best, i).unwrap();
        let pick_worst = bernoulli(crate::arith::PROB_HALF);
        let mut chosen = bg;
        if pick_worst {
            match crate::maps::nm_get(worst, k) {
                Some(wg) => {
                    proof {
                        let wi = choose|t: int| 0 <= t < w.len() && w[t] == (k, wg);
                        let wj = key_index(w, k);
                        assert(w[wi].0 == k);
                        assert(0 <= wj < w.len() && w[wj].0 == k);
                        if wi < wj {
                            assert(w[wi].0 != w[wj].0);
                        } else if wj < wi {
                            assert(w[wj].0 != w[wi].0);
                        }
                        assert(wg == value_at(w, k));
                    }
                    chosen = wg;
                },
                None => {
                },
            }
        }
        proof {
            assert(!has_key(neuron_entries(r), k)) by {
                if has_key(neuron_entries(r), k) {
                    let t = choose|t: int|
                        0 <= t < neuron_entries(r).len() && neuron_entries(r)[t].0 == k;
                    assert(b[t].0 == k);
                    assert(b[t].0 != b[i as int].0);
                }
            }
        }
        nm_insert(&mut r, k, chosen);
        i = i + 1;
    }
    proof {
        assert forall|x: int, y: int|
            0 <= x < y < neuron_entries(r).len() implies neuron_entries(r)[x].0 != neuron_entries(
            r,
        )[y].0 by {
            assert(neuron_entries(r)[x].0 == b[x].0);
            assert(neuron_entries(r)[y].0 == b[y].0);
        }
    }
    r
}

/// Pick each of the fitter parent's connection genes, taking the less
/// fit parent's version of a shared gene with even odds.
fn reproduce_conn_maps(
    best: &IndexMap<(usize, usize), ConnectionGene>,
    worst: &IndexMap<(usize, usize), ConnectionGene>,
) -> (r: IndexMap<(usize, usize), ConnectionGene>)
    requires
        unique_keys(conn_entries(*best)),
        unique_keys(conn_entries(*worst)),
    ensures
        mated(conn_entries(*best), conn_entries(*worst), conn_entries(r)),
        unique_keys(conn_entries(r)),
{
    let ghost b = conn_entries(*best);
    let ghost w = conn_entries(*worst);
    let mut r = cm_new();
    let n = cm_len(best);
    let mut i: usize = 0;
    while i < n
        invariant
            i <= n,
            n == b.len(),
            b == conn_entries(*best),
            w == conn_entries(*worst),
            unique_keys(b),
            unique_keys(w),
            conn_entries(r).len() == i,
            forall|j: int| 0 <= j < i ==> (#[trigger] conn_entries(r)[j]).0 == b[j].0,
            forall|j: int|
                0 <= j < i ==> ((#[trigger] conn_entries(r)[j]).1 == b[j].1 || (has_key(w, b[j].0)
                    && conn_entries(r)[j].1 == value_at(w, b[j].0))),
            forall|j: int|
                0 <= j < i && !has_key(w, b[j].0) ==> (#[trigger] conn_entries(r)[j]).1 == b[j].1,
        decreases n - i,
    {
        let (k, bg) = cm_get_index(best, i).unwrap();
        let pick_worst = bernoulli(crate::arith::PROB_HALF);
        let mut chosen = bg;
        if pick_worst {
            match cm_get(worst, k) {
                Some(wg) => {
                    proof {
                        let wi = choose|t: int| 0 <= t < w.len() && w[t] == (k, wg);
                        let wj = key_index(w, k);
                        assert(w[wi].0 == k);
                        assert(0 <= wj < w.len() && w[wj].0 == k);
                        if wi < wj {
                            assert(w[wi].0 != w[wj].0);
                        } else if wj < wi {
                            assert(w[wj].0 != w[wi].0);
                        }
                        assert(wg == value_at(w, k));
                    }
                    chosen = wg;
                },
                None => {
                },
            }
        }
        proof {
            assert(!has_key(conn_entries(r), k)) by {
                if has_key(conn_entries(r), k) {
                    let t = choose|t: int|
                        0 <= t < conn_entries(r).len() && conn_entries(r)[t].0 == k;
                    assert(b[t].0 == k);
                    assert(b[t].0 != b[i as int].0);
                }
            }
        }
        cm_insert(&mut r, k, chosen);
        i = i + 1;
    }
    proof {
        assert forall|x: int, y: int|
            0 <= x < y < conn_entries(r).len() implies conn_entries(r)[x].0 != conn_entries(
            r,
        )[y].0 by {
            assert(conn_entries(r)[x].0 == b[x].0);
            assert(conn_entries(r)[y].0 == b[y].0);
        }
    }
    r
}

/// A genome of a neural network: neurons and connections in
/// insertion-ordered maps.
#[derive(Debug)]
pub struct NeuralNetwork {
    neurons: IndexMap<usize, NeuronGene>,
    connections: IndexMap<(usize, usize), ConnectionGene>,
}

impl View for NeuralNetwork {
    type V = GenomeView;

    closed spec fn view(&self) -> GenomeView {
        GenomeView {
            neurons: neuron_entries(self.neurons),
            conns: conn_entries(self.connections),
        }
    }
}

impl NeuralNetwork {
    /// The genome is well-formed; see [`genome_wf`].
    pub open spec fn wf(&self) -> bool {
        genome_wf(self@)
    }

    /// A genome with `n` neurons carrying the ids `0..n`, bias zero,
    /// and no connections.
    pub fn with_neurons(n: usize) -> (g: NeuralNetwork)
        ensures
            g.wf(),
            g@.neurons =~= Seq::new(n as nat, |i: int| (i as usize, NeuronGene { bias: ZERO_BITS })),
            g@.conns =~= Seq::<((usize, usize), ConnectionGene)>::empty(),
            g@ == seed_view(n as nat),
            ids_below(g@, n),
    {
        let mut neurons = nm_new();
        let mut i: usize = 0;
        while i < n
            invariant
                i <= n,
                neuron_entries(neurons) =~= Seq::new(
                    i as nat,
                    |j: int| (j as usize, NeuronGene { bias: ZERO_BITS }),
                ),
            decreases n - i,
        {
            proof {
                assert(!has_key(neuron_entries(neurons), i));
            }
            nm_insert(&mut neurons, i, NeuronGene { bias: ZERO_BITS });
            i = i + 1;
        }
        let g = NeuralNetwork { neurons, connections: cm_new() };
        proof {
            assert(unique_keys(g@.neurons));
            assert(g@.neurons =~= seed_view(n as nat).neurons);
            assert(g@.conns =~= seed_view(n as nat).conns);
        }
        g
    }

    /// Number of neurons.
    pub fn n_neurons(&self) -> (r: usize)
        ensures
            r == self@.neurons.len(),
    {
        nm_len(&self.neurons)
    }

    /// Number of connections.
    pub fn n_connections(&self) -> (r: usize)
        ensures
            r == self@.conns.len(),
    {
        cm_len(&self.connections)
    }

    /// Number of connection genes (the historical name of
    /// [`Self::n_connections`]).
    pub fn total_genes(&self) -> (r: usize)
        ensures
            r == self@.conns.len(),
    {
        cm_len(&self.connections)
    }

    /// The neuron entry at a position of the insertion order.
    pub fn neuron_at(&self, i: usize) -> (r: (usize, NeuronGene))
        requires
            i < self@.neurons.len(),
        ensures
            r == self@.neurons[i as int],
    {
        nm_get_index(&self.neurons, i).unwrap()
    }

    /// The connection entry at a position of the insertion order.
    pub fn connection_at(&self, i: usize) -> (r: ((usize, usize), ConnectionGene))
        requires
            i < self@.conns.len(),
        ensures
            r == self@.conns[i as int],
    {
        cm_get_index(&self.connections, i).unwrap()
    }

    /// The connection stored under `(in_neuron, out_neuron)`, if any.
    pub fn get_connection(&self, in_neuron: usize, out_neuron: usize) -> (r: Option<ConnectionGene>)
        requires
            self.wf(),
        ensures
            has_key(self@.conns, (in_neuron, out_neuron)) ==> r == Some(
                value_at(self@.conns, (in_neuron, out_neuron)),
            ),
            !has_key(self@.conns, (in_neuron, out_neuron)) ==> r is None,
    {
        let r = cm_get(&self.connections, (in_neuron, out_neuron));
        proof {
            if r is Some {
                let k = (in_neuron, out_neuron);
                let i = choose|i: int|
                    0 <= i < self@.conns.len() && self@.conns[i] == (k, r->Some_0);
                let j = key_index(self@.conns, k);
                assert(self@.conns[i].0 == k);
                assert(0 <= j < self@.conns.len() && self@.conns[j].0 == k);
                assert(i == j);
            }
        }
        r
    }

    /// The bias stored for neuron id `k`, if the neuron exists.
    pub fn get_neuron(&self, k: usize) -> (r: Option<NeuronGene>)
        requires
            self.wf(),
        ensures
            has_key(self@.neurons, k) ==> r == Some(value_at(self@.neurons, k)),
            !has_key(self@.neurons, k) ==> r is None,
    {
        let r = crate::maps::nm_get(&self.neurons, k);
        proof {
            if r is Some {
                let i = choose|i: int|
                    0 <= i < self@.neurons.len() && self@.neurons[i] == (k, r->Some_0);
                let j = key_index(self@.neurons, k);
                assert(self@.neurons[i].0 == k);
                assert(0 <= j < self@.neurons.len() && self@.neurons[j].0 == k);
                assert(i == j);
            }
        }
        r
    }

    /// Add a new connection, or revive an existing one.  Both endpoints
    /// must already be neurons of this genome.  If the `(source, sink)`
    /// key is fresh the gene is appended, enabled, with the given
    /// weight; if the key exists the stored gene keeps its place and is
    /// re-enabled with the new weight.
    pub fn add_connection(&mut self, in_neuron: usize, out_neuron: usize, weight: RealBits)
        requires
            old(self).wf(),
            has_key(old(self)@.neurons, in_neuron),
            has_key(old(self)@.neurons, out_neuron),
        ensures
            final(self).wf(),
            final(self)@.neurons == old(self)@.neurons,
            final(self)@.conns =~= conns_with(old(self)@.conns, in_neuron, out_neuron, weight),
            final(self)@.conns.len() >= old(self)@.conns.len(),
            final(self)@.conns.len() > 0,
            forall|i: int|
                0 <= i < old(self)@.conns.len() ==> (#[trigger] final(self)@.conns[i]).0
                    == old(self)@.conns[i].0,
    {
        let gene = <ConnectionGene as Mutation>::add_connection(in_neuron, out_neuron, weight);
        let ghost pre = self@.conns;
        cm_insert(&mut self.connections, (in_neuron, out_neuron), gene);
        proof {
            let post = self@.conns;
            let k = (in_neuron, out_neuron);
            if has_key(pre, k) {
                assert forall|i: int, j: int| 0 <= i < j < post.len() implies post[i].0
                    != post[j].0 by {
                    assert(pre[i].0 != pre[j].0);
                }
                assert(post =~= conns_with(pre, in_neuron, out_neuron, weight));
            } else {
                assert forall|i: int, j: int| 0 <= i < j < post.len() implies post[i].0
                    != post[j].0 by {
                    if j < pre.len() as int {
                        assert(pre[i].0 != pre[j].0);
                    } else {
                        assert(post[j].0 == k);
                        assert(pre[i].0 != k);
                    }
                }
            }
        }
    }

    /// The bias vector `θ` of the genome: the biases of the neurons in
    /// insertion order.
    pub fn get_bias(&self) -> (r: Vec<RealBits>)
        ensures
            r@ =~= Seq::new(self@.neurons.len(), |i: int| self@.neurons[i].1.bias),
    {
        let n = nm_len(&self.neurons);
        let mut r: Vec<RealBits> = Vec::new();
        let mut i: usize = 0;
        while i < n
            invariant
                i <= n,
                n == self@.neurons.len(),
                r@ =~= Seq::new(i as nat, |j: int| self@.neurons[j].1.bias),
            decreases n - i,
        {
            let (_, gene) = self.neuron_at(i);
            r.push(gene.bias);
            i = i + 1;
        }
        r
    }

    /// The dense `N × N` weight matrix of the genome, stored row-major:
    /// the cell `(row, col)` holds the weight of the enabled connection
    /// from the neuron at position `col` to the neuron at position
    /// `row`, and `0.0` where there is no enabled connection.
    pub fn get_weights(&self) -> (r: Vec<RealBits>)
        requires
            self.wf(),
            self@.neurons.len() * self@.neurons.len() <= usize::MAX,
        ensures
            r@.len() == self@.neurons.len() * self@.neurons.len(),
            forall|row: int, col: int|
                0 <= row < self@.neurons.len() && 0 <= col < self@.neurons.len()
                    ==> #[trigger] mat_at(r@, self@.neurons.len() as int, row, col)
                    == weight_cell(self@, row, col),
    {
        let n = nm_len(&self.neurons);
        let n_conns = cm_len(&self.connections);
        let mut r: Vec<RealBits> = Vec::new();
        let mut i: usize = 0;
        proof {
            assert(n * n <= usize::MAX) by (nonlinear_arith)
                requires
                    n == self@.neurons.len(),
                    self@.neurons.len() * self@.neurons.len() <= usize::MAX,
            ;
        }
        let size: usize = n * n;
        while i < size
            invariant
                i <= size,
                r@.len() == i,
                forall|j: int| 0 <= j < i ==> r@[j] == ZERO_BITS,
            decreases size - i,
        {
            r.push(ZERO_BITS);
            i = i + 1;
        }
        proof {
            assert forall|row: int, col: int| 0 <= row < n && 0 <= col < n implies #[trigger] mat_at(
                r@,
                n as int,
                row,
                col,
            ) == prefix_cell(self@, 0, row, col) by {
                lemma_flat_index(n as int, row, col);
            }
        }
        let mut c: usize = 0;
        while c < n_conns
            invariant
                c <= n_conns,
                self.wf(),
                n == self@.neurons.len(),
                n_conns == self@.conns.len(),
                size == n * n,
                r@.len() == size,
                forall|row: int, col: int|
                    0 <= row < n && 0 <= col < n ==> #[trigger] mat_at(r@, n as int, row, col)
                        == prefix_cell(self@, c as int, row, col),
            decreases n_conns - c,
        {
            let (key, gene) = self.connection_at(c);
            if gene.enabled {
                let ghost pre = r@;
                let col = nm_index_of(&self.neurons, key.0).unwrap();
                let row = nm_index_of(&self.neurons, key.1).unwrap();
                proof {
                    assert(row * n + col < size) by (nonlinear_arith)
                        requires
                            row < n,
                            col < n,
                            size == n * n,
                    ;
                }
                let pos: usize = row * n + col;
                r.set(pos, gene.weight);
                proof {
                    lemma_matrix_update(self@, c as int, pre, r@, row as int, col as int, n as int);
                }
            } else {
                proof {
                    lemma_matrix_skip(self@, c as int, r@, n as int);
                }
            }
            c = c + 1;
        }
        r
    }

    /// The connection genes, in insertion order.
    pub fn get_genes(&self) -> (r: Vec<ConnectionGene>)
        ensures
            r@ =~= Seq::new(self@.conns.len(), |i: int| self@.conns[i].1),
    {
        let n = cm_len(&self.connections);
        let mut r: Vec<ConnectionGene> = Vec::new();
        let mut i: usize = 0;
        while i < n
            invariant
                i <= n,
                n == self@.conns.len(),
                r@ =~= Seq::new(i as nat, |j: int| self@.conns[j].1),
            decreases n - i,
        {
            let (_, gene) = self.connection_at(i);
            r.push(gene);
            i = i + 1;
        }
        r
    }

    /// The sum of all connection weights, folded left with the host
    /// arithmetic; `0.0` for a genome with no connections.
    pub fn total_weights<A: RealArith>(&self, arith: &A) -> (r: RealBits)
        ensures
            self@.conns.len() == 0 ==> r == ZERO_BITS,
    {
        let n_conns = cm_len(&self.connections);
        let mut total: RealBits = ZERO_BITS;
        let mut i: usize = 0;
        while i < n_conns
            invariant
                i <= n_conns,
                n_conns == self@.conns.len(),
                n_conns == 0 ==> total == ZERO_BITS,
            decreases n_conns - i,
        {
            let (_, gene) = self.connection_at(i);
            total = arith.plus(total, gene.weight);
            i = i + 1;
        }
        total
    }

    /// Mate two genomes; `fittest` says whether `self` is the fitter
    /// parent.  The child carries exactly the fitter parent's keys, in
    /// order; a gene both parents share comes from either with even
    /// odds, and a gene disjoint from the less fit parent comes from
    /// the fitter one (see [`mated`] and [`lemma_crossover_homology`]).
    pub fn mate(&self, other: &NeuralNetwork, fittest: bool) -> (child: NeuralNetwork)
        requires
            self.wf(),
            other.wf(),
        ensures
            child.wf(),
            ({
                let best = if fittest {
                    self@
                } else {
                    other@
                };
                let worst = if fittest {
                    other@
                } else {
                    self@
                };
                mated(best.neurons, worst.neurons, child@.neurons) && mated(
                    best.conns,
                    worst.conns,
                    child@.conns,
                )
            }),
            forall|b: usize|
                ids_below(self@, b) && ids_below(other@, b) ==> #[trigger] ids_below(child@, b),
    {
        let best = if fittest {
            self
        } else {
            other
        };
        let worst = if fittest {
            other
        } else {
            self
        };
        let neurons = reproduce_neuron_maps(&best.neurons, &worst.neurons);
        let connections = reproduce_conn_maps(&best.connections, &worst.connections);
        let child = NeuralNetwork { neurons, connections };
        proof {
            let bv = best@;
            let wv = worst@;
            assert forall|i: int| 0 <= i < child@.conns.len() implies (
            #[trigger] child@.conns[i]).1.spec_id() == child@.conns[i].0 by {
                let k = bv.conns[i].0;
                assert(child@.conns[i].0 == k);
                if child@.conns[i].1 == bv.conns[i].1 {
                } else {
                    assert(has_key(wv.conns, k) && child@.conns[i].1 == value_at(wv.conns, k));
                    let j = key_index(wv.conns, k);
                    assert(0 <= j < wv.conns.len() && wv.conns[j].0 == k);
                    assert(wv.conns[j].1.spec_id() == wv.conns[j].0);
                }
            }
            assert forall|i: int| 0 <= i < child@.conns.len() implies has_key(
                child@.neurons,
                (#[trigger] child@.conns[i]).0.0,
            ) && has_key(child@.neurons, child@.conns[i].0.1) by {
                let k = bv.conns[i].0;
                assert(child@.conns[i].0 == k);
                assert(has_key(bv.neurons, k.0) && has_key(bv.neurons, k.1));
                let a = choose|t: int| 0 <= t < bv.neurons.len() && bv.neurons[t].0 == k.0;
                assert(child@.neurons[a].0 == k.0);
                let b2 = choose|t: int| 0 <= t < bv.neurons.len() && bv.neurons[t].0 == k.1;
                assert(child@.neurons[b2].0 == k.1);
            }
            assert forall|b: usize| ids_below(self@, b) && ids_below(other@, b) implies #[trigger] ids_below(
                child@,
                b,
            ) by {
                assert forall|i: int| 0 <= i < child@.neurons.len() implies (
                #[trigger] child@.neurons[i]).0 < b by {
                    assert(child@.neurons[i].0 == bv.neurons[i].0);
                }
            }
        }
        child
    }

    /// Add a connection between two uniformly random neurons (a
    /// self-loop is allowed), weighted by a fresh normal draw.  Leaves
    /// a genome without neurons alone.
    pub fn mutate_add_connection<A: RealArith>(&mut self, arith: &A, p: &NeatParams)
        requires
            old(self).wf(),
        ensures
            final(self).wf(),
            final(self)@.neurons == old(self)@.neurons,
            final(self)@.conns.len() >= old(self)@.conns.len(),
            old(self)@.neurons.len() > 0 ==> final(self)@.conns.len() > 0,
            forall|i: int|
                0 <= i < old(self)@.conns.len() ==> (#[trigger] final(self)@.conns[i]).0
                    == old(self)@.conns[i].0,
    {
        let n = nm_len(&self.neurons);
        if n == 0 {
            return ;
        }
        let (in_neuron, _) = self.neuron_at(random_below(n));
        let (out_neuron, _) = self.neuron_at(random_below(n));
        let weight = arith.gauss(p.weight_init_mean, p.weight_init_var);
        self.add_connection(in_neuron, out_neuron, weight);
    }

    /// Split a random connection with the fresh neuron id `new_id`:
    /// the picked connection is disabled and replaced by two enabled
    /// ones through the new neuron (source to new with weight `1.0`,
    /// new to sink with the old weight).  A genome without connections
    /// just receives the fresh neuron.
    pub fn mutate_add_neuron(&mut self, new_id: usize)
        requires
            old(self).wf(),
            !has_key(old(self)@.neurons, new_id),
        ensures
            final(self).wf(),
            final(self)@.neurons.len() == old(self)@.neurons.len() + 1,
            forall|i: int|
                0 <= i < old(self)@.neurons.len() ==> (#[trigger] final(self)@.neurons[i]).0
                    == old(self)@.neurons[i].0,
            final(self)@.neurons[old(self)@.neurons.len() as int].0 == new_id,
            old(self)@.conns.len() == 0 ==> final(self)@.conns == old(self)@.conns,
            final(self)@.conns.len() >= old(self)@.conns.len(),
            forall|i: int|
                0 <= i < old(self)@.conns.len() ==> (#[trigger] final(self)@.conns[i]).0
                    == old(self)@.conns[i].0,
            old(self)@.conns.len() > 0 ==> exists|idx: int|
                0 <= idx < old(self)@.conns.len() && split_connection(
                    old(self)@.conns,
                    idx,
                    new_id,
                    final(self)@.conns,
                ),
    {
        let ghost orig = self@;
        let n_conns = cm_len(&self.connections);
        if n_conns == 0 {
            nm_insert(&mut self.neurons, new_id, NeuronGene { bias: ZERO_BITS });
            proof {
                assert forall|x: int, y: int|
                    0 <= x < y < self@.neurons.len() implies self@.neurons[x].0
                    != self@.neurons[y].0 by {
                    if y < orig.neurons.len() {
                        assert(orig.neurons[x].0 != orig.neurons[y].0);
                    } else {
                        assert(self@.neurons[y].0 == new_id);
                        assert(orig.neurons[x].0 != new_id);
                    }
                }
                assert forall|i: int| 0 <= i < self@.conns.len() implies has_key(
                    self@.neurons,
                    (#[trigger] self@.conns[i]).0.0,
                ) && has_key(self@.neurons, self@.conns[i].0.1) by {
                }
            }
        } else {
            let idx = random_below(n_conns);
            let (key, gene) = self.connection_at(idx);
            let mut g = gene;
            let (g1, g2) = <ConnectionGene as Mutation>::add_neuron(&mut g, new_id);
            cm_set_index(&mut self.connections, idx, g);
            proof {
                let cur = self@;
                assert(same_keys(orig.conns, cur.conns));
                assert forall|i: int|
                    0 <= i < cur.conns.len() implies (#[trigger] cur.conns[i]).1.spec_id()
                    == cur.conns[i].0 by {
                    if i != idx {
                        assert(cur.conns[i] == orig.conns[i]);
                    }
                }
                lemma_wf_same_keys(orig, cur);
            }
            let ghost mid = self@;
            nm_insert(&mut self.neurons, new_id, NeuronGene { bias: ZERO_BITS });
            proof {
                let cur = self@;
                assert(cur.neurons =~= mid.neurons.push((new_id, NeuronGene { bias: ZERO_BITS })));
                assert forall|x: int, y: int|
                    0 <= x < y < cur.neurons.len() implies cur.neurons[x].0 != cur.neurons[y].0 by {
                    if y < mid.neurons.len() {
                        assert(mid.neurons[x].0 != mid.neurons[y].0);
                    } else {
                        assert(cur.neurons[y].0 == new_id);
                        assert(mid.neurons[x].0 != new_id);
                    }
                }
                assert forall|i: int| 0 <= i < cur.conns.len() implies has_key(
                    cur.neurons,
                    (#[trigger] cur.conns[i]).0.0,
                ) && has_key(cur.neurons, cur.conns[i].0.1) by {
                    let a = choose|t: int|
                        0 <= t < mid.neurons.len() && mid.neurons[t].0 == cur.conns[i].0.0;
                    assert(cur.neurons[a].0 == cur.conns[i].0.0);
                    let b = choose|t: int|
                        0 <= t < mid.neurons.len() && mid.neurons[t].0 == cur.conns[i].0.1;
                    assert(cur.neurons[b].0 == cur.conns[i].0.1);
                }
                assert(has_key(self@.neurons, new_id)) by {
                    assert(self@.neurons[mid.neurons.len() as int].0 == new_id);
                }
                assert(has_key(self@.neurons, key.0)) by {
                    let a = choose|t: int|
                        0 <= t < orig.neurons.len() && orig.neurons[t].0 == orig.conns[
                            idx as int
                        ].0.0;
                    assert(self@.neurons[a].0 == key.0);
                }
                assert(has_key(self@.neurons, key.1)) by {
                    let a = choose|t: int|
                        0 <= t < orig.neurons.len() && orig.neurons[t].0 == orig.conns[
                            idx as int
                        ].0.1;
                    assert(self@.neurons[a].0 == key.1);
                }
            }
            let ghost before = self@.neurons;
            let ghost step1 = self@.conns;
            self.add_connection(g1.in_neuron_id(), g1.out_neuron_id(), g1.weight);
            let ghost step2 = self@.conns;
            self.add_connection(g2.in_neuron_id(), g2.out_neuron_id(), g2.weight);
            proof {
                assert(self@.neurons == before);
                let e = orig.conns[idx as int];
                let disabled = ConnectionGene {
                    in_neuron_id: e.1.in_neuron_id,
                    out_neuron_id: e.1.out_neuron_id,
                    weight: e.1.weight,
                    enabled: false,
                };
                assert(e.1.spec_id() == e.0);
                assert(g == disabled);
                assert(step1 =~= orig.conns.update(idx as int, (e.0, disabled)));
                assert(g1.spec_id() == (e.1.in_neuron_id, new_id));
                assert(step2 =~= conns_with(
                    orig.conns.update(idx as int, (e.0, disabled)),
                    e.1.in_neuron_id,
                    new_id,
                    ONE_BITS,
                ));
                assert(g2.spec_id() == (new_id, e.1.out_neuron_id));
                assert(self@.conns =~= conns_with(step2, new_id, e.1.out_neuron_id, e.1.weight));
                assert(split_connection(orig.conns, idx as int, new_id, self@.conns));
                assert forall|i: int| 0 <= i < orig.conns.len() implies (
                #[trigger] self@.conns[i]).0 == orig.conns[i].0 by {
                    assert(step1[i].0 == orig.conns[i].0);
                    assert(step2[i].0 == step1[i].0);
                }
            }
        }
    }

    /// Flip the expression of a uniformly random connection.  Leaves a
    /// genome without connections alone.
    pub fn mutate_toggle_expression(&mut self)
        requires
            old(self).wf(),
        ensures
            final(self).wf(),
            final(self)@.neurons == old(self)@.neurons,
            same_keys(old(self)@.conns, final(self)@.conns),
    {
        let ghost orig = self@;
        let n_conns = cm_len(&self.connections);
        if n_conns == 0 {
            return ;
        }
        let idx = random_below(n_conns);
        let (_, gene) = self.connection_at(idx);
        let mut g = gene;
        <ConnectionGene as Mutation>::toggle_expression(&mut g);
        cm_set_index(&mut self.connections, idx, g);
        proof {
            let cur = self@;
            assert forall|i: int|
                0 <= i < cur.conns.len() implies (#[trigger] cur.conns[i]).1.spec_id()
                == cur.conns[i].0 by {
                if i != idx {
                    assert(cur.conns[i] == orig.conns[i]);
                }
            }
            lemma_wf_same_keys(orig, cur);
        }
    }

    /// Perturb or replace each neuron's bias, each with its own random
    /// gate.
    fn perturb_biases<A: RealArith>(&mut self, arith: &A, p: &NeatParams)
        requires
            old(self).wf(),
        ensures
            final(self).wf(),
            same_keys(old(self)@.neurons, final(self)@.neurons),
            final(self)@.conns == old(self)@.conns,
    {
        let ghost orig = self@;
        let n = nm_len(&self.neurons);
        let mut i: usize = 0;
        while i < n
            invariant
                i <= n,
                genome_wf(orig),
                n == orig.neurons.len(),
                same_keys(orig.neurons, self@.neurons),
                self@.conns == orig.conns,
            decreases n - i,
        {
            if bernoulli(p.bias_mutate_pr) {
                let (_, g) = self.neuron_at(i);
                let nb = arith.plus(g.bias, arith.gauss(ZERO_BITS, p.bias_mutate_var));
                nm_set_index(&mut self.neurons, i, NeuronGene { bias: nb });
            } else if bernoulli(p.bias_replace_pr) {
                let nb = arith.gauss(ZERO_BITS, p.bias_mutate_var);
                nm_set_index(&mut self.neurons, i, NeuronGene { bias: nb });
            }
            i = i + 1;
        }
        proof {
            lemma_wf_same_keys(orig, self@);
        }
    }

    /// Perturb or replace each connection's weight, each with its own
    /// random gate.
    fn perturb_weights<A: RealArith>(&mut self, arith: &A, p: &NeatParams)
        requires
            old(self).wf(),
        ensures
            final(self).wf(),
            final(self)@.neurons == old(self)@.neurons,
            same_keys(old(self)@.conns, final(self)@.conns),
    {
        let ghost orig = self@;
        let n = cm_len(&self.connections);
        let mut i: usize = 0;
        while i < n
            invariant
                i <= n,
                genome_wf(orig),
                n == orig.conns.len(),
                self@.neurons == orig.neurons,
                same_keys(orig.conns, self@.conns),
                forall|j: int|
                    0 <= j < self@.conns.len() ==> (#[trigger] self@.conns[j]).1.spec_id()
                        == self@.conns[j].0,
            decreases n - i,
        {
            let (_, g) = self.connection_at(i);
            if bernoulli(p.weight_mutate_pr) {
                let nw = arith.plus(g.weight, arith.gauss(ZERO_BITS, p.weight_mutate_var));
                let mut g2 = g;
                <ConnectionGene as Mutation>::connection_weight(&mut g2, nw);
                cm_set_index(&mut self.connections, i, g2);
            } else if bernoulli(p.weight_replace_pr) {
                let nw = arith.gauss(ZERO_BITS, p.weight_mutate_var);
                let mut g2 = g;
                <ConnectionGene as Mutation>::connection_weight(&mut g2, nw);
                cm_set_index(&mut self.connections, i, g2);
            }
            i = i + 1;
        }
        proof {
            lemma_wf_same_keys(orig, self@);
        }
    }

    /// Mutate the genome: possibly add a connection (always, when the
    /// genome has none), possibly split a connection with a fresh
    /// neuron drawn from the innovation counter, possibly toggle one
    /// connection, then perturb every bias and weight behind their own
    /// gates.  The innovation counter advances exactly once per
    /// add-neuron event.
    pub fn mutate<A: RealArith>(&mut self, innovation_id: &mut usize, arith: &A, p: &NeatParams)
        requires
            old(self).wf(),
            ids_below(old(self)@, *old(innovation_id)),
            *old(innovation_id) < usize::MAX,
        ensures
            final(self).wf(),
            *old(innovation_id) <= *final(innovation_id) <= *old(innovation_id) + 1,
            ids_below(final(self)@, *final(innovation_id)),
            old(self)@.neurons.len() <= final(self)@.neurons.len() <= old(self)@.neurons.len()
                + 1,
            forall|i: int|
                0 <= i < old(self)@.neurons.len() ==> (#[trigger] final(self)@.neurons[i]).0
                    == old(self)@.neurons[i].0,
            final(self)@.conns.len() >= old(self)@.conns.len(),
            forall|i: int|
                0 <= i < old(self)@.conns.len() ==> (#[trigger] final(self)@.conns[i]).0
                    == old(self)@.conns[i].0,
            old(self)@.neurons.len() > 0 && old(self)@.conns.len() == 0
                ==> final(self)@.conns.len() > 0,
    {
        let ghost orig = self@;
        if bernoulli(p.mutate_add_conn_pr) || cm_len(&self.connections) == 0 {
            self.mutate_add_connection(arith, p);
        }
        let ghost s1 = self@;
        proof {
            assert(s1.neurons == orig.neurons);
            assert(orig.neurons.len() > 0 && orig.conns.len() == 0 ==> s1.conns.len() > 0);
        }
        if bernoulli(p.mutate_add_neuron_pr) {
            proof {
                assert(!has_key(s1.neurons, *innovation_id)) by {
                    if has_key(s1.neurons, *innovation_id) {
                        let t = choose|t: int|
                            0 <= t < s1.neurons.len() && s1.neurons[t].0 == *innovation_id;
                    }
                }
            }
            self.mutate_add_neuron(*innovation_id);
            proof {
                assert forall|i: int| 0 <= i < self@.neurons.len() implies (
                #[trigger] self@.neurons[i]).0 < *innovation_id + 1 by {
                    if i < s1.neurons.len() {
                        assert(self@.neurons[i].0 == s1.neurons[i].0);
                    }
                }
            }
            *innovation_id = *innovation_id + 1;
        }
        let ghost s2 = self@;
        let ghost innov2 = *innovation_id;
        proof {
            assert(ids_below(s2, innov2));
            assert(s2.conns.len() >= s1.conns.len());
            assert forall|i: int| 0 <= i < orig.conns.len() implies (#[trigger] s2.conns[i]).0
                == orig.conns[i].0 by {
                assert(s1.conns[i].0 == orig.conns[i].0);
            }
            assert forall|i: int| 0 <= i < orig.neurons.len() implies (#[trigger] s2.neurons[i]).0
                == orig.neurons[i].0 by {
                assert(s1.neurons[i].0 == orig.neurons[i].0);
            }
        }
        if bernoulli(p.mutate_toggle_expr_pr) {
            self.mutate_toggle_expression();
        }
        let ghost s3 = self@;
        proof {
            assert(ids_below(s3, innov2));
            assert(s3.neurons == s2.neurons);
            assert(s3.conns.len() == s2.conns.len());
            assert forall|i: int| 0 <= i < orig.conns.len() implies (#[trigger] s3.conns[i]).0
                == orig.conns[i].0 by {
                assert(s3.conns[i].0 == s2.conns[i].0);
            }
        }
        self.perturb_biases(arith, p);
        proof {
            assert forall|i: int| 0 <= i < self@.neurons.len() implies (
            #[trigger] self@.neurons[i]).0 < innov2 by {
                assert(self@.neurons[i].0 == s3.neurons[i].0);
            }
        }
        let ghost s4 = self@;
        proof {
            assert(s4.conns == s3.conns);
            assert forall|i: int| 0 <= i < orig.neurons.len() implies (#[trigger] s4.neurons[i]).0
                == orig.neurons[i].0 by {
                assert(s4.neurons[i].0 == s3.neurons[i].0);
            }
        }
        self.perturb_weights(arith, p);
        proof {
            assert(self@.neurons == s4.neurons);
            assert(self@.conns.len() == s4.conns.len());
            assert forall|i: int| 0 <= i < orig.conns.len() implies (#[trigger] self@.conns[i]).0
                == orig.conns[i].0 by {
                assert(self@.conns[i].0 == s4.conns[i].0);
            }
        }
    }

    /// The parameter pairs of the genes common to both genomes'
    /// neuron maps, in this genome's insertion order: for every neuron
    /// id both genomes carry, this genome's bias beside the other's.
    fn common_neuron_pairs(&self, other: &NeuralNetwork) -> (r: Vec<(RealBits, RealBits)>)
        requires
            self.wf(),
            other.wf(),
        ensures
            r@ == common_pairs_n(self@.neurons, other@.neurons, self@.neurons.len() as int),
    {
        let mut r: Vec<(RealBits, RealBits)> = Vec::new();
        let n = nm_len(&self.neurons);
        let mut i: usize = 0;
        while i < n
            invariant
                i <= n,
                self.wf(),
                other.wf(),
                n == self@.neurons.len(),
                r@ == common_pairs_n(self@.neurons, other@.neurons, i as int),
            decreases n - i,
        {
            let (k, g) = self.neuron_at(i);
            match other.get_neuron(k) {
                Some(og) => {
                    r.push((g.bias, og.bias));
                },
                None => {
                },
            }
            i = i + 1;
        }
        r
    }

    /// The parameter pairs of the genes common to both genomes'
    /// connection maps, in this genome's insertion order: for every
    /// `(source, sink)` key both genomes carry, this genome's weight
    /// beside the other's.
    fn common_conn_pairs(&self, other: &NeuralNetwork) -> (r: Vec<(RealBits, RealBits)>)
        requires
            self.wf(),
            other.wf(),
        ensures
            r@ == common_pairs_c(self@.conns, other@.conns, self@.conns.len() as int),
    {
        let mut r: Vec<(RealBits, RealBits)> = Vec::new();
        let n = cm_len(&self.connections);
        let mut i: usize = 0;
        while i < n
            invariant
                i <= n,
                self.wf(),
                other.wf(),
                n == self@.conns.len(),
                r@ == common_pairs_c(self@.conns, other@.conns, i as int),
            decreases n - i,
        {
            let (k, g) = self.connection_at(i);
            match other.get_connection(k.0, k.1) {
                Some(og) => {
                    r.push((g.weight, og.weight));
                },
                None => {
                },
            }
            i = i + 1;
        }
        r
    }

    /// The compatibility distance between two genomes, computed with
    /// the host arithmetic.  Over each collection (connections keyed by
    /// `(source, sink)` with their weights, neurons keyed by id with
    /// their biases) the contribution is
    /// `(disjoint * disjoint_coef + sum of |parameter differences over
    /// common keys| * weight_coef) / max(sizes)` — or `0.0` when both
    /// are empty — and the distance is the sum of the two
    /// contributions.  The matching of keys and the disjoint counts
    /// are verified exactly, and two entirely empty genomes are at
    /// distance `0.0` outright; the remaining real arithmetic is the
    /// host's.
    pub fn distance<A: RealArith>(&self, other: &NeuralNetwork, arith: &A, p: &NeatParams) -> (r:
        RealBits)
        requires
            self.wf(),
            other.wf(),
        ensures
            self@.neurons.len() == 0 && self@.conns.len() == 0 && other@.neurons.len() == 0
                && other@.conns.len() == 0 ==> r == ZERO_BITS,
    {
        if self.n_neurons() == 0 && other.n_neurons() == 0 && self.n_connections() == 0
            && other.n_connections() == 0 {
            return ZERO_BITS;
        }
        let conn_pairs = self.common_conn_pairs(other);
        let conn_part = collection_contribution(
            arith,
            p,
            cm_len(&self.connections),
            cm_len(&other.connections),
            &conn_pairs,
        );
        let neuron_pairs = self.common_neuron_pairs(other);
        let neuron_part = collection_contribution(
            arith,
            p,
            nm_len(&self.neurons),
            nm_len(&other.neurons),
            &neuron_pairs,
        );
        arith.plus(conn_part, neuron_part)
    }

    /// Whether two genomes belong to the same species: their
    /// compatibility distance lies under the threshold.
    pub fn is_same_specie<A: RealArith>(
        &self,
        other: &NeuralNetwork,
        arith: &A,
        p: &NeatParams,
    ) -> bool
        requires
            self.wf(),
            other.wf(),
    {
        let d = self.distance(other, arith, p);
        arith.less_than(d, p.compatibility_threshold)
    }

    /// An owned copy of the genome with the same entries.
    pub fn duplicate(&self) -> (r: NeuralNetwork)
        ensures
            r@ == self@,
    {
        NeuralNetwork { neurons: nm_clone(&self.neurons), connections: cm_clone(&self.connections) }
    }
}

impl Default for NeuralNetwork {
    /// The default seed genome: exactly one neuron with id `0` and zero
    /// connections.
    fn default() -> (g: NeuralNetwork)
        ensures
            g.wf(),
            g@.neurons =~= seq![(0usize, NeuronGene { bias: ZERO_BITS })],
            g@.conns =~= Seq::<((usize, usize), ConnectionGene)>::empty(),
            ids_below(g@, 1),
    {
        NeuralNetwork::with_neurons(1)
    }
}

} // verus!
