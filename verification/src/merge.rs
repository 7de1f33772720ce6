use vstd::prelude::*;

use crate::barnes_hut::{tree_wf, TreeNode};

verus! {

/// One particle of a merged wake: a whole octree cell collapsed into its
/// equivalent particle, or an original particle kept as it was.
#[derive(Clone, Copy, Debug, PartialEq, Eq, Structural)]
pub enum Emit {
    Cell(u32),
    Particle(u32),
}

/// A wake of `n` particles is merged only when it is non-empty and larger
/// than the configured minimum; otherwise it is kept as it is.
pub fn merge_wanted(n: usize, min_particles: usize) -> (r: bool)
    ensures
        r == (n > min_particles && n > 0),
{
    !(n <= min_particles || n == 0)
}

/// Collapse walk over children `o..8` of node `ti`.
pub open spec fn collapse_children(nodes: Seq<TreeNode>, ok: Seq<bool>, ti: int, o: int) -> Seq<Emit>
    decreases nodes.len() - ti, 8 - o,
{
    if ti < 0 || ti >= nodes.len() || o < 0 || o >= 8 {
        Seq::empty()
    } else {
        let c = nodes[ti].children@[o] as int;
        let here = if ti < c && c < nodes.len() {
            if ok[c] {
                seq![Emit::Cell(c as u32)]
            } else if nodes[c].is_leaf {
                nodes[c].particles@.map_values(|p: u32| Emit::Particle(p))
            } else {
                collapse_children(nodes, ok, c, 0)
            }
        } else {
            Seq::empty()
        };
        here + collapse_children(nodes, ok, ti, o + 1)
    }
}

/// Collapse walk of the subtree at `ti`: a mergeable cell becomes one
/// equivalent particle; otherwise a leaf keeps its particles and an inner
/// cell is descended, children in octant order.
pub open spec fn collapse_spec(nodes: Seq<TreeNode>, ok: Seq<bool>, ti: int) -> Seq<Emit> {
    if ok[ti] {
        seq![Emit::Cell(ti as u32)]
    } else if nodes[ti].is_leaf {
        nodes[ti].particles@.map_values(|p: u32| Emit::Particle(p))
    } else {
        collapse_children(nodes, ok, ti, 0)
    }
}

/// Particles in the leaves under children `o..8` of node `ti`, in order.
pub open spec fn particles_below_children(nodes: Seq<TreeNode>, ti: int, o: int) -> Seq<u32>
    decreases nodes.len() - ti, 8 - o,
{
    if ti < 0 || ti >= nodes.len() || o < 0 || o >= 8 {
        Seq::empty()
    } else {
        let c = nodes[ti].children@[o] as int;
        let here = if ti < c && c < nodes.len() {
            if nodes[c].is_leaf {
                nodes[c].particles@
            } else {
                particles_below_children(nodes, c, 0)
            }
        } else {
            Seq::empty()
        };
        here + particles_below_children(nodes, ti, o + 1)
    }
}

/// Particles in the leaves of the subtree at `ti`, in order.
pub open spec fn particles_below(nodes: Seq<TreeNode>, ti: int) -> Seq<u32> {
    if nodes[ti].is_leaf {
        nodes[ti].particles@
    } else {
        particles_below_children(nodes, ti, 0)
    }
}

/// Particles an emitted item stands for.
pub open spec fn covered_by(nodes: Seq<TreeNode>, e: Emit) -> Seq<u32> {
    match e {
        Emit::Cell(c) => particles_below(nodes, c as int),
        Emit::Particle(p) => seq![p],
    }
}

/// Particles a merged wake stands for, item after item.
pub open spec fn covered(nodes: Seq<TreeNode>, es: Seq<Emit>) -> Seq<u32>
    decreases es.len(),
{
    if es.len() == 0 {
        Seq::empty()
    } else {
        covered(nodes, es.drop_last()) + covered_by(nodes, es.last())
    }
}

proof fn lemma_covered_concat(nodes: Seq<TreeNode>, a: Seq<Emit>, b: Seq<Emit>)
    ensures
        covered(nodes, a + b) == covered(nodes, a) + covered(nodes, b),
    decreases b.len(),
{
    if b.len() == 0 {
        assert(a + b =~= a);
        assert(covered(nodes, a) + covered(nodes, b) =~= covered(nodes, a));
    } else {
        assert((a + b).drop_last() =~= a + b.drop_last());
        lemma_covered_concat(nodes, a, b.drop_last());
        assert(covered(nodes, a) + covered(nodes, b) =~= covered(nodes, a) + covered(
            nodes,
            b.drop_last(),
        ) + covered_by(nodes, b.last()));
    }
}

proof fn lemma_covered_particles(nodes: Seq<TreeNode>, ps: Seq<u32>)
    ensures
        covered(nodes, ps.map_values(|p: u32| Emit::Particle(p))) == ps,
    decreases ps.len(),
{
    if ps.len() > 0 {
        lemma_covered_particles(nodes, ps.drop_last());
        assert(ps.map_values(|p: u32| Emit::Particle(p)).drop_last() =~= ps.drop_last().map_values(
            |p: u32| Emit::Particle(p),
        ));
        assert(ps.drop_last().push(ps.last()) =~= ps);
    } else {
        assert(ps.map_values(|p: u32| Emit::Particle(p)) =~= Seq::<Emit>::empty());
        assert(ps =~= Seq::<u32>::empty());
    }
}

proof fn lemma_covered_single(nodes: Seq<TreeNode>, e: Emit)
    ensures
        covered(nodes, seq![e]) == covered_by(nodes, e),
{
    assert(seq![e].drop_last() =~= Seq::<Emit>::empty());
    assert(covered(nodes, Seq::<Emit>::empty()) + covered_by(nodes, e) =~= covered_by(nodes, e));
}

proof fn lemma_collapse_children_covers(nodes: Seq<TreeNode>, ok: Seq<bool>, ti: int, o: int)
    requires
        tree_wf(nodes),
        ok.len() == nodes.len(),
    ensures
        covered(nodes, collapse_children(nodes, ok, ti, o)) == particles_below_children(nodes, ti, o),
    decreases nodes.len() - ti, 8 - o,
{
    if ti < 0 || ti >= nodes.len() || o < 0 || o >= 8 {
        assert(covered(nodes, Seq::<Emit>::empty()) =~= Seq::<u32>::empty());
    } else {
        let c = nodes[ti].children@[o] as int;
        lemma_collapse_children_covers(nodes, ok, ti, o + 1);
        let rest = collapse_children(nodes, ok, ti, o + 1);
        if ti < c && c < nodes.len() {
            let here = if ok[c] {
                seq![Emit::Cell(c as u32)]
            } else if nodes[c].is_leaf {
                nodes[c].particles@.map_values(|p: u32| Emit::Particle(p))
            } else {
                collapse_children(nodes, ok, c, 0)
            };
            lemma_covered_concat(nodes, here, rest);
            if ok[c] {
                lemma_covered_single(nodes, Emit::Cell(c as u32));
            } else if nodes[c].is_leaf {
                lemma_covered_particles(nodes, nodes[c].particles@);
            } else {
                lemma_collapse_children_covers(nodes, ok, c, 0);
            }
        } else {
            assert(Seq::<Emit>::empty() + rest =~= rest);
            assert(Seq::<u32>::empty() + particles_below_children(nodes, ti, o + 1)
                =~= particles_below_children(nodes, ti, o + 1));
        }
    }
}

/// The merge accounts for every particle exactly once: the particles the
/// merged wake stands for (each collapsed cell for the particles under it,
/// each kept particle for itself) are exactly the particles of the tree, in
/// order. So the strength sum of the wake is conserved whichever cells
/// collapse.
pub proof fn lemma_collapse_covers_each_particle_once(nodes: Seq<TreeNode>, ok: Seq<bool>, root: int)
    requires
        tree_wf(nodes),
        ok.len() == nodes.len(),
        0 <= root < nodes.len(),
        nodes.len() <= u32::MAX,
    ensures
        covered(nodes, collapse_spec(nodes, ok, root)) == particles_below(nodes, root),
{
    if ok[root] {
        lemma_covered_single(nodes, Emit::Cell(root as u32));
    } else if nodes[root].is_leaf {
        lemma_covered_particles(nodes, nodes[root].particles@);
    } else {
        lemma_collapse_children_covers(nodes, ok, root, 0);
    }
}

/// Appends the collapse walk of children `o..8` of node `ti`.
fn collapse_children_exec(
    nodes: &Vec<TreeNode>,
    ok: &Vec<bool>,
    ti: usize,
    out: &mut Vec<Emit>,
)
    requires
        tree_wf(nodes@),
        ok@.len() == nodes@.len(),
        ti < nodes@.len(),
        nodes@.len() <= u32::MAX,
    ensures
        final(out)@ == old(out)@ + collapse_children(nodes@, ok@, ti as int, 0),
    decreases nodes@.len() - ti,
{
    let ghost ns = nodes@;
    let ghost out0 = out@;
    let mut o: usize = 0;
    while o < 8
        invariant
            ns == nodes@,
            tree_wf(ns),
            ok@.len() == ns.len(),
            ti < ns.len(),
            ns.len() <= u32::MAX,
            o <= 8,
            out0 + collapse_children(ns, ok@, ti as int, 0) == out@ + collapse_children(
                ns,
                ok@,
                ti as int,
                o as int,
            ),
        decreases 8 - o,
    {
        let c = nodes[ti].children[o];
        proof {
            assert(c == -1 || (ti < c && c < ns.len()));
        }
        let ghost before = out@;
        if c >= 0 {
            let cu = c as usize;
            if ok[cu] {
                out.push(Emit::Cell(cu as u32));
            } else if nodes[cu].is_leaf {
                let ps = &nodes[cu].particles;
                let mut k: usize = 0;
                while k < ps.len()
                    invariant
                        k <= ps@.len(),
                        out@ == before + ps@.take(k as int).map_values(|p: u32| Emit::Particle(p)),
                    decreases ps@.len() - k,
                {
                    out.push(Emit::Particle(ps[k]));
                    proof {
                        assert(ps@.take(k + 1).map_values(|p: u32| Emit::Particle(p))
                            =~= ps@.take(k as int).map_values(|p: u32| Emit::Particle(p)).push(
                            Emit::Particle(ps@[k as int]),
                        ));
                    }
                    k = k + 1;
                }
                proof {
                    assert(ps@.take(ps@.len() as int) =~= ps@);
                }
            } else {
                collapse_children_exec(nodes, ok, cu, out);
            }
        }
        proof {
            let here = out@.skip(before.len() as int);
            assert(out@ =~= before + here);
            assert(collapse_children(ns, ok@, ti as int, o as int) =~= here + collapse_children(
                ns,
                ok@,
                ti as int,
                o + 1,
            ));
            assert(before + collapse_children(ns, ok@, ti as int, o as int) =~= out@
                + collapse_children(ns, ok@, ti as int, o + 1));
        }
        o = o + 1;
    }
    proof {
        assert(collapse_children(ns, ok@, ti as int, 8) =~= Seq::<Emit>::empty());
        assert(out@ + Seq::<Emit>::empty() =~= out@);
    }
}

/// Collapse walk of the tree from `root`, given for every node whether it
/// may be collapsed (the size, coherence and region tests are made by the
/// caller): a mergeable cell becomes one equivalent particle, a leaf that is
/// not keeps its particles, an inner cell that is not is descended.
pub fn collapse_tree(nodes: &Vec<TreeNode>, mergeable: &Vec<bool>, root: usize) -> (r: Vec<Emit>)
    requires
        tree_wf(nodes@),
        mergeable@.len() == nodes@.len(),
        root < nodes@.len(),
        nodes@.len() <= u32::MAX,
    ensures
        r@ == collapse_spec(nodes@, mergeable@, root as int),
{
    let mut out: Vec<Emit> = Vec::new();
    if mergeable[root] {
        out.push(Emit::Cell(root as u32));
        assert(out@ =~= seq![Emit::Cell(root as u32)]);
    } else if nodes[root].is_leaf {
        let ps = &nodes[root].particles;
        let mut k: usize = 0;
        while k < ps.len()
            invariant
                k <= ps@.len(),
                out@ == ps@.take(k as int).map_values(|p: u32| Emit::Particle(p)),
            decreases ps@.len() - k,
        {
            out.push(Emit::Particle(ps[k]));
            proof {
                assert(ps@.take(k + 1).map_values(|p: u32| Emit::Particle(p)) =~= ps@.take(
                    k as int,
                ).map_values(|p: u32| Emit::Particle(p)).push(Emit::Particle(ps@[k as int])));
            }
            k = k + 1;
        }
        proof {
            assert(ps@.take(ps@.len() as int) =~= ps@);
        }
    } else {
        collapse_children_exec(nodes, mergeable, root, &mut out);
        assert(out@ =~= collapse_children(nodes@, mergeable@, root as int, 0));
    }
    out
}

} // verus!
