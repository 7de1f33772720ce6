use vstd::prelude::*;

verus! {

/// Shape of one node of the temporary octree: child node per octant (-1 when
/// the octant is empty) and, for leaves, the particle indices it holds.
#[derive(Clone, Debug)]
pub struct TreeNode {
    pub children: [i32; 8],
    pub particles: Vec<u32>,
    pub is_leaf: bool,
}

/// Every child link is either -1 or names a later node of the tree.
pub open spec fn tree_wf(nodes: Seq<TreeNode>) -> bool {
    forall|i: int, o: int|
        0 <= i < nodes.len() && 0 <= o < 8 ==> {
            let c = #[trigger] nodes[i].children@[o] as int;
            c == -1 || (i < c && c < nodes.len())
        }
}

/// Pre-order of the subtrees of children `o..8` of node `ti` (leaves have
/// none).
pub open spec fn pre_children(nodes: Seq<TreeNode>, ti: int, o: int) -> Seq<int>
    decreases nodes.len() - ti, 8 - o,
{
    if ti < 0 || ti >= nodes.len() || o < 0 || o >= 8 || nodes[ti].is_leaf {
        Seq::empty()
    } else {
        let c = nodes[ti].children@[o] as int;
        let here = if ti < c && c < nodes.len() {
            seq![c] + pre_children(nodes, c, 0)
        } else {
            Seq::empty()
        };
        here + pre_children(nodes, ti, o + 1)
    }
}

/// Depth-first pre-order of the subtree rooted at `ti`, children in octant
/// order.
pub open spec fn preorder(nodes: Seq<TreeNode>, ti: int) -> Seq<int> {
    seq![ti] + pre_children(nodes, ti, 0)
}

/// Smallest multiple of eight that is at least `n`.
pub open spec fn round8(n: nat) -> nat {
    if n % 8 == 0 {
        n
    } else {
        n + (8 - n % 8) as nat
    }
}

/// The packed source block of a node: a leaf's particles followed by
/// padding slots up to a multiple of eight; nothing for an inner node.
pub open spec fn block(n: TreeNode) -> Seq<Option<u32>> {
    if n.is_leaf {
        n.particles@.map_values(|p: u32| Some(p)) + Seq::new(
            (round8(n.particles@.len()) - n.particles@.len()) as nat,
            |k: int| None::<u32>,
        )
    } else {
        Seq::empty()
    }
}

/// Packed source slots of the nodes of `order`, block after block.
pub open spec fn packed_of(nodes: Seq<TreeNode>, order: Seq<int>) -> Seq<Option<u32>>
    decreases order.len(),
{
    if order.len() == 0 {
        Seq::empty()
    } else {
        packed_of(nodes, order.drop_last()) + block(nodes[order.last()])
    }
}

/// Integer part of a flattened node: the tree node it came from, the index
/// just past its subtree, and its packed block (start slot and number of
/// eight-slot chunks; no chunks for an inner node).
#[derive(Clone, Copy, Debug, PartialEq, Eq, Structural)]
pub struct FlatLink {
    pub source: u32,
    pub escape: u32,
    pub leaf_start: u32,
    pub leaf_chunks: u32,
}

/// The flat entry of node `s` placed at index `pos`, its block at `slot`.
pub open spec fn link_spec(nodes: Seq<TreeNode>, s: int, pos: int, slot: int) -> FlatLink {
    FlatLink {
        source: s as u32,
        escape: (pos + preorder(nodes, s).len()) as u32,
        leaf_start: if nodes[s].is_leaf {
            slot as u32
        } else {
            0
        },
        leaf_chunks: if nodes[s].is_leaf {
            (block(nodes[s]).len() / 8) as u32
        } else {
            0
        },
    }
}

/// `links[m..]` are the entries of `order`, placed from index `m`, with
/// their blocks placed from slot `p`.
pub open spec fn links_match(
    nodes: Seq<TreeNode>,
    links: Seq<FlatLink>,
    m: int,
    p: int,
    order: Seq<int>,
) -> bool {
    &&& links.len() == m + order.len()
    &&& forall|j: int|
        0 <= j < order.len() ==> #[trigger] links[m + j] == link_spec(
            nodes,
            order[j],
            m + j,
            p + packed_of(nodes, order.take(j)).len(),
        )
}

/// Packing two node lists one after the other packs their blocks one after
/// the other.
pub proof fn lemma_packed_concat(nodes: Seq<TreeNode>, a: Seq<int>, b: Seq<int>)
    ensures
        packed_of(nodes, a + b) == packed_of(nodes, a) + packed_of(nodes, b),
    decreases b.len(),
{
    if b.len() == 0 {
        assert(a + b =~= a);
        assert(packed_of(nodes, a) + packed_of(nodes, b) =~= packed_of(nodes, a));
    } else {
        assert((a + b).drop_last() =~= a + b.drop_last());
        lemma_packed_concat(nodes, a, b.drop_last());
        assert(packed_of(nodes, a) + packed_of(nodes, b) =~= packed_of(nodes, a) + packed_of(
            nodes,
            b.drop_last(),
        ) + block(nodes[b.last()]));
    }
}

/// A single node packs to its own block.
pub proof fn lemma_packed_single(nodes: Seq<TreeNode>, x: int)
    ensures
        packed_of(nodes, seq![x]) == block(nodes[x]),
{
    assert(seq![x].drop_last() =~= Seq::<int>::empty());
    assert(seq![x].last() == x);
    assert(packed_of(nodes, Seq::<int>::empty()) =~= Seq::<Option<u32>>::empty());
    assert(packed_of(nodes, seq![x]) =~= block(nodes[x]));
}

/// Every block, and so every packing, is a whole number of eight-slot
/// chunks.
pub proof fn lemma_packed_len_mod8(nodes: Seq<TreeNode>, order: Seq<int>)
    ensures
        packed_of(nodes, order).len() % 8 == 0,
    decreases order.len(),
{
    if order.len() > 0 {
        lemma_packed_len_mod8(nodes, order.drop_last());
        let n = nodes[order.last()];
        let l = n.particles@.len();
        assert(round8(l) % 8 == 0);
    }
}

/// The pre-order of a node's children splits at the next child.
proof fn lemma_pre_children_step(nodes: Seq<TreeNode>, ti: int, o: int)
    requires
        tree_wf(nodes),
        0 <= ti < nodes.len(),
        0 <= o < 8,
        !nodes[ti].is_leaf,
    ensures
        ({
            let c = nodes[ti].children@[o] as int;
            pre_children(nodes, ti, o) == if c >= 0 {
                preorder(nodes, c) + pre_children(nodes, ti, o + 1)
            } else {
                pre_children(nodes, ti, o + 1)
            }
        }),
{
    let c = nodes[ti].children@[o] as int;
    assert(c == -1 || (ti < c && c < nodes.len()));
    if c >= 0 {
        assert(seq![c] + pre_children(nodes, c, 0) + pre_children(nodes, ti, o + 1)
            =~= preorder(nodes, c) + pre_children(nodes, ti, o + 1));
    } else {
        assert(pre_children(nodes, ti, o) =~= pre_children(nodes, ti, o + 1));
    }
}

/// Joins two adjacent runs of entries into one.
proof fn lemma_links_join(
    nodes: Seq<TreeNode>,
    links: Seq<FlatLink>,
    m: int,
    p: int,
    a: Seq<int>,
    b: Seq<int>,
)
    requires
        links.len() == m + a.len() + b.len(),
        forall|j: int|
            0 <= j < a.len() ==> #[trigger] links[m + j] == link_spec(
                nodes,
                a[j],
                m + j,
                p + packed_of(nodes, a.take(j)).len(),
            ),
        links_match(nodes, links, m + a.len(), p + packed_of(nodes, a).len(), b),
    ensures
        links_match(nodes, links, m, p, a + b),
{
    let ab = a + b;
    assert forall|j: int| 0 <= j < ab.len() implies #[trigger] links[m + j] == link_spec(
        nodes,
        ab[j],
        m + j,
        p + packed_of(nodes, ab.take(j)).len(),
    ) by {
        if j < a.len() {
            assert(ab.take(j) =~= a.take(j));
        } else {
            let j2 = j - a.len();
            assert(ab.take(j) =~= a + b.take(j2));
            lemma_packed_concat(nodes, a, b.take(j2));
            assert(links[m + a.len() + j2] == link_spec(
                nodes,
                b[j2],
                m + a.len() + j2,
                p + packed_of(nodes, a).len() + packed_of(nodes, b.take(j2)).len(),
            ));
        }
    }
}

/// Appends a leaf's particles followed by padding slots up to the next
/// multiple of eight.
fn pack_leaf(particles: &Vec<u32>, packed: &mut Vec<Option<u32>>)
    requires
        old(packed)@.len() % 8 == 0,
        old(packed)@.len() + round8(particles@.len()) <= u32::MAX,
    ensures
        final(packed)@ == old(packed)@ + particles@.map_values(|p: u32| Some(p)) + Seq::new(
            (round8(particles@.len()) - particles@.len()) as nat,
            |q: int| None::<u32>,
        ),
{
    let ghost packed0 = packed@;
    let mut k: usize = 0;
    while k < particles.len()
        invariant
            k <= particles@.len(),
            packed@ == packed0 + particles@.take(k as int).map_values(|p: u32| Some(p)),
            packed0.len() + particles@.len() <= u32::MAX,
        decreases particles@.len() - k,
    {
        packed.push(Some(particles[k]));
        proof {
            assert(particles@.take(k + 1).map_values(|p: u32| Some(p)) =~= particles@.take(
                k as int,
            ).map_values(|p: u32| Some(p)).push(Some(particles@[k as int])));
        }
        k = k + 1;
    }
    proof {
        assert(particles@.take(particles@.len() as int) =~= particles@);
    }
    let l = particles.len();
    let pad: usize = (8 - l % 8) % 8;
    assert(pad == round8(l as nat) - l);
    let mut cnt: usize = 0;
    proof {
        assert(packed@ =~= packed0 + particles@.map_values(|p: u32| Some(p)) + Seq::new(
            0,
            |q: int| None::<u32>,
        ));
    }
    while cnt < pad
        invariant
            l == particles@.len(),
            pad < 8,
            cnt <= pad,
            packed@ == packed0 + particles@.map_values(|p: u32| Some(p)) + Seq::new(
                cnt as nat,
                |q: int| None::<u32>,
            ),
            packed0.len() + l + pad <= u32::MAX,
        decreases pad - cnt,
    {
        packed.push(None);
        proof {
            assert(Seq::new(cnt as nat, |q: int| None::<u32>).push(None) =~= Seq::new(
                (cnt + 1) as nat,
                |q: int| None::<u32>,
            ));
        }
        cnt = cnt + 1;
    }
}

/// Appends the flat entries and packed blocks of the subtree at `ti`, in
/// pre-order: each entry's escape is the index just past its subtree, and
/// each leaf's block starts where the packing stood when it was reached.
pub fn flatten_node(
    nodes: &Vec<TreeNode>,
    ti: usize,
    links: &mut Vec<FlatLink>,
    packed: &mut Vec<Option<u32>>,
)
    requires
        tree_wf(nodes@),
        ti < nodes@.len(),
        nodes@.len() <= u32::MAX,
        old(links)@.len() + preorder(nodes@, ti as int).len() <= u32::MAX,
        old(packed)@.len() + packed_of(nodes@, preorder(nodes@, ti as int)).len() <= u32::MAX,
        old(packed)@.len() % 8 == 0,
    ensures
        links_match(
            nodes@,
            final(links)@,
            old(links)@.len() as int,
            old(packed)@.len() as int,
            preorder(nodes@, ti as int),
        ),
        final(links)@.take(old(links)@.len() as int) == old(links)@,
        final(packed)@ == old(packed)@ + packed_of(nodes@, preorder(nodes@, ti as int)),
    decreases nodes@.len() - ti,
{
    let ghost ns = nodes@;
    let ghost links0 = links@;
    let ghost packed0 = packed@;
    let my = links.len();
    let start = packed.len();
    links.push(FlatLink { source: ti as u32, escape: 0, leaf_start: 0, leaf_chunks: 0 });
    let node = &nodes[ti];
    let ghost whole = preorder(ns, ti as int);
    if node.is_leaf {
        pack_leaf(&node.particles, packed);
        proof {
            let l = node.particles@.len();
            assert(packed@ =~= packed0 + block(ns[ti as int]));
            assert(whole =~= seq![ti as int]);
            lemma_packed_single(ns, ti as int);
        }
        let chunks = (packed.len() - start) / 8;
        links.set(
            my,
            FlatLink {
                source: ti as u32,
                escape: (my + 1) as u32,
                leaf_start: start as u32,
                leaf_chunks: chunks as u32,
            },
        );
        proof {
            assert(seq![ti as int].take(0) =~= Seq::<int>::empty());
            assert(links@[my as int] == link_spec(ns, whole[0], my as int, start + packed_of(
                ns,
                whole.take(0),
            ).len()));
            assert(links@.take(my as int) =~= links0);
        }
    } else {
        let ghost mut done: Seq<int> = Seq::empty();
        let mut o: usize = 0;
        proof {
            assert(whole =~= seq![ti as int] + done + pre_children(ns, ti as int, 0));
        }
        while o < 8
            invariant
                ns == nodes@,
                tree_wf(ns),
                ti < ns.len(),
                ns.len() <= u32::MAX,
                !ns[ti as int].is_leaf,
                node == &nodes@[ti as int],
                o <= 8,
                whole == preorder(ns, ti as int),
                whole == seq![ti as int] + done + pre_children(ns, ti as int, o as int),
                my == links0.len(),
                start == packed0.len(),
                packed0.len() % 8 == 0,
                links0.len() + whole.len() <= u32::MAX,
                packed0.len() + packed_of(ns, whole).len() <= u32::MAX,
                links@.len() == my + 1 + done.len(),
                links@.take(my as int) == links0,
                links@[my as int] == (FlatLink {
                    source: ti as u32,
                    escape: 0,
                    leaf_start: 0,
                    leaf_chunks: 0,
                }),
                links_match(ns, links@, my + 1, start as int, done),
                packed@ == packed0 + packed_of(ns, done),
            decreases 8 - o,
        {
            let c = node.children[o];
            proof {
                lemma_pre_children_step(ns, ti as int, o as int);
                assert(c == -1 || (ti < c && c < ns.len()));
            }
            if c >= 0 {
                let ghost pc = preorder(ns, c as int);
                let ghost links1 = links@;
                proof {
                    assert(whole == seq![ti as int] + (done + pc) + pre_children(
                        ns,
                        ti as int,
                        o + 1,
                    ));
                    lemma_packed_concat(ns, seq![ti as int] + done, pc + pre_children(
                        ns,
                        ti as int,
                        o + 1,
                    ));
                    lemma_packed_concat(ns, pc, pre_children(ns, ti as int, o + 1));
                    lemma_packed_concat(ns, seq![ti as int], done);
                    assert(seq![ti as int] + done + pc + pre_children(ns, ti as int, o + 1) =~= (
                    seq![ti as int] + done) + (pc + pre_children(ns, ti as int, o + 1)));
                    lemma_packed_len_mod8(ns, done);
                }
                flatten_node(nodes, c as usize, links, packed);
                proof {
                    assert(links@.take(links1.len() as int) == links1);
                    assert forall|j: int| 0 <= j < done.len() implies #[trigger] links@[my + 1
                        + j] == link_spec(
                        ns,
                        done[j],
                        my + 1 + j,
                        start + packed_of(ns, done.take(j)).len(),
                    ) by {
                        assert(links@[my + 1 + j] == links@.take(links1.len() as int)[my + 1 + j]);
                    }
                    lemma_links_join(ns, links@, my + 1, start as int, done, pc);
                    lemma_packed_concat(ns, done, pc);
                    assert(packed@ =~= packed0 + packed_of(ns, done + pc));
                    assert(links@.take(my as int) =~= links1.take(my as int));
                    assert(links@[my as int] == links1[my as int]);
                    assert(seq![ti as int] + (done + pc) + pre_children(ns, ti as int, o + 1)
                        =~= seq![ti as int] + (done + pc) + pre_children(ns, ti as int, o + 1));
                    done = done + pc;
                }
            }
            o = o + 1;
        }
        proof {
            assert(pre_children(ns, ti as int, 8) =~= Seq::<int>::empty());
            assert(whole =~= seq![ti as int] + done);
        }
        let end = links.len();
        links.set(my, FlatLink { source: ti as u32, escape: end as u32, leaf_start: 0, leaf_chunks: 0 });
        proof {
            assert(links@.take(my as int) =~= links0);
            assert(seq![ti as int].take(0) =~= Seq::<int>::empty());
            lemma_packed_single(ns, ti as int);
            assert(block(ns[ti as int]) =~= Seq::<Option<u32>>::empty());
            assert forall|j: int| 0 <= j < done.len() implies #[trigger] links@[my + 1 + j]
                == link_spec(
                ns,
                done[j],
                my + 1 + j,
                start + packed_of(ns, done.take(j)).len(),
            ) by {}
            assert(links@[my as int] == link_spec(ns, seq![ti as int][0], my + 0, start
                + packed_of(ns, seq![ti as int].take(0)).len()));
            lemma_links_join(ns, links@, my as int, start as int, seq![ti as int], done);
            lemma_packed_concat(ns, seq![ti as int], done);
        }
    }
}

/// Flattened octree: entries in depth-first pre-order and the packed
/// source order (particle index, or `None` for a padding slot).
pub struct FlatLayout {
    pub links: Vec<FlatLink>,
    pub packed: Vec<Option<u32>>,
}

/// Flattens the tree rooted at `root` into pre-order entries with escape
/// links and leaf blocks packed in eight-slot chunks.
pub fn flatten_tree(nodes: &Vec<TreeNode>, root: usize) -> (r: FlatLayout)
    requires
        tree_wf(nodes@),
        root < nodes@.len(),
        nodes@.len() <= u32::MAX,
        preorder(nodes@, root as int).len() <= u32::MAX,
        packed_of(nodes@, preorder(nodes@, root as int)).len() <= u32::MAX,
    ensures
        links_match(nodes@, r.links@, 0, 0, preorder(nodes@, root as int)),
        r.packed@ == packed_of(nodes@, preorder(nodes@, root as int)),
{
    let mut links: Vec<FlatLink> = Vec::new();
    let mut packed: Vec<Option<u32>> = Vec::new();
    flatten_node(nodes, root, &mut links, &mut packed);
    proof {
        assert(packed@ =~= packed_of(nodes@, preorder(nodes@, root as int)));
    }
    FlatLayout { links, packed }
}

/// Next entry of the stackless walk from entry `i`: a cell accepted as far
/// away, or a leaf (which is evaluated directly), is skipped past its whole
/// subtree; an inner cell that is near is opened by moving to its first
/// child, the next entry.
pub fn next_in_walk(links: &Vec<FlatLink>, i: usize, far: bool) -> (r: usize)
    requires
        i < links@.len(),
    ensures
        r == (if far || links@[i as int].leaf_chunks != 0 {
            links@[i as int].escape as int
        } else {
            i + 1
        }),
{
    let n = links.len();
    if far || links[i].leaf_chunks != 0 {
        links[i].escape as usize
    } else {
        assert(i < n);
        i + 1
    }
}

/// Inside the pre-order of a node's children, the subtree of each entry is
/// the contiguous run that starts at it.
proof fn lemma_pre_children_nested(nodes: Seq<TreeNode>, ti: int, o: int, k: int)
    requires
        tree_wf(nodes),
        0 <= k < pre_children(nodes, ti, o).len(),
    ensures
        ({
            let pc = pre_children(nodes, ti, o);
            let x = pc[k];
            &&& 0 <= x < nodes.len()
            &&& k + preorder(nodes, x).len() <= pc.len()
            &&& pc.subrange(k, k + preorder(nodes, x).len()) == preorder(nodes, x)
        }),
    decreases nodes.len() - ti, 8 - o,
{
    let pc = pre_children(nodes, ti, o);
    if ti < 0 || ti >= nodes.len() || o < 0 || o >= 8 || nodes[ti].is_leaf {
    } else {
        let c = nodes[ti].children@[o] as int;
        let here = if ti < c && c < nodes.len() {
            seq![c] + pre_children(nodes, c, 0)
        } else {
            Seq::<int>::empty()
        };
        let rest = pre_children(nodes, ti, o + 1);
        assert(pc == here + rest);
        if k < here.len() {
            assert(ti < c && c < nodes.len());
            assert(here =~= preorder(nodes, c));
            if k == 0 {
                assert(pc.subrange(0, here.len() as int) =~= here);
            } else {
                lemma_pre_children_nested(nodes, c, 0, k - 1);
                let inner = pre_children(nodes, c, 0);
                let x = inner[k - 1];
                assert(pc[k] == x);
                assert(pc.subrange(k, k + preorder(nodes, x).len()) =~= inner.subrange(
                    k - 1,
                    k - 1 + preorder(nodes, x).len(),
                ));
            }
        } else {
            lemma_pre_children_nested(nodes, ti, o + 1, k - here.len());
            let x = rest[k - here.len()];
            assert(pc[k] == x);
            assert(pc.subrange(k, k + preorder(nodes, x).len()) =~= rest.subrange(
                k - here.len(),
                k - here.len() + preorder(nodes, x).len(),
            ));
        }
    }
}

/// Inside a pre-order, the subtree of each entry is the contiguous run that
/// starts at it.
pub proof fn lemma_preorder_nested(nodes: Seq<TreeNode>, s: int, k: int)
    requires
        tree_wf(nodes),
        0 <= s < nodes.len(),
        0 <= k < preorder(nodes, s).len(),
    ensures
        ({
            let p = preorder(nodes, s);
            let x = p[k];
            &&& 0 <= x < nodes.len()
            &&& k + preorder(nodes, x).len() <= p.len()
            &&& p.subrange(k, k + preorder(nodes, x).len()) == preorder(nodes, x)
        }),
{
    let p = preorder(nodes, s);
    if k == 0 {
        assert(p.subrange(0, p.len() as int) =~= p);
    } else {
        lemma_pre_children_nested(nodes, s, 0, k - 1);
        let inner = pre_children(nodes, s, 0);
        let x = inner[k - 1];
        assert(p[k] == x);
        assert(p.subrange(k, k + preorder(nodes, x).len()) =~= inner.subrange(
            k - 1,
            k - 1 + preorder(nodes, x).len(),
        ));
    }
}

/// In a flattened tree each entry's escape lies past it and within the
/// layout, and subtrees nest: an entry inside another's subtree escapes no
/// later than that subtree ends. So the stackless walk always moves forward
/// and skipping a cell skips exactly its descendants.
pub proof fn lemma_flat_escapes_nest(nodes: Seq<TreeNode>, links: Seq<FlatLink>, root: int)
    requires
        tree_wf(nodes),
        0 <= root < nodes.len(),
        preorder(nodes, root).len() <= u32::MAX,
        links_match(nodes, links, 0, 0, preorder(nodes, root)),
    ensures
        forall|i: int|
            0 <= i < links.len() ==> i < (#[trigger] links[i]).escape && links[i].escape
                <= links.len(),
        forall|i: int, j: int|
            0 <= i < j < links.len() && j < links[i].escape ==> #[trigger] links[j].escape
                <= #[trigger] links[i].escape,
{
    let p = preorder(nodes, root);
    assert forall|i: int| 0 <= i < links.len() implies i < (#[trigger] links[i]).escape
        && links[i].escape <= links.len() by {
        assert(links[0 + i] == links[i]);
        lemma_preorder_nested(nodes, root, i);
    }
    assert forall|i: int, j: int|
        0 <= i < j < links.len() && j < links[i].escape implies #[trigger] links[j].escape
        <= #[trigger] links[i].escape by {
        assert(links[0 + i] == links[i]);
        assert(links[0 + j] == links[j]);
        lemma_preorder_nested(nodes, root, i);
        let x = p[i];
        let px = preorder(nodes, x);
        assert(p.subrange(i, i + px.len()) == px);
        let k = j - i;
        assert(p[j] == px[k]);
        lemma_preorder_nested(nodes, x, k);
    }
}

/// Packing a prefix one entry longer adds that entry's block.
proof fn lemma_packed_take_step(nodes: Seq<TreeNode>, order: Seq<int>, k: int)
    requires
        0 <= k < order.len(),
    ensures
        packed_of(nodes, order.take(k + 1)) == packed_of(nodes, order.take(k)) + block(
            nodes[order[k]],
        ),
{
    assert(order.take(k + 1).drop_last() =~= order.take(k));
}

/// In a flattened tree, each leaf's chunks in the packed order hold exactly
/// its particles, in order, followed by padding slots; inner cells own no
/// chunks.
pub proof fn lemma_leaf_blocks_hold_particles(
    nodes: Seq<TreeNode>,
    links: Seq<FlatLink>,
    packed: Seq<Option<u32>>,
    root: int,
    i: int,
)
    requires
        tree_wf(nodes),
        0 <= root < nodes.len(),
        nodes.len() <= u32::MAX,
        preorder(nodes, root).len() <= u32::MAX,
        packed.len() <= u32::MAX,
        links_match(nodes, links, 0, 0, preorder(nodes, root)),
        packed == packed_of(nodes, preorder(nodes, root)),
        0 <= i < links.len(),
    ensures
        ({
            let l = links[i];
            let n = nodes[l.source as int];
            &&& l.leaf_start % 8 == 0
            &&& l.leaf_start + 8 * l.leaf_chunks <= packed.len()
            &&& n.is_leaf ==> packed.subrange(
                l.leaf_start as int,
                l.leaf_start + 8 * l.leaf_chunks,
            ) == block(n)
            &&& n.is_leaf ==> forall|q: int|
                0 <= q < n.particles@.len() ==> #[trigger] packed[l.leaf_start + q] == Some(
                    n.particles@[q],
                )
            &&& !n.is_leaf ==> l.leaf_chunks == 0
        }),
{
    let p = preorder(nodes, root);
    assert(links[0 + i] == links[i]);
    lemma_preorder_nested(nodes, root, i);
    let x = p[i];
    let n = nodes[x];
    lemma_packed_take_step(nodes, p, i);
    lemma_packed_len_mod8(nodes, p.take(i));
    lemma_packed_len_mod8(nodes, p.take(i + 1));
    assert(p =~= p.take(i + 1) + p.skip(i + 1));
    lemma_packed_concat(nodes, p.take(i + 1), p.skip(i + 1));
    let before = packed_of(nodes, p.take(i));
    assert(packed == before + block(n) + packed_of(nodes, p.skip(i + 1)));
    assert(block(n).len() % 8 == 0) by {
        lemma_packed_single(nodes, x);
        lemma_packed_len_mod8(nodes, seq![x]);
    }
    if n.is_leaf {
        assert(packed.subrange(before.len() as int, before.len() + block(n).len() as int) =~= block(n));
        assert forall|q: int| 0 <= q < n.particles@.len() implies #[trigger] packed[before.len()
            + q] == Some(n.particles@[q]) by {
            assert(packed[before.len() + q] == block(n)[q]);
        }
    }
}

/// Most particles a cell keeps as a leaf.
pub const BH_LEAF_MAX: usize = 32;

/// A cell stays a leaf when it holds few particles or is too small to split
/// (the size test is made on the cell's half-width by the caller).
pub fn is_leaf_cell(count: usize, too_small: bool) -> (r: bool)
    ensures
        r == (count <= BH_LEAF_MAX || too_small),
{
    count <= BH_LEAF_MAX || too_small
}

/// Octant of a point relative to a cell centre: bit 0 for x, bit 1 for y,
/// bit 2 for z, each set when the coordinate is at or above the centre's.
pub open spec fn octant_spec(x_hi: bool, y_hi: bool, z_hi: bool) -> int {
    (if x_hi {
        1int
    } else {
        0
    }) + (if y_hi {
        2int
    } else {
        0
    }) + (if z_hi {
        4int
    } else {
        0
    })
}

/// Octant of a point relative to a cell centre, from the three
/// at-or-above comparisons.
pub fn octant_index(x_hi: bool, y_hi: bool, z_hi: bool) -> (r: usize)
    ensures
        r == octant_spec(x_hi, y_hi, z_hi),
        r < 8,
{
    let mut o: usize = 0;
    if x_hi {
        o = o + 1;
    }
    if y_hi {
        o = o + 2;
    }
    if z_hi {
        o = o + 4;
    }
    o
}

/// An octant number holds the three comparisons as its bits: bit 0 is set
/// exactly when the point is at or above the centre in x, bit 1 in y, bit 2
/// in z; so the eight sides of a centre get the eight numbers `0..8`, each
/// once.
pub proof fn lemma_octant_bits(x_hi: bool, y_hi: bool, z_hi: bool)
    ensures
        0 <= octant_spec(x_hi, y_hi, z_hi) < 8,
        (octant_spec(x_hi, y_hi, z_hi) % 2 == 1) == x_hi,
        ((octant_spec(x_hi, y_hi, z_hi) / 2) % 2 == 1) == y_hi,
        (octant_spec(x_hi, y_hi, z_hi) / 4 == 1) == z_hi,
{
}

/// Two points fall into the same octant exactly when they lie on the same
/// side of the centre in all three axes.
pub proof fn lemma_octant_injective(a: (bool, bool, bool), b: (bool, bool, bool))
    ensures
        octant_spec(a.0, a.1, a.2) == octant_spec(b.0, b.1, b.2) <==> a == b,
{
    lemma_octant_bits(a.0, a.1, a.2);
    lemma_octant_bits(b.0, b.1, b.2);
}

/// The indices whose octant is `o`, in their original order.
pub open spec fn in_octant(idx: Seq<u32>, oct: Seq<usize>, o: int) -> Seq<u32>
    decreases idx.len(),
{
    if idx.len() == 0 {
        Seq::empty()
    } else {
        let rest = in_octant(idx.drop_last(), oct.drop_last(), o);
        if oct[idx.len() - 1] == o {
            rest.push(idx.last())
        } else {
            rest
        }
    }
}

/// Splits a cell's particle indices into the eight octant buckets, keeping
/// their order within each bucket.
pub fn bucket_by_octant(idx: &Vec<u32>, oct: &Vec<usize>) -> (r: Vec<Vec<u32>>)
    requires
        idx@.len() == oct@.len(),
        forall|k: int| 0 <= k < oct@.len() ==> #[trigger] oct@[k] < 8,
    ensures
        r@.len() == 8,
        forall|o: int| 0 <= o < 8 ==> (#[trigger] r@[o])@ == in_octant(idx@, oct@, o),
{
    let mut buckets: Vec<Vec<u32>> = Vec::new();
    let mut o: usize = 0;
    while o < 8
        invariant
            o <= 8,
            buckets@.len() == o,
            forall|q: int| 0 <= q < o ==> (#[trigger] buckets@[q])@ == Seq::<u32>::empty(),
        decreases 8 - o,
    {
        buckets.push(Vec::new());
        o = o + 1;
    }
    let mut k: usize = 0;
    proof {
        assert forall|q: int| 0 <= q < 8 implies (#[trigger] buckets@[q])@ == in_octant(
            idx@.take(0),
            oct@.take(0),
            q,
        ) by {}
    }
    while k < idx.len()
        invariant
            idx@.len() == oct@.len(),
            forall|j: int| 0 <= j < oct@.len() ==> #[trigger] oct@[j] < 8,
            k <= idx@.len(),
            buckets@.len() == 8,
            forall|q: int|
                0 <= q < 8 ==> (#[trigger] buckets@[q])@ == in_octant(
                    idx@.take(k as int),
                    oct@.take(k as int),
                    q,
                ),
        decreases idx@.len() - k,
    {
        let p = idx[k];
        let b = oct[k];
        let ghost before = buckets@;
        let mut bucket = buckets[b].clone();
        assert(bucket@ == before[b as int]@);
        bucket.push(p);
        buckets.set(b, bucket);
        proof {
            assert forall|q: int| 0 <= q < 8 implies (#[trigger] buckets@[q])@ == in_octant(
                idx@.take(k + 1),
                oct@.take(k + 1),
                q,
            ) by {
                assert(idx@.take(k + 1).drop_last() =~= idx@.take(k as int));
                assert(oct@.take(k + 1).drop_last() =~= oct@.take(k as int));
                assert(oct@.take(k + 1)[k as int] == b);
            }
        }
        k = k + 1;
    }
    proof {
        assert(idx@.take(idx@.len() as int) =~= idx@);
        assert(oct@.take(oct@.len() as int) =~= oct@);
    }
    buckets
}

/// The eight buckets together hold every index exactly once: their sizes
/// add up to the cell's particle count.
pub proof fn lemma_buckets_partition(idx: Seq<u32>, oct: Seq<usize>)
    requires
        idx.len() == oct.len(),
        forall|k: int| 0 <= k < oct.len() ==> #[trigger] oct[k] < 8,
    ensures
        in_octant(idx, oct, 0).len() + in_octant(idx, oct, 1).len() + in_octant(idx, oct, 2).len()
            + in_octant(idx, oct, 3).len() + in_octant(idx, oct, 4).len() + in_octant(
            idx,
            oct,
            5,
        ).len() + in_octant(idx, oct, 6).len() + in_octant(idx, oct, 7).len() == idx.len(),
    decreases idx.len(),
{
    if idx.len() > 0 {
        lemma_buckets_partition(idx.drop_last(), oct.drop_last());
        assert(oct[idx.len() - 1] < 8);
    }
}

/// Slots of a gather buffer for `n` sources: `n` rounded up to a multiple of
/// eight.
pub fn scratch_capacity(n: usize) -> (r: usize)
    requires
        n + 7 <= usize::MAX,
    ensures
        r == round8(n as nat),
        r % 8 == 0,
        n <= r < n + 8,
{
    let r = (n + 7) / 8 * 8;
    assert(r == round8(n as nat)) by (nonlinear_arith)
        requires
            r == (n + 7) / 8 * 8,
            n >= 0,
    {
    }
    r
}

/// A walk step accepts the cell (far cell or leaf) and skips its subtree.
pub open spec fn accepts(links: Seq<FlatLink>, i: int, far: bool) -> bool {
    far || links[i].leaf_chunks != 0
}

/// Entry the walk moves to from `i` (as `next_in_walk` computes it).
pub open spec fn walk_next(links: Seq<FlatLink>, i: int, far: bool) -> int {
    if accepts(links, i, far) {
        links[i].escape as int
    } else {
        i + 1
    }
}

/// `idx` lists the entries a stackless walk visits, starting at the root,
/// with `far[t]` the far-field decision taken at visit `t`; the walk ends
/// when the next entry lies past the layout.
pub open spec fn is_walk(links: Seq<FlatLink>, idx: Seq<int>, far: Seq<bool>) -> bool {
    &&& idx.len() == far.len()
    &&& idx.len() > 0
    &&& idx[0] == 0
    &&& forall|t: int| 0 <= t < idx.len() ==> 0 <= #[trigger] idx[t] < links.len()
    &&& forall|t: int|
        0 <= t < idx.len() - 1 ==> #[trigger] idx[t + 1] == walk_next(links, idx[t], far[t])
    &&& walk_next(links, idx.last(), far.last()) >= links.len()
}

proof fn lemma_walk_monotone(links: Seq<FlatLink>, idx: Seq<int>, far: Seq<bool>, t1: int, t2: int)
    requires
        is_walk(links, idx, far),
        forall|i: int| 0 <= i < links.len() ==> i < (#[trigger] links[i]).escape,
        0 <= t1 < t2 < idx.len(),
    ensures
        idx[t1] < idx[t2],
        accepts(links, idx[t1], far[t1]) ==> idx[t2] >= links[idx[t1]].escape,
    decreases t2 - t1,
{
    assert(idx[t1 + 1] == walk_next(links, idx[t1], far[t1]));
    assert(idx[t1] < links[idx[t1]].escape);
    if t2 > t1 + 1 {
        lemma_walk_monotone(links, idx, far, t1 + 1, t2);
    }
}

/// Last visit at or before entry `j`.
proof fn lemma_last_visit_before(links: Seq<FlatLink>, idx: Seq<int>, far: Seq<bool>, j: int) -> (t: int)
    requires
        is_walk(links, idx, far),
        forall|i: int| 0 <= i < links.len() ==> i < (#[trigger] links[i]).escape,
        0 <= j < links.len(),
    ensures
        0 <= t < idx.len(),
        idx[t] <= j,
        t + 1 < idx.len() ==> idx[t + 1] > j,
{
    let last = idx.len() - 1;
    if idx[last] <= j {
        last
    } else {
        lemma_last_visit_before_prefix(links, idx, far, j, last)
    }
}

/// Last visit at or before entry `j` among the first `n` visits, when the
/// visit after them lies past `j`.
proof fn lemma_last_visit_before_prefix(
    links: Seq<FlatLink>,
    idx: Seq<int>,
    far: Seq<bool>,
    j: int,
    n: int,
) -> (t: int)
    requires
        is_walk(links, idx, far),
        forall|i: int| 0 <= i < links.len() ==> i < (#[trigger] links[i]).escape,
        0 <= j < links.len(),
        1 <= n < idx.len(),
        idx[n] > j,
    ensures
        0 <= t < n,
        idx[t] <= j,
        idx[t + 1] > j,
    decreases n,
{
    if idx[n - 1] <= j {
        n - 1
    } else {
        assert(n - 1 >= 1) by {
            if n - 1 == 0 {
                assert(idx[0] == 0);
            }
        }
        lemma_last_visit_before_prefix(links, idx, far, j, n - 1)
    }
}

/// The stackless walk over a flattened tree accounts for every leaf exactly
/// once, whatever the far-field decisions: exactly one visit accepts a cell
/// whose subtree holds that leaf (the leaf itself, or a far ancestor whose
/// aggregate then stands for it).
pub proof fn lemma_walk_covers_each_leaf_once(
    nodes: Seq<TreeNode>,
    links: Seq<FlatLink>,
    root: int,
    idx: Seq<int>,
    far: Seq<bool>,
    j: int,
)
    requires
        tree_wf(nodes),
        0 <= root < nodes.len(),
        preorder(nodes, root).len() <= u32::MAX,
        links_match(nodes, links, 0, 0, preorder(nodes, root)),
        is_walk(links, idx, far),
        0 <= j < links.len(),
        links[j].leaf_chunks != 0,
    ensures
        exists|t: int|
            0 <= t < idx.len() && accepts(links, idx[t], far[t]) && idx[t] <= j < links[idx[t]].escape,
        forall|t1: int, t2: int|
            0 <= t1 < idx.len() && 0 <= t2 < idx.len() && accepts(links, idx[t1], far[t1])
                && idx[t1] <= j < links[idx[t1]].escape && accepts(links, idx[t2], far[t2])
                && idx[t2] <= j < links[idx[t2]].escape ==> t1 == t2,
{
    lemma_flat_escapes_nest(nodes, links, root);
    let t = lemma_last_visit_before(links, idx, far, j);
    let i = idx[t];
    let nxt = walk_next(links, i, far[t]);
    assert(nxt > j) by {
        if t + 1 < idx.len() {
            assert(idx[t + 1] == walk_next(links, idx[t], far[t]));
        } else {
            assert(t == idx.len() - 1);
        }
    }
    if !accepts(links, i, far[t]) {
        assert(nxt == i + 1);
        assert(i == j);
        assert(false);
    }
    assert(accepts(links, idx[t], far[t]) && idx[t] <= j < links[idx[t]].escape);
    assert forall|t1: int, t2: int|
        0 <= t1 < idx.len() && 0 <= t2 < idx.len() && accepts(links, idx[t1], far[t1])
            && idx[t1] <= j < links[idx[t1]].escape && accepts(links, idx[t2], far[t2])
            && idx[t2] <= j < links[idx[t2]].escape implies t1 == t2 by {
        if t1 < t2 {
            lemma_walk_monotone(links, idx, far, t1, t2);
        } else if t2 < t1 {
            lemma_walk_monotone(links, idx, far, t2, t1);
        }
    }
}

/// Every child link is -1 or names a later node.
pub fn check_tree_wf(nodes: &Vec<TreeNode>) -> (r: bool)
    ensures
        r == tree_wf(nodes@),
{
    let n = nodes.len();
    let mut i: usize = 0;
    while i < n
        invariant
            n == nodes@.len(),
            i <= n,
            forall|a: int, o: int|
                0 <= a < i && 0 <= o < 8 ==> {
                    let c = #[trigger] nodes@[a].children@[o] as int;
                    c == -1 || (a < c && c < n)
                },
        decreases n - i,
    {
        let mut o: usize = 0;
        while o < 8
            invariant
                n == nodes@.len(),
                i < n,
                o <= 8,
                forall|a: int, q: int|
                    0 <= a < i && 0 <= q < 8 ==> {
                        let c = #[trigger] nodes@[a].children@[q] as int;
                        c == -1 || (a < c && c < n)
                    },
                forall|q: int|
                    0 <= q < o ==> {
                        let c = #[trigger] nodes@[i as int].children@[q] as int;
                        c == -1 || (i < c && c < n)
                    },
            decreases 8 - o,
        {
            let c = nodes[i].children[o];
            if !(c == -1 || (c >= 0 && i < c as usize && (c as usize) < n)) {
                return false;
            }
            o = o + 1;
        }
        i = i + 1;
    }
    true
}

/// Number of entries of the subtree at `ti` (its pre-order length) when it
/// is at most `limit`; `None` when it is larger.
pub fn subtree_len(nodes: &Vec<TreeNode>, ti: usize, limit: usize) -> (r: Option<usize>)
    requires
        tree_wf(nodes@),
        ti < nodes@.len(),
    ensures
        match r {
            Some(k) => k == preorder(nodes@, ti as int).len() && k <= limit,
            None => preorder(nodes@, ti as int).len() > limit,
        },
    decreases nodes@.len() - ti,
{
    let ghost ns = nodes@;
    if limit == 0 {
        return None;
    }
    let mut total: usize = 1;
    if nodes[ti].is_leaf {
        assert(preorder(ns, ti as int) =~= seq![ti as int]);
        return Some(1);
    }
    let ghost mut done: Seq<int> = Seq::empty();
    let mut o: usize = 0;
    proof {
        assert(preorder(ns, ti as int) =~= seq![ti as int] + done + pre_children(ns, ti as int, 0));
    }
    while o < 8
        invariant
            ns == nodes@,
            tree_wf(ns),
            ti < ns.len(),
            !ns[ti as int].is_leaf,
            o <= 8,
            preorder(ns, ti as int) == seq![ti as int] + done + pre_children(ns, ti as int, o as int),
            total == 1 + done.len(),
            total <= limit,
        decreases 8 - o,
    {
        let c = nodes[ti].children[o];
        proof {
            lemma_pre_children_step(ns, ti as int, o as int);
        }
        if c >= 0 {
            let ghost pc = preorder(ns, c as int);
            match subtree_len(nodes, c as usize, limit - total) {
                None => {
                    proof {
                        assert(preorder(ns, ti as int).len() >= total + pc.len());
                    }
                    return None;
                },
                Some(k) => {
                    total = total + k;
                    proof {
                        assert(seq![ti as int] + (done + pc) + pre_children(ns, ti as int, o + 1)
                            =~= seq![ti as int] + done + (pc + pre_children(
                            ns,
                            ti as int,
                            o + 1,
                        )));
                        done = done + pc;
                    }
                },
            }
        }
        o = o + 1;
    }
    proof {
        assert(pre_children(ns, ti as int, 8) =~= Seq::<int>::empty());
        assert(preorder(ns, ti as int) =~= seq![ti as int] + done);
    }
    Some(total)
}

/// Packed slots of the subtree at `ti` when at most `limit`; `None` when
/// more.
pub fn subtree_slots(nodes: &Vec<TreeNode>, ti: usize, limit: usize) -> (r: Option<usize>)
    requires
        tree_wf(nodes@),
        ti < nodes@.len(),
    ensures
        match r {
            Some(k) => k == packed_of(nodes@, preorder(nodes@, ti as int)).len() && k <= limit,
            None => packed_of(nodes@, preorder(nodes@, ti as int)).len() > limit,
        },
    decreases nodes@.len() - ti,
{
    let ghost ns = nodes@;
    proof {
        lemma_packed_single(ns, ti as int);
    }
    if nodes[ti].is_leaf {
        assert(preorder(ns, ti as int) =~= seq![ti as int]);
        let l = nodes[ti].particles.len();
        if l > limit {
            return None;
        }
        let pad: usize = (8 - l % 8) % 8;
        if pad > limit - l {
            return None;
        }
        assert(l + pad == round8(l as nat));
        return Some(l + pad);
    }
    let mut total: usize = 0;
    let ghost mut done: Seq<int> = Seq::empty();
    let mut o: usize = 0;
    proof {
        assert(preorder(ns, ti as int) =~= seq![ti as int] + done + pre_children(ns, ti as int, 0));
        assert(packed_of(ns, seq![ti as int]) =~= Seq::<Option<u32>>::empty());
        lemma_packed_concat(ns, seq![ti as int], done);
        assert(seq![ti as int] + done =~= seq![ti as int]);
    }
    while o < 8
        invariant
            ns == nodes@,
            tree_wf(ns),
            ti < ns.len(),
            !ns[ti as int].is_leaf,
            o <= 8,
            preorder(ns, ti as int) == seq![ti as int] + done + pre_children(ns, ti as int, o as int),
            total == packed_of(ns, seq![ti as int] + done).len(),
            total <= limit,
        decreases 8 - o,
    {
        let c = nodes[ti].children[o];
        proof {
            lemma_pre_children_step(ns, ti as int, o as int);
        }
        if c >= 0 {
            let ghost pc = preorder(ns, c as int);
            let ghost rest = pre_children(ns, ti as int, o + 1);
            proof {
                assert(seq![ti as int] + done + (pc + rest) =~= (seq![ti as int] + done) + pc
                    + rest);
                lemma_packed_concat(ns, (seq![ti as int] + done) + pc, rest);
                lemma_packed_concat(ns, seq![ti as int] + done, pc);
                assert(seq![ti as int] + done + pre_children(ns, ti as int, o as int) =~= (
                seq![ti as int] + done) + pc + rest);
            }
            match subtree_slots(nodes, c as usize, limit - total) {
                None => {
                    return None;
                },
                Some(k) => {
                    total = total + k;
                    proof {
                        assert(seq![ti as int] + (done + pc) =~= (seq![ti as int] + done) + pc);
                        assert(seq![ti as int] + (done + pc) + rest =~= seq![ti as int] + done + (
                        pc + rest));
                        done = done + pc;
                    }
                },
            }
        }
        o = o + 1;
    }
    proof {
        assert(pre_children(ns, ti as int, 8) =~= Seq::<int>::empty());
        assert(preorder(ns, ti as int) =~= seq![ti as int] + done);
    }
    Some(total)
}

/// Flattens the tree rooted at `root` after checking it: `None` when a
/// child link does not name a later node, or when the layout would not fit
/// the 32-bit indices; otherwise the layout `flatten_tree` builds.
pub fn try_flatten_tree(nodes: &Vec<TreeNode>, root: usize) -> (r: Option<FlatLayout>)
    ensures
        r is Some <==> (tree_wf(nodes@) && root < nodes@.len() && nodes@.len() <= u32::MAX
            && preorder(nodes@, root as int).len() <= u32::MAX && packed_of(
            nodes@,
            preorder(nodes@, root as int),
        ).len() <= u32::MAX),
        r matches Some(t) ==> links_match(nodes@, t.links@, 0, 0, preorder(nodes@, root as int))
            && t.packed@ == packed_of(nodes@, preorder(nodes@, root as int)),
{
    if root >= nodes.len() || nodes.len() > 0xffff_ffff {
        return None;
    }
    if !check_tree_wf(nodes) {
        return None;
    }
    let limit: usize = if usize::MAX > 0xffff_ffff {
        0xffff_ffff
    } else {
        usize::MAX
    };
    match subtree_len(nodes, root, limit) {
        None => return None,
        Some(_) => {},
    }
    match subtree_slots(nodes, root, limit) {
        None => return None,
        Some(_) => {},
    }
    Some(flatten_tree(nodes, root))
}

} // verus!
