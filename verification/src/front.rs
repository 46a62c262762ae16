//! Maintenance of the advancing front: finding the next `Active` edge on the
//! stack, incorporating a new vertex across an edge (`join`), merging a pair
//! of oppositely-directed duplicate edges (`glue`), and looking such a pair
//! up. `join` and `glue` carry the front invariant (`front_wf`): the
//! non-`Inner` edges always form consistent doubly-linked loops.

use vstd::prelude::*;

use crate::mesh::{
    edge_ok, edges_registered, edges_vals_wf, front_wf, list_has, lists_sound, mesh_wf,
    points_geom_wf, EdgeStatus, MeshEdge, MeshFace, MeshPoint, Triangle,
};
use crate::vec3::Vec3Fix;
use crate::VEC_MAX;

verus! {

/// What is left of the front stack and which edge is found, after discarding
/// the non-`Active` edges that have accumulated on top.
pub open spec fn get_active_spec(front: Seq<usize>, edges: Seq<MeshEdge>) -> (Seq<usize>, Option<
    usize,
>)
    decreases front.len(),
{
    if front.len() == 0 {
        (front, None::<usize>)
    } else if edges[front.last() as int].status == EdgeStatus::Active {
        (front, Some(front.last()))
    } else {
        get_active_spec(front.drop_last(), edges)
    }
}

/// Pop non-`Active` edges off the top of the front; return the `Active` edge
/// now on top, or `None` once the stack is empty.
pub fn get_active_edge(front: &mut Vec<usize>, edges: &Vec<MeshEdge>) -> (r: Option<usize>)
    requires
        forall|k: int| 0 <= k < old(front)@.len() ==> (#[trigger] old(front)@[k]) < edges@.len(),
    ensures
        (final(front)@, r) == get_active_spec(old(front)@, edges@),
        forall|k: int| 0 <= k < final(front)@.len() ==> (#[trigger] final(front)@[k]) < edges@.len(),
        r is Some ==> final(front)@.len() > 0 && final(front)@.last() == r->0 && r->0
            < edges@.len() && edges@[r->0 as int].status == EdgeStatus::Active,
        r is None ==> final(front)@.len() == 0,
{
    loop
        invariant
            forall|k: int| 0 <= k < front@.len() ==> (#[trigger] front@[k]) < edges@.len(),
            get_active_spec(front@, edges@) == get_active_spec(old(front)@, edges@),
        ensures
            forall|k: int| 0 <= k < front@.len() ==> (#[trigger] front@[k]) < edges@.len(),
            get_active_spec(front@, edges@) == get_active_spec(old(front)@, edges@),
            front@.len() == 0 || edges@[front@.last() as int].status == EdgeStatus::Active,
        decreases front@.len(),
    {
        let n = front.len();
        if n == 0 {
            break;
        }
        let top = front[n - 1];
        if edges[top].status == EdgeStatus::Active {
            break;
        }
        proof {
            assert(front@.drop_last() == front@.subrange(0, front@.len() - 1));
        }
        let _ = front.pop();
    }
    let n = front.len();
    if n == 0 {
        None
    } else {
        Some(front[n - 1])
    }
}

/// Append the face's three positions as an output triangle.
pub fn output_triangle(f: &MeshFace, triangles: &mut Vec<Triangle>)
    ensures
        final(triangles)@ == old(triangles)@.push(
            Triangle([f.0[0].pos, f.0[1].pos, f.0[2].pos]),
        ),
{
    let t = Triangle([f.0[0].pos, f.0[1].pos, f.0[2].pos]);
    triangles.push(t);
}

/// Retire an edge into the mesh interior.
fn remove(e: usize, edges: &mut Vec<MeshEdge>)
    requires
        e < old(edges)@.len(),
    ensures
        final(edges)@ == old(edges)@.update(
            e as int,
            (MeshEdge {
                status: EdgeStatus::Inner,
                ..old(edges)@[e as int]
            }),
        ),
{
    edges[e].status = EdgeStatus::Inner;
    proof {
        assert(final(edges)@ =~= old(edges)@.update(
            e as int,
            MeshEdge { status: EdgeStatus::Inner, ..old(edges)@[e as int] },
        ));
    }
}

/// The first of the two edges `join` creates across `edges[eij]` toward the
/// new vertex `k`: it runs from the old edge's start to `k`.
pub open spec fn join_new_ik(edges: Seq<MeshEdge>, eij: int, k: usize, c: Vec3Fix) -> MeshEdge {
    let e = edges[eij];
    MeshEdge {
        a: e.a,
        b: k,
        opposite: e.b,
        center: c,
        prev: e.prev,
        next: Some((edges.len() + 1) as usize),
        status: EdgeStatus::Active,
    }
}

/// The second new edge: from `k` to the old edge's end.
pub open spec fn join_new_kj(edges: Seq<MeshEdge>, eij: int, k: usize, c: Vec3Fix) -> MeshEdge {
    let e = edges[eij];
    MeshEdge {
        a: k,
        b: e.b,
        opposite: e.a,
        center: c,
        prev: Some(edges.len() as usize),
        next: e.next,
        status: EdgeStatus::Active,
    }
}

/// The edge arena after `join`: the neighbors of `edges[eij]` are relinked to
/// the two new edges, `edges[eij]` is retired, and the new edges are appended.
pub open spec fn join_edges_spec(edges: Seq<MeshEdge>, eij: int, k: usize, c: Vec3Fix) -> Seq<
    MeshEdge,
> {
    let e = edges[eij];
    let p = e.prev->0 as int;
    let n = e.next->0 as int;
    let ik = edges.len() as usize;
    let kj = (edges.len() + 1) as usize;
    let s1 = edges.update(p, MeshEdge { next: Some(ik), ..edges[p] });
    let s2 = s1.update(n, MeshEdge { prev: Some(kj), ..s1[n] });
    let s3 = s2.update(eij, MeshEdge { status: EdgeStatus::Inner, ..s2[eij] });
    s3.push(join_new_ik(edges, eij, k, c)).push(join_new_kj(edges, eij, k, c))
}

/// Incorporate vertex `o_k` into the mesh across the `Active` edge `e_ij`:
/// create the two edges `(a, k)` and `(k, b)` carrying the new ball center,
/// splice them into the front loop in place of `e_ij`, register them on the
/// endpoint vertices, mark `o_k` used, push both onto the front stack, and
/// retire `e_ij`. The front invariant is preserved.
#[verifier::rlimit(100)]
pub fn join(
    e_ij: usize,
    o_k: usize,
    center: Vec3Fix,
    points: &mut Vec<MeshPoint>,
    edges: &mut Vec<MeshEdge>,
    front: &mut Vec<usize>,
) -> (r: (usize, usize))
    requires
        mesh_wf(old(points)@, old(edges)@),
        e_ij < old(edges)@.len(),
        old(edges)@[e_ij as int].status == EdgeStatus::Active,
        o_k < old(points)@.len(),
        o_k != old(edges)@[e_ij as int].a,
        o_k != old(edges)@[e_ij as int].b,
        center.in_bound(VEC_MAX as int),
        old(edges)@.len() + 2 < usize::MAX,
    ensures
        r.0 == old(edges)@.len() && r.1 == old(edges)@.len() + 1,
        final(edges)@ == join_edges_spec(old(edges)@, e_ij as int, o_k, center),
        final(edges)@.len() == old(edges)@.len() + 2,
        forall|j: int|
            0 <= j < old(edges)@.len() ==> {
                &&& (#[trigger] final(edges)@[j]).a == old(edges)@[j].a
                &&& final(edges)@[j].b == old(edges)@[j].b
                &&& final(edges)@[j].opposite == old(edges)@[j].opposite
                &&& final(edges)@[j].center == old(edges)@[j].center
                &&& (j != e_ij ==> final(edges)@[j].status == old(edges)@[j].status)
            },
        final(edges)@[e_ij as int].status == EdgeStatus::Inner,
        final(edges)@[r.0 as int] == join_new_ik(old(edges)@, e_ij as int, o_k, center),
        final(edges)@[r.1 as int] == join_new_kj(old(edges)@, e_ij as int, o_k, center),
        final(points)@.len() == old(points)@.len(),
        forall|i: int|
            0 <= i < old(points)@.len() ==> {
                &&& (#[trigger] final(points)@[i]).pos == old(points)@[i].pos
                &&& final(points)@[i].normal == old(points)@[i].normal
            },
        forall|i: int|
            0 <= i < old(points)@.len() && i != o_k ==> (#[trigger] final(points)@[i]).used == old(
                points,
            )@[i].used,
        final(points)@[o_k as int].used,
        final(points)@[old(edges)@[e_ij as int].a as int].edges@ == old(points)@[old(
            edges,
        )@[e_ij as int].a as int].edges@.push(r.0),
        final(points)@[old(edges)@[e_ij as int].b as int].edges@ == old(points)@[old(
            edges,
        )@[e_ij as int].b as int].edges@.push(r.1),
        final(points)@[o_k as int].edges@ == old(points)@[o_k as int].edges@.push(r.0).push(r.1),
        forall|i: int|
            0 <= i < old(points)@.len() && i != o_k && i != old(edges)@[e_ij as int].a && i != old(
                edges,
            )@[e_ij as int].b ==> (#[trigger] final(points)@[i]).edges@ == old(points)@[i].edges@,
        final(front)@ == old(front)@.push(r.0).push(r.1),
        mesh_wf(final(points)@, final(edges)@),
{
    proof {
        assert(edge_ok(old(edges)@, e_ij as int));
    }
    let ik = edges.len();
    let kj = ik + 1;
    let ea = edges[e_ij].a;
    let eb = edges[e_ij].b;
    let prev = edges[e_ij].prev;
    let next = edges[e_ij].next;
    let p = prev.unwrap();
    let n = next.unwrap();
    proof {
        // The neighbors are distinct from the spliced edge itself: a link back
        // to `e_ij` would make its two endpoints equal.
        assert(edge_ok(old(edges)@, p as int));
        assert(edge_ok(old(edges)@, n as int));
        assert(p != e_ij);
        assert(n != e_ij);
    }
    let mut e_ik = MeshEdge::new(ea, o_k, eb, center);
    e_ik.prev = Some(p);
    e_ik.next = Some(kj);
    let mut e_kj = MeshEdge::new(o_k, eb, ea, center);
    e_kj.prev = Some(ik);
    e_kj.next = Some(n);
    edges.push(e_ik);
    edges.push(e_kj);
    edges[p].next = Some(ik);
    edges[n].prev = Some(kj);
    edges[e_ij].status = EdgeStatus::Inner;
    points[ea].edges.push(ik);
    points[eb].edges.push(kj);
    points[o_k].used = true;
    points[o_k].edges.push(ik);
    points[o_k].edges.push(kj);
    front.push(ik);
    front.push(kj);
    proof {
        let oe = old(edges)@;
        let ne = edges@;
        let op = old(points)@;
        let np = points@;
        let eij = e_ij as int;
        assert(ne =~= join_edges_spec(oe, eij, o_k, center));
        // Geometric bounds carry over unchanged.
        assert(points_geom_wf(np));
        assert(edges_vals_wf(np, ne));
        // Registration: old entries keep their witnesses, the new edges were
        // pushed onto both endpoint lists.
        assert forall|j: int| 0 <= j < ne.len() implies #[trigger] list_has(
            np[ne[j].a as int].edges@,
            j,
        ) && list_has(np[ne[j].b as int].edges@, j) by {
            if j < oe.len() {
                let la = op[oe[j].a as int].edges@;
                let lb = op[oe[j].b as int].edges@;
                assert(list_has(la, j));
                assert(list_has(lb, j));
                let ka = choose|ka: int| 0 <= ka < la.len() && la[ka] as int == j;
                let kb = choose|kb: int| 0 <= kb < lb.len() && lb[kb] as int == j;
                assert(np[ne[j].a as int].edges@[ka] as int == j);
                assert(np[ne[j].b as int].edges@[kb] as int == j);
            } else if j == ik as int {
                let la = np[ea as int].edges@;
                assert(la[la.len() - 1] as int == j);
                let lk = np[o_k as int].edges@;
                assert(lk[lk.len() - 2] as int == j);
            } else {
                let lb = np[eb as int].edges@;
                assert(lb[lb.len() - 1] as int == j);
                let lk = np[o_k as int].edges@;
                assert(lk[lk.len() - 1] as int == j);
            }
        }
        assert(edges_registered(np, ne));
        // Soundness of the lists: every old entry still names an incident
        // edge; each of the four new entries does by construction.
        assert forall|i: int, k: int|
            0 <= i < np.len() && 0 <= k < np[i].edges@.len() implies {
            let g = (#[trigger] np[i].edges@[k]) as int;
            &&& g < ne.len()
            &&& (ne[g].a as int == i || ne[g].b as int == i)
        } by {
            if k < op[i].edges@.len() {
                assert(op[i].edges@[k] == np[i].edges@[k]);
            }
        }
        assert(lists_sound(np, ne));
        // The front invariant itself.
        assert forall|j: int| 0 <= j < ne.len() implies #[trigger] edge_ok(ne, j) by {
            if j < oe.len() {
                assert(edge_ok(oe, j));
                if oe[j].status != EdgeStatus::Inner {
                    assert(edge_ok(oe, oe[j].next->0 as int));
                    assert(edge_ok(oe, oe[j].prev->0 as int));
                }
            }
        }
        assert(front_wf(ne));
    }
    (ik, kj)
}

/// An edge retired into the interior, links untouched.
pub open spec fn set_inner(edges: Seq<MeshEdge>, j: int) -> Seq<MeshEdge> {
    edges.update(j, MeshEdge { status: EdgeStatus::Inner, ..edges[j] })
}

/// The edge arena after `glue` merges the reverse pair `(a, b)`. Four cases:
/// an isolated two-edge loop is simply retired; a pair adjacent as `a -> b`
/// or as `b -> a` is spliced out by connecting its outer neighbors; a
/// non-adjacent fold reconnects all four neighbors directly.
pub open spec fn glue_edges_spec(edges: Seq<MeshEdge>, a: int, b: int) -> Seq<MeshEdge> {
    let ea = edges[a];
    let eb = edges[b];
    let an = ea.next->0 as int;
    let ap = ea.prev->0 as int;
    let bn = eb.next->0 as int;
    let bp = eb.prev->0 as int;
    if an == b && ap == b && bn == a && bp == a {
        set_inner(set_inner(edges, a), b)
    } else if an == b && bp == a {
        let s1 = edges.update(ap, MeshEdge { next: eb.next, ..edges[ap] });
        let s2 = s1.update(bn, MeshEdge { prev: ea.prev, ..s1[bn] });
        set_inner(set_inner(s2, a), b)
    } else if ap == b && bn == a {
        let s1 = edges.update(bp, MeshEdge { next: ea.next, ..edges[bp] });
        let s2 = s1.update(an, MeshEdge { prev: eb.prev, ..s1[an] });
        set_inner(set_inner(s2, a), b)
    } else {
        let s1 = edges.update(ap, MeshEdge { next: eb.next, ..edges[ap] });
        let s2 = s1.update(bn, MeshEdge { prev: ea.prev, ..s1[bn] });
        let s3 = s2.update(an, MeshEdge { prev: eb.prev, ..s2[an] });
        let s4 = s3.update(bp, MeshEdge { next: ea.next, ..s3[bp] });
        set_inner(set_inner(s4, a), b)
    }
}

/// Merge the oppositely-directed duplicate edges `a` and `b`: both leave the
/// front topology (status `Inner`) and their neighbors are reconnected so
/// that the remaining non-`Inner` edges still form consistent loops.
#[verifier::rlimit(100)]
pub fn glue(a: usize, b: usize, edges: &mut Vec<MeshEdge>)
    requires
        a < old(edges)@.len(),
        b < old(edges)@.len(),
        a != b,
        front_wf(old(edges)@),
        old(edges)@[a as int].status != EdgeStatus::Inner,
        old(edges)@[b as int].status != EdgeStatus::Inner,
        old(edges)@[a as int].a == old(edges)@[b as int].b,
        old(edges)@[a as int].b == old(edges)@[b as int].a,
    ensures
        final(edges)@ == glue_edges_spec(old(edges)@, a as int, b as int),
        final(edges)@.len() == old(edges)@.len(),
        forall|j: int|
            0 <= j < old(edges)@.len() ==> {
                &&& (#[trigger] final(edges)@[j]).a == old(edges)@[j].a
                &&& final(edges)@[j].b == old(edges)@[j].b
                &&& final(edges)@[j].opposite == old(edges)@[j].opposite
                &&& final(edges)@[j].center == old(edges)@[j].center
                &&& (j != a && j != b ==> final(edges)@[j].status == old(edges)@[j].status)
            },
        final(edges)@[a as int].status == EdgeStatus::Inner,
        final(edges)@[b as int].status == EdgeStatus::Inner,
        front_wf(final(edges)@),
{
    proof {
        assert(edge_ok(old(edges)@, a as int));
        assert(edge_ok(old(edges)@, b as int));
    }
    let an = edges[a].next.unwrap();
    let ap = edges[a].prev.unwrap();
    let bn = edges[b].next.unwrap();
    let bp = edges[b].prev.unwrap();
    proof {
        assert(edge_ok(old(edges)@, an as int));
        assert(edge_ok(old(edges)@, ap as int));
        assert(edge_ok(old(edges)@, bn as int));
        assert(edge_ok(old(edges)@, bp as int));
        // Adjacency of the pair in one direction is equivalent to the
        // back-link in the other, so each case's checks are consistent.
        assert(an == b ==> bp == a);
        assert(bp == a ==> an == b);
        assert(ap == b ==> bn == a);
        assert(bn == a ==> ap == b);
        // No neighbor slot can be the edge itself.
        assert(ap != a && an != a && bp != b && bn != b);
    }
    if an == b && ap == b && bn == a && bp == a {
        remove(a, edges);
        remove(b, edges);
    } else if an == b && bp == a {
        edges[ap].next = Some(bn);
        edges[bn].prev = Some(ap);
        remove(a, edges);
        remove(b, edges);
    } else if ap == b && bn == a {
        edges[bp].next = Some(an);
        edges[an].prev = Some(bp);
        remove(a, edges);
        remove(b, edges);
    } else {
        edges[ap].next = Some(bn);
        edges[bn].prev = Some(ap);
        edges[an].prev = Some(bp);
        edges[bp].next = Some(an);
        remove(a, edges);
        remove(b, edges);
    }
    proof {
        let oe = old(edges)@;
        let ne = edges@;
        assert(ne =~= glue_edges_spec(oe, a as int, b as int));
        lemma_glue_wf(oe, a as int, b as int);
    }
}

/// Re-labeling a non-`Inner` edge with another non-`Inner` status (an edge
/// whose pivot failed becomes `Boundary`) leaves the front invariant intact:
/// the links and everything said about them are unchanged.
pub proof fn lemma_relabel_wf(oe: Seq<MeshEdge>, e: int, st: EdgeStatus)
    requires
        0 <= e < oe.len(),
        front_wf(oe),
        oe[e].status != EdgeStatus::Inner,
        st != EdgeStatus::Inner,
    ensures
        front_wf(oe.update(e, MeshEdge { status: st, ..oe[e] })),
{
    let ne = oe.update(e, MeshEdge { status: st, ..oe[e] });
    assert forall|j: int| 0 <= j < ne.len() implies #[trigger] edge_ok(ne, j) by {
        assert(edge_ok(oe, j));
        if oe[j].status != EdgeStatus::Inner {
            assert(edge_ok(oe, oe[j].next->0 as int));
            assert(edge_ok(oe, oe[j].prev->0 as int));
        }
    }
}

/// The preconditions `glue` works under, shared by its case lemmas.
pub open spec fn glue_pre(oe: Seq<MeshEdge>, a: int, b: int) -> bool {
    &&& 0 <= a < oe.len()
    &&& 0 <= b < oe.len()
    &&& a != b
    &&& front_wf(oe)
    &&& oe[a].status != EdgeStatus::Inner
    &&& oe[b].status != EdgeStatus::Inner
    &&& oe[a].a == oe[b].b
    &&& oe[a].b == oe[b].a
}

/// The four splices of `glue` each leave the front invariant intact.
proof fn lemma_glue_wf(oe: Seq<MeshEdge>, a: int, b: int)
    requires
        glue_pre(oe, a, b),
    ensures
        front_wf(glue_edges_spec(oe, a, b)),
{
    assert(edge_ok(oe, a));
    assert(edge_ok(oe, b));
    let an = oe[a].next->0 as int;
    let ap = oe[a].prev->0 as int;
    let bn = oe[b].next->0 as int;
    let bp = oe[b].prev->0 as int;
    if an == b && ap == b && bn == a && bp == a {
        lemma_glue_wf_loop(oe, a, b);
    } else if an == b && bp == a {
        lemma_glue_wf_ab(oe, a, b);
    } else if ap == b && bn == a {
        lemma_glue_wf_ba(oe, a, b);
    } else {
        lemma_glue_wf_fold(oe, a, b);
    }
}

/// Case: the pair forms an isolated two-edge loop.
#[verifier::spinoff_prover]
#[verifier::rlimit(100)]
proof fn lemma_glue_wf_loop(oe: Seq<MeshEdge>, a: int, b: int)
    requires
        glue_pre(oe, a, b),
        oe[a].next->0 as int == b && oe[a].prev->0 as int == b && oe[b].next->0 as int == a
            && oe[b].prev->0 as int == a,
    ensures
        front_wf(glue_edges_spec(oe, a, b)),
{
    let ne = glue_edges_spec(oe, a, b);
    assert(edge_ok(oe, a));
    assert(edge_ok(oe, b));
    assert forall|j: int| 0 <= j < ne.len() implies #[trigger] edge_ok(ne, j) by {
        assert(edge_ok(oe, j));
        if oe[j].status != EdgeStatus::Inner {
            assert(edge_ok(oe, oe[j].next->0 as int));
            assert(edge_ok(oe, oe[j].prev->0 as int));
        }
    }
}

/// Case: the pair is adjacent as `a -> b`.
#[verifier::spinoff_prover]
#[verifier::rlimit(100)]
proof fn lemma_glue_wf_ab(oe: Seq<MeshEdge>, a: int, b: int)
    requires
        glue_pre(oe, a, b),
        oe[a].next->0 as int == b && oe[b].prev->0 as int == a,
        !(oe[a].prev->0 as int == b && oe[b].next->0 as int == a),
    ensures
        front_wf(glue_edges_spec(oe, a, b)),
{
    let ne = glue_edges_spec(oe, a, b);
    assert(edge_ok(oe, a));
    assert(edge_ok(oe, b));
    let ap = oe[a].prev->0 as int;
    let bn = oe[b].next->0 as int;
    assert(edge_ok(oe, ap));
    assert(edge_ok(oe, bn));
    assert(ap != b && bn != a && ap != a && bn != b && ap != bn);
    assert forall|j: int| 0 <= j < ne.len() implies #[trigger] edge_ok(ne, j) by {
        assert(edge_ok(oe, j));
        if oe[j].status != EdgeStatus::Inner {
            assert(edge_ok(oe, oe[j].next->0 as int));
            assert(edge_ok(oe, oe[j].prev->0 as int));
        }
    }
}

/// Case: the pair is adjacent as `b -> a`.
#[verifier::spinoff_prover]
#[verifier::rlimit(100)]
proof fn lemma_glue_wf_ba(oe: Seq<MeshEdge>, a: int, b: int)
    requires
        glue_pre(oe, a, b),
        oe[a].prev->0 as int == b && oe[b].next->0 as int == a,
        !(oe[a].next->0 as int == b && oe[b].prev->0 as int == a),
    ensures
        front_wf(glue_edges_spec(oe, a, b)),
{
    let ne = glue_edges_spec(oe, a, b);
    assert(edge_ok(oe, a));
    assert(edge_ok(oe, b));
    let an = oe[a].next->0 as int;
    let bp = oe[b].prev->0 as int;
    assert(edge_ok(oe, an));
    assert(edge_ok(oe, bp));
    assert(an != b && bp != a && an != a && bp != b && bp != an);
    assert forall|j: int| 0 <= j < ne.len() implies #[trigger] edge_ok(ne, j) by {
        assert(edge_ok(oe, j));
        if oe[j].status != EdgeStatus::Inner {
            assert(edge_ok(oe, oe[j].next->0 as int));
            assert(edge_ok(oe, oe[j].prev->0 as int));
        }
    }
}

/// Case: a non-adjacent fold; all four neighbors are reconnected.
#[verifier::spinoff_prover]
#[verifier::rlimit(100)]
proof fn lemma_glue_wf_fold(oe: Seq<MeshEdge>, a: int, b: int)
    requires
        glue_pre(oe, a, b),
        !(oe[a].next->0 as int == b && oe[b].prev->0 as int == a),
        !(oe[a].prev->0 as int == b && oe[b].next->0 as int == a),
    ensures
        front_wf(glue_edges_spec(oe, a, b)),
{
    let ne = glue_edges_spec(oe, a, b);
    assert(edge_ok(oe, a));
    assert(edge_ok(oe, b));
    let an = oe[a].next->0 as int;
    let ap = oe[a].prev->0 as int;
    let bn = oe[b].next->0 as int;
    let bp = oe[b].prev->0 as int;
    assert(edge_ok(oe, an));
    assert(edge_ok(oe, ap));
    assert(edge_ok(oe, bn));
    assert(edge_ok(oe, bp));
    assert(an != b && ap != b && bn != a && bp != a);
    assert(an != a && ap != a && bn != b && bp != b);
    assert(ap != bp && an != bn && ap != bn && an != bp);
    assert forall|j: int| 0 <= j < ne.len() implies #[trigger] edge_ok(ne, j) by {
        assert(edge_ok(oe, j));
        if oe[j].status != EdgeStatus::Inner {
            assert(edge_ok(oe, oe[j].next->0 as int));
            assert(edge_ok(oe, oe[j].prev->0 as int));
        }
    }
}

/// First edge on `edge.a`'s incidence list that starts at `edge.b` — the
/// oppositely-directed duplicate of `edge` if the front has folded onto
/// itself, scanned in registration order.
pub open spec fn first_reverse_spec(
    list: Seq<usize>,
    edges: Seq<MeshEdge>,
    target: usize,
    i: int,
) -> Option<usize>
    decreases list.len() - i,
{
    if i < 0 || i >= list.len() {
        None::<usize>
    } else if edges[list[i] as int].a == target {
        Some(list[i])
    } else {
        first_reverse_spec(list, edges, target, i + 1)
    }
}

pub open spec fn find_reverse_spec(
    points: Seq<MeshPoint>,
    edges: Seq<MeshEdge>,
    e: int,
) -> Option<usize> {
    first_reverse_spec(points[edges[e].a as int].edges@, edges, edges[e].b, 0)
}

/// Search `edge.a`'s incident edges for the reverse twin of `edge`.
pub fn find_reverse_edge_on_front(e: usize, points: &Vec<MeshPoint>, edges: &Vec<MeshEdge>) -> (r:
    Option<usize>)
    requires
        e < edges@.len(),
        edges@[e as int].a != edges@[e as int].b,
        edges_vals_wf(points@, edges@),
        lists_sound(points@, edges@),
    ensures
        r == find_reverse_spec(points@, edges@, e as int),
        r is Some ==> r->0 < edges@.len() && edges@[r->0 as int].a == edges@[e as int].b
            && edges@[r->0 as int].b == edges@[e as int].a && r->0 != e,
{
    let ea = edges[e].a;
    let eb = edges[e].b;
    let list = &points[ea].edges;
    let n = list.len();
    let mut i: usize = 0;
    while i < n
        invariant
            n == list@.len(),
            0 <= i <= n,
            list@ == points@[ea as int].edges@,
            (ea as int) < points@.len(),
            e < edges@.len(),
            ea == edges@[e as int].a,
            eb == edges@[e as int].b,
            ea != eb,
            edges_vals_wf(points@, edges@),
            lists_sound(points@, edges@),
            first_reverse_spec(list@, edges@, eb, 0) == first_reverse_spec(
                list@,
                edges@,
                eb,
                i as int,
            ),
        decreases n - i,
    {
        let g = list[i];
        if edges[g].a == eb {
            proof {
                assert(edges@[g as int].a as int == ea as int || edges@[g as int].b as int
                    == ea as int);
            }
            return Some(g);
        }
        i += 1;
    }
    None
}

} // verus!
