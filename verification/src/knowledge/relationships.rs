//! Relationships between concepts: prerequisite and related lists must name
//! existing concepts, each once and never the owner itself; a related pair is
//! authored on one side only; prerequisites form no cycle.
use vstd::prelude::*;

use crate::graph::{count_white, lemma_count_white_update, lemma_count_white_zeros};
use crate::text::{first_where, lemma_first_where, lemma_first_where_none};

use super::error::KnowledgeError;
use super::identifier::ConceptId;
use super::types::Concept;

verus! {

pub open spec fn id_views(v: Seq<ConceptId>) -> Seq<Seq<char>> {
    v.map_values(|x: ConceptId| x@)
}

pub open spec fn prereqs(c: Concept) -> Seq<Seq<char>> {
    id_views(c.prerequisite_ids@)
}

pub open spec fn related(c: Concept) -> Seq<Seq<char>> {
    id_views(c.related_ids@)
}

pub open spec fn concept_ids(cs: Seq<Concept>) -> Seq<Seq<char>> {
    cs.map_values(|c: Concept| c.id@)
}

/// The concept that stands for `id`: the last one with that id.
#[verifier::opaque]
pub open spec fn owner(cs: Seq<Concept>, id: Seq<char>) -> Option<int> {
    if exists|i: int| 0 <= i < cs.len() && #[trigger] cs[i].id@ == id {
        Some(
            choose|i: int|
                0 <= i < cs.len() && #[trigger] cs[i].id@ == id && forall|j: int|
                    i < j < cs.len() ==> #[trigger] cs[j].id@ != id,
        )
    } else {
        None
    }
}

pub proof fn lemma_owner(cs: Seq<Concept>, id: Seq<char>, i: int)
    requires
        0 <= i < cs.len(),
        cs[i].id@ == id,
        forall|j: int| i < j < cs.len() ==> #[trigger] cs[j].id@ != id,
    ensures
        owner(cs, id) == Some(i),
{
    reveal(owner);
    let c = choose|c: int|
        0 <= c < cs.len() && #[trigger] cs[c].id@ == id && forall|j: int| c < j < cs.len() ==> #[trigger] cs[j].id@ != id;
    if c < i {
        assert(cs[i].id@ != id);
    }
    if i < c {
        assert(cs[c].id@ != id);
    }
}

proof fn lemma_last_exists(cs: Seq<Concept>, id: Seq<char>, i: int)
    requires
        0 <= i < cs.len(),
        cs[i].id@ == id,
    ensures
        exists|l: int|
            0 <= l < cs.len() && #[trigger] cs[l].id@ == id && forall|j: int| l < j < cs.len() ==> #[trigger] cs[j].id@ != id,
    decreases cs.len() - i,
{
    if exists|j: int| i < j < cs.len() && #[trigger] cs[j].id@ == id {
        let j = choose|j: int| i < j < cs.len() && #[trigger] cs[j].id@ == id;
        lemma_last_exists(cs, id, j);
    } else {
        assert(forall|j: int| i < j < cs.len() ==> #[trigger] cs[j].id@ != id);
    }
}

/// The owner of an id is a concept with that id, and it owns its own id.
pub proof fn lemma_owner_some(cs: Seq<Concept>, id: Seq<char>)
    requires
        owner(cs, id) is Some,
    ensures
        0 <= owner(cs, id)->0 < cs.len(),
        cs[owner(cs, id)->0].id@ == id,
        owner(cs, cs[owner(cs, id)->0].id@) == owner(cs, id),
{
    reveal(owner);
    let i = choose|i: int| 0 <= i < cs.len() && #[trigger] cs[i].id@ == id;
    lemma_last_exists(cs, id, i);
}

/// An id some concept has has an owner.
pub proof fn lemma_owner_exists(cs: Seq<Concept>, i: int)
    requires
        0 <= i < cs.len(),
    ensures
        owner(cs, cs[i].id@) is Some,
{
    reveal(owner);
}

/// An id no concept has has no owner.
pub proof fn lemma_owner_none(cs: Seq<Concept>, id: Seq<char>)
    requires
        forall|l: int| 0 <= l < cs.len() ==> #[trigger] cs[l].id@ != id,
    ensures
        owner(cs, id) is None,
{
    reveal(owner);
}

/// Why one reference list is rejected.
pub enum RefFailure {
    SelfReference,
    Duplicate(Seq<char>),
    Unresolved(Seq<char>),
}

pub open spec fn dup_before(targets: Seq<Seq<char>>, k: int) -> bool {
    exists|j: int| 0 <= j < k && targets[j] == targets[k]
}

pub open spec fn ref_bad(owner_id: Seq<char>, targets: Seq<Seq<char>>, ids: Seq<Seq<char>>, k: int) -> bool {
    targets[k] == owner_id || dup_before(targets, k) || !ids.contains(targets[k])
}

/// The first bad entry of a reference list decides: naming the owner, naming
/// a concept a second time, naming no concept.
pub open spec fn ref_list_failure(owner_id: Seq<char>, targets: Seq<Seq<char>>, ids: Seq<Seq<char>>) -> Option<RefFailure> {
    match first_where(targets.len() as int, |k: int| ref_bad(owner_id, targets, ids, k)) {
        None => None,
        Some(k) => Some(
            if targets[k] == owner_id {
                RefFailure::SelfReference
            } else if dup_before(targets, k) {
                RefFailure::Duplicate(targets[k])
            } else {
                RefFailure::Unresolved(targets[k])
            },
        ),
    }
}

/// `e` reports failure `f` of list `field` of concept `owner_id`.
pub open spec fn ref_error_is(e: KnowledgeError, owner_id: Seq<char>, field: Seq<char>, f: RefFailure) -> bool {
    match f {
        RefFailure::SelfReference => e matches KnowledgeError::SelfReference { entity_id, field: fl }
            && entity_id@ == owner_id && fl@ == field,
        RefFailure::Duplicate(t) => e matches KnowledgeError::DuplicateReferenceInList { entity_id, field: fl, target }
            && entity_id@ == owner_id && fl@ == field && target@ == t,
        RefFailure::Unresolved(t) => e matches KnowledgeError::UnresolvedConcept { entity_id, field: fl, target }
            && entity_id@ == owner_id && fl@ == field && target@ == t,
    }
}

fn contains_id(v: &Vec<ConceptId>, id: &ConceptId, end: usize) -> (r: bool)
    requires
        end <= v.len(),
    ensures
        r == exists|j: int| 0 <= j < end && #[trigger] v@[j]@ == id@,
{
    let mut j: usize = 0;
    while j < end
        invariant
            j <= end <= v.len(),
            forall|l: int| 0 <= l < j ==> #[trigger] v@[l]@ != id@,
        decreases end - j,
    {
        if v[j].same(id) {
            return true;
        }
        j += 1;
    }
    false
}

fn concept_has_id(cs: &Vec<Concept>, id: &ConceptId) -> (r: bool)
    ensures
        r == concept_ids(cs@).contains(id@),
{
    let mut j: usize = 0;
    while j < cs.len()
        invariant
            j <= cs.len(),
            forall|l: int| 0 <= l < j ==> #[trigger] cs@[l].id@ != id@,
        decreases cs.len() - j,
    {
        if cs[j].id.same(id) {
            assert(concept_ids(cs@)[j as int] == id@);
            return true;
        }
        j += 1;
    }
    proof {
        if concept_ids(cs@).contains(id@) {
            let k = choose|k: int| 0 <= k < concept_ids(cs@).len() && concept_ids(cs@)[k] == id@;
            assert(cs@[k].id@ == id@);
        }
    }
    false
}

/// Checks one reference list of concept `owner_id`.
pub fn validate_reference_list(
    owner_id: &ConceptId,
    field: &'static str,
    targets: &Vec<ConceptId>,
    concepts: &Vec<Concept>,
) -> (r: Result<(), KnowledgeError>)
    ensures
        match ref_list_failure(owner_id@, id_views(targets@), concept_ids(concepts@)) {
            None => r is Ok,
            Some(f) => r matches Err(e) && ref_error_is(e, owner_id@, field@, f),
        },
{
    let ghost tv = id_views(targets@);
    let ghost ids = concept_ids(concepts@);
    let ghost p = |k: int| ref_bad(owner_id@, tv, ids, k);
    let mut k: usize = 0;
    while k < targets.len()
        invariant
            tv == id_views(targets@),
            ids == concept_ids(concepts@),
            p == (|k: int| ref_bad(owner_id@, tv, ids, k)),
            k <= targets.len(),
            forall|j: int| 0 <= j < k ==> !#[trigger] p(j),
        decreases targets.len() - k,
    {
        let target = &targets[k];
        assert(tv[k as int] == target@);
        let self_ref = target.same(owner_id);
        let dup = contains_id(targets, target, k);
        let known = concept_has_id(concepts, target);
        proof {
            assert(dup == dup_before(tv, k as int)) by {
                if dup {
                    let j = choose|j: int| 0 <= j < k && #[trigger] targets@[j]@ == target@;
                    assert(tv[j] == tv[k as int]);
                }
                if dup_before(tv, k as int) {
                    let j = choose|j: int| 0 <= j < k && tv[j] == tv[k as int];
                    assert(targets@[j]@ == target@);
                }
            }
        }
        if self_ref || dup || !known {
            proof {
                assert(p(k as int));
                lemma_first_where(tv.len() as int, p, k as int);
            }
            if self_ref {
                return Err(KnowledgeError::SelfReference { entity_id: owner_id.as_str().to_owned(), field });
            }
            if dup {
                return Err(
                    KnowledgeError::DuplicateReferenceInList {
                        entity_id: owner_id.as_str().to_owned(),
                        field,
                        target: target.as_str().to_owned(),
                    },
                );
            }
            return Err(
                KnowledgeError::UnresolvedConcept {
                    entity_id: owner_id.as_str().to_owned(),
                    field,
                    target: target.as_str().to_owned(),
                },
            );
        }
        k += 1;
    }
    proof {
        lemma_first_where_none(tv.len() as int, p);
    }
    Ok(())
}

/// The index of the concept that stands for `id`.
fn owner_index(cs: &Vec<Concept>, id: &ConceptId) -> (r: Option<usize>)
    ensures
        match r {
            Some(i) => owner(cs@, id@) == Some(i as int),
            None => owner(cs@, id@) is None,
        },
{
    let mut j: usize = cs.len();
    while j > 0
        invariant
            j <= cs.len(),
            forall|l: int| j <= l < cs.len() ==> #[trigger] cs@[l].id@ != id@,
        decreases j,
    {
        j -= 1;
        if cs[j].id.same(id) {
            proof {
                lemma_owner(cs@, id@, j as int);
            }
            return Some(j);
        }
    }
    proof {
        lemma_owner_none(cs@, id@);
    }
    None
}

/// The `k`-th related concept of concept `i` lists concept `i` back.
pub open spec fn reverse_bad(cs: Seq<Concept>, i: int, k: int) -> bool {
    owner(cs, related(cs[i])[k]) matches Some(j) && related(cs[j]).contains(cs[i].id@)
}

pub open spec fn first_reverse(cs: Seq<Concept>, i: int) -> Option<int> {
    first_where(related(cs[i]).len() as int, |k: int| reverse_bad(cs, i, k))
}

/// The first related pair, in concept order then list order, authored on
/// both sides: (the concept, the related id).
pub open spec fn symmetry_failure(cs: Seq<Concept>) -> Option<(Seq<char>, Seq<char>)> {
    match first_where(cs.len() as int, |i: int| first_reverse(cs, i) is Some) {
        None => None,
        Some(i) => Some((cs[i].id@, related(cs[i])[first_reverse(cs, i)->0])),
    }
}

/// Whether concept `c` lists `id` as related.
fn lists_related(c: &Concept, id: &ConceptId) -> (r: bool)
    ensures
        r == related(*c).contains(id@),
{
    let ghost back = related(*c);
    let mut m: usize = 0;
    while m < c.related_ids.len()
        invariant
            back == related(*c),
            m <= back.len(),
            forall|l: int| 0 <= l < m ==> back[l] != id@,
        decreases c.related_ids.len() - m,
    {
        assert(back[m as int] == c.related_ids@[m as int]@);
        if c.related_ids[m].same(id) {
            assert(back[m as int] == id@);
            return true;
        }
        m += 1;
    }
    false
}

/// Whether the `k`-th related concept of concept `i` lists concept `i` back.
fn reverse_at(concepts: &Vec<Concept>, i: usize, k: usize) -> (r: bool)
    requires
        i < concepts.len(),
        k < concepts@[i as int].related_ids.len(),
    ensures
        r == reverse_bad(concepts@, i as int, k as int),
{
    let target = &concepts[i].related_ids[k];
    assert(related(concepts@[i as int])[k as int] == target@);
    match owner_index(concepts, target) {
        Some(j) => {
            proof {
                lemma_owner_some(concepts@, target@);
            }
            lists_related(&concepts[j], &concepts[i].id)
        },
        None => false,
    }
}

/// Rejects a related pair that both concepts list.
pub fn validate_related_symmetry(concepts: &Vec<Concept>) -> (r: Result<(), KnowledgeError>)
    ensures
        match symmetry_failure(concepts@) {
            None => r is Ok,
            Some((a, b)) => r matches Err(KnowledgeError::ReverseDuplicateRelated { first, second })
                && first@ == a && second@ == b,
        },
{
    let ghost cs = concepts@;
    let ghost pi = |i: int| first_reverse(cs, i) is Some;
    let mut i: usize = 0;
    while i < concepts.len()
        invariant
            cs == concepts@,
            pi == (|i: int| first_reverse(cs, i) is Some),
            i <= concepts.len(),
            forall|l: int| 0 <= l < i ==> !#[trigger] pi(l),
        decreases concepts.len() - i,
    {
        let ghost rv = related(cs[i as int]);
        let ghost pk = |k: int| reverse_bad(cs, i as int, k);
        let mut k: usize = 0;
        while k < concepts[i].related_ids.len()
            invariant
                cs == concepts@,
                pi == (|i: int| first_reverse(cs, i) is Some),
                forall|l: int| 0 <= l < i ==> !#[trigger] pi(l),
                i < concepts.len(),
                rv == related(cs[i as int]),
                pk == (|k: int| reverse_bad(cs, i as int, k)),
                k <= rv.len(),
                forall|l: int| 0 <= l < k ==> !#[trigger] pk(l),
            decreases concepts@[i as int].related_ids.len() - k,
        {
            if reverse_at(concepts, i, k) {
                proof {
                    assert(pk(k as int));
                    lemma_first_where(rv.len() as int, pk, k as int);
                    assert(first_reverse(cs, i as int) == first_where(rv.len() as int, pk));
                    assert(pi(i as int));
                    lemma_first_where(cs.len() as int, pi, i as int);
                    assert(rv[k as int] == concepts@[i as int].related_ids@[k as int]@);
                }
                return Err(
                    KnowledgeError::ReverseDuplicateRelated {
                        first: concepts[i].id.as_str().to_owned(),
                        second: concepts[i].related_ids[k].as_str().to_owned(),
                    },
                );
            }
            k += 1;
        }
        proof {
            lemma_first_where_none(rv.len() as int, pk);
            assert(first_reverse(cs, i as int) == first_where(rv.len() as int, pk));
        }
        i += 1;
    }
    proof {
        lemma_first_where_none(cs.len() as int, pi);
    }
    Ok(())
}

/// The concept standing for `a` lists `b` as a prerequisite.
pub open spec fn prerequisite_edge(cs: Seq<Concept>, a: Seq<char>, b: Seq<char>) -> bool {
    owner(cs, a) matches Some(i) && prereqs(cs[i]).contains(b)
}

/// `w` is a closed walk along prerequisite edges: it names at least two
/// concepts, ends where it starts, and each concept lists the next.
pub open spec fn is_cycle(cs: Seq<Concept>, w: Seq<Seq<char>>) -> bool {
    &&& w.len() >= 2
    &&& w[0] == w[w.len() - 1]
    &&& forall|k: int| 0 <= k < w.len() - 1 ==> #[trigger] prerequisite_edge(cs, w[k], w[k + 1])
}

/// A cycle that passes each concept once: only its ends repeat.
pub open spec fn is_simple_cycle(cs: Seq<Concept>, w: Seq<Seq<char>>) -> bool {
    &&& is_cycle(cs, w)
    &&& forall|a: int, b: int| 0 <= a < b < w.len() - 1 ==> #[trigger] w[a] != #[trigger] w[b]
}

pub open spec fn has_cycle(cs: Seq<Concept>) -> bool {
    exists|w: Seq<Seq<char>>| is_cycle(cs, w)
}

pub open spec fn string_views(v: Seq<String>) -> Seq<Seq<char>> {
    v.map_values(|s: String| s@)
}

pub open spec fn canonical(cs: Seq<Concept>, i: int) -> bool {
    owner(cs, cs[i].id@) == Some(i)
}

/// Every prerequisite of the finished node `i` that names a concept is
/// finished, with a smaller finishing rank.
#[verifier::opaque]
pub open spec fn black_ok(cs: Seq<Concept>, colors: Seq<u8>, rank: Seq<usize>, i: int) -> bool {
    forall|k: int|
        0 <= k < prereqs(cs[i]).len() ==> match owner(cs, #[trigger] prereqs(cs[i])[k]) {
            Some(v) => colors[v] == 2 && rank[v] < rank[i],
            None => true,
        }
}

/// `black_ok` survives any step that keeps finished nodes finished with the
/// same ranks.
proof fn lemma_black_ok_frame(cs: Seq<Concept>, c: Seq<u8>, r: Seq<usize>, c2: Seq<u8>, r2: Seq<usize>, i: int)
    requires
        black_ok(cs, c, r, i),
        c.len() == cs.len(),
        c2.len() == cs.len(),
        r.len() == cs.len(),
        r2.len() == cs.len(),
        forall|v: int| 0 <= v < cs.len() && c[v] == 2 ==> #[trigger] c2[v] == 2 && r2[v] == r[v],
        r2[i] == r[i],
    ensures
        black_ok(cs, c2, r2, i),
{
    reveal(black_ok);
    assert forall|k: int| 0 <= k < prereqs(cs[i]).len() implies match owner(cs, #[trigger] prereqs(cs[i])[k]) {
        Some(v) => c2[v] == 2 && r2[v] < r2[i],
        None => true,
    } by {
        if let Some(v) = owner(cs, prereqs(cs[i])[k]) {
            lemma_owner_some(cs, prereqs(cs[i])[k]);
            assert(c[v] == 2);
        }
    }
}

pub open spec fn inv_colors(cs: Seq<Concept>, colors: Seq<u8>) -> bool {
    &&& cs.len() <= usize::MAX
    &&& colors.len() == cs.len()
    &&& forall|i: int| 0 <= i < cs.len() ==> #[trigger] colors[i] <= 2
    &&& forall|i: int| 0 <= i < cs.len() && #[trigger] colors[i] != 0 ==> canonical(cs, i)
}

pub open spec fn inv_black(cs: Seq<Concept>, colors: Seq<u8>, rank: Seq<usize>, counter: usize) -> bool {
    &&& rank.len() == cs.len()
    &&& forall|i: int| 0 <= i < cs.len() && #[trigger] colors[i] == 2 ==> rank[i] < counter && black_ok(cs, colors, rank, i)
}

pub open spec fn inv_path(cs: Seq<Concept>, colors: Seq<u8>, path: Seq<usize>) -> bool {
    &&& path.no_duplicates()
    &&& forall|k: int| 0 <= k < path.len() ==> #[trigger] path[k] < cs.len() && colors[path[k] as int] == 1
    &&& forall|i: int| 0 <= i < cs.len() && #[trigger] colors[i] == 1 ==> path.contains(i as usize)
}

pub open spec fn inv_edges(cs: Seq<Concept>, path: Seq<usize>) -> bool {
    forall|k: int| 0 <= k < path.len() - 1 ==> #[trigger] prereqs(cs[path[k] as int]).contains(cs[path[k + 1] as int].id@)
}

/// The state of the depth-first search: 0 unvisited, 1 on the current path,
/// 2 finished with a rank below `counter`.
pub open spec fn dfs_inv(cs: Seq<Concept>, colors: Seq<u8>, rank: Seq<usize>, path: Seq<usize>, counter: usize) -> bool {
    &&& inv_colors(cs, colors)
    &&& inv_black(cs, colors, rank, counter)
    &&& inv_path(cs, colors, path)
    &&& inv_edges(cs, path)
    &&& counter + count_white(colors) + path.len() <= cs.len()
}

proof fn lemma_edges_push(cs: Seq<Concept>, path: Seq<usize>, u: usize)
    requires
        inv_edges(cs, path),
        path.len() > 0 ==> prereqs(cs[path.last() as int]).contains(cs[u as int].id@),
    ensures
        inv_edges(cs, path.push(u)),
{
    let p2 = path.push(u);
    assert forall|k: int| 0 <= k < p2.len() - 1 implies #[trigger] prereqs(cs[p2[k] as int]).contains(cs[p2[k + 1] as int].id@) by {
        assert(p2[k] == path[k]);
        if k < path.len() - 1 {
            assert(p2[k + 1] == path[k + 1]);
        }
    }
}

proof fn lemma_edges_pop(cs: Seq<Concept>, path: Seq<usize>, u: usize)
    requires
        inv_edges(cs, path.push(u)),
    ensures
        inv_edges(cs, path),
{
    let p1 = path.push(u);
    assert forall|k: int| 0 <= k < path.len() - 1 implies #[trigger] prereqs(cs[path[k] as int]).contains(cs[path[k + 1] as int].id@) by {
        assert(p1[k] == path[k]);
        assert(p1[k + 1] == path[k + 1]);
    }
}

/// Marking the unvisited node `u` and putting it on the path keeps the state.
proof fn lemma_dfs_enter(cs: Seq<Concept>, colors: Seq<u8>, rank: Seq<usize>, path: Seq<usize>, counter: usize, u: usize)
    requires
        dfs_inv(cs, colors, rank, path, counter),
        u < cs.len(),
        colors[u as int] == 0,
        canonical(cs, u as int),
        path.len() > 0 ==> prereqs(cs[path.last() as int]).contains(cs[u as int].id@),
    ensures
        dfs_inv(cs, colors.update(u as int, 1), rank, path.push(u), counter),
        count_white(colors.update(u as int, 1)) < count_white(colors),
        !path.contains(u),
{
    lemma_count_white_update(colors, u as int, 1);
    let c2 = colors.update(u as int, 1);
    let p2 = path.push(u);
    if path.contains(u) {
        let t = choose|t: int| 0 <= t < path.len() && path[t] == u;
        assert(colors[path[t] as int] == 1);
    }
    assert(inv_colors(cs, c2));
    assert forall|i: int| 0 <= i < cs.len() && #[trigger] c2[i] == 2 implies rank[i] < counter && black_ok(cs, c2, rank, i) by {
        assert(colors[i] == 2);
        assert forall|v: int| 0 <= v < cs.len() && colors[v] == 2 implies #[trigger] c2[v] == 2 && rank[v] == rank[v] by {}
        lemma_black_ok_frame(cs, colors, rank, c2, rank, i);
    }
    assert forall|i: int| 0 <= i < cs.len() && #[trigger] c2[i] == 1 implies p2.contains(i as usize) by {
        if i == u as int {
            assert(p2[path.len() as int] == u);
        } else {
            assert(path.contains(i as usize));
            let t = choose|t: int| 0 <= t < path.len() && path[t] == i as usize;
            assert(p2[t] == i as usize);
        }
    }
    assert forall|k: int| 0 <= k < p2.len() implies #[trigger] p2[k] < cs.len() && c2[p2[k] as int] == 1 by {
        if k < path.len() {
            assert(p2[k] == path[k]);
            assert(path[k] < cs.len() && colors[path[k] as int] == 1);
        } else {
            assert(p2[k] == u);
        }
    }
    assert(p2.no_duplicates()) by {
        assert forall|a: int, b: int| 0 <= a < b < p2.len() implies p2[a] != p2[b] by {
            if b == path.len() {
                assert(path[a] == p2[a]);
            } else {
                assert(path[a] == p2[a] && path[b] == p2[b]);
            }
        }
    }
    lemma_edges_push(cs, path, u);
}

/// Finishing `u`, whose prerequisites are all finished, keeps the state.
proof fn lemma_dfs_finish(cs: Seq<Concept>, colors: Seq<u8>, rank: Seq<usize>, path: Seq<usize>, counter: usize, u: usize)
    requires
        dfs_inv(cs, colors, rank, path.push(u), counter),
        u < cs.len(),
        colors[u as int] == 1,
        !path.contains(u),
        forall|m: int| 0 <= m < prereqs(cs[u as int]).len() ==> match owner(cs, #[trigger] prereqs(cs[u as int])[m]) {
            Some(v) => 0 <= v < cs.len() && colors[v] == 2 && rank[v] < counter,
            None => true,
        },
    ensures
        counter < usize::MAX,
        dfs_inv(cs, colors.update(u as int, 2), rank.update(u as int, counter), path, (counter + 1) as usize),
        count_white(colors.update(u as int, 2)) == count_white(colors),
{
    let p1 = path.push(u);
    lemma_count_white_update(colors, u as int, 2);
    let c2 = colors.update(u as int, 2);
    let r2 = rank.update(u as int, counter);
    let n2 = (counter + 1) as usize;
    assert(inv_colors(cs, c2));
    assert forall|i: int| 0 <= i < cs.len() && #[trigger] c2[i] == 2 implies r2[i] < n2 && black_ok(cs, c2, r2, i) by {
        if i != u as int {
            assert(colors[i] == 2);
            assert(rank[i] < counter);
            assert forall|v: int| 0 <= v < cs.len() && colors[v] == 2 implies #[trigger] c2[v] == 2 && r2[v] == rank[v] by {
                assert(v != u as int);
            }
            lemma_black_ok_frame(cs, colors, rank, c2, r2, i);
        } else {
            reveal(black_ok);
            assert forall|m: int| 0 <= m < prereqs(cs[i]).len() implies match owner(cs, #[trigger] prereqs(cs[i])[m]) {
                Some(v) => c2[v] == 2 && r2[v] < r2[i],
                None => true,
            } by {
                if let Some(v) = owner(cs, prereqs(cs[i])[m]) {
                    assert(colors[v] == 2);
                    assert(v != u as int);
                }
            }
        }
    }
    assert(path.no_duplicates()) by {
        assert forall|a: int, b: int| 0 <= a < b < path.len() implies path[a] != path[b] by {
            assert(path[a] == p1[a] && path[b] == p1[b]);
        }
    }
    assert forall|i: int| 0 <= i < cs.len() && #[trigger] c2[i] == 1 implies path.contains(i as usize) by {
        assert(colors[i] == 1);
        assert(p1.contains(i as usize));
        let t = choose|t: int| 0 <= t < p1.len() && p1[t] == i as usize;
        if t == path.len() {
            assert(p1[t] == u);
            assert(i == u as int);
        } else {
            assert(path[t] == i as usize);
        }
    }
    assert forall|k: int| 0 <= k < path.len() implies #[trigger] path[k] < cs.len() && c2[path[k] as int] == 1 by {
        assert(p1[k] == path[k]);
        assert(p1[k] < cs.len() && colors[p1[k] as int] == 1);
        if path[k] == u {
            assert(path.contains(u));
        }
    }
    lemma_edges_pop(cs, path, u);
}

/// A node on the path reached again closes a cycle.
proof fn lemma_dfs_cycle(
    cs: Seq<Concept>,
    colors: Seq<u8>,
    path: Seq<usize>,
    start: int,
    v: usize,
    w: Seq<Seq<char>>,
)
    requires
        inv_colors(cs, colors),
        inv_path(cs, colors, path),
        inv_edges(cs, path),
        0 <= start < path.len(),
        path[start] == v,
        v < cs.len(),
        prereqs(cs[path.last() as int]).contains(cs[v as int].id@),
        w == Seq::new((path.len() - start) as nat, |m: int| cs[path[start + m] as int].id@).push(cs[v as int].id@),
    ensures
        is_simple_cycle(cs, w),
{
    assert forall|a: int, b: int| 0 <= a < b < w.len() - 1 implies #[trigger] w[a] != #[trigger] w[b] by {
        let i = path[start + a] as int;
        let j = path[start + b] as int;
        assert(i != j);
        assert(colors[i] == 1 && colors[j] == 1);
        assert(canonical(cs, i) && canonical(cs, j));
        assert(w[a] == cs[i].id@ && w[b] == cs[j].id@);
    }
    let len = path.len() as int;
    assert(w.len() >= 2);
    assert(w[0] == cs[path[start] as int].id@);
    assert(w[0] == cs[v as int].id@);
    assert forall|m: int| 0 <= m < w.len() - 1 implies #[trigger] prerequisite_edge(cs, w[m], w[m + 1]) by {
        let a = path[start + m];
        assert(a < cs.len() && colors[a as int] == 1);
        assert(canonical(cs, a as int));
        assert(w[m] == cs[a as int].id@);
        if start + m < len - 1 {
            assert(prereqs(cs[path[start + m] as int]).contains(cs[path[start + m + 1] as int].id@));
            assert(w[m + 1] == cs[path[start + m + 1] as int].id@);
        } else {
            assert(w[m + 1] == cs[v as int].id@);
        }
    }
}

/// The ids of `path[start..]` followed by `last`.
fn cycle_from(cs: &Vec<Concept>, path: &Vec<usize>, start: usize, last: usize) -> (r: Vec<String>)
    requires
        start < path.len(),
        last < cs.len(),
        forall|k: int| 0 <= k < path.len() ==> #[trigger] path@[k] < cs.len(),
    ensures
        string_views(r@) == Seq::new((path.len() - start) as nat, |m: int| cs@[path@[start + m] as int].id@).push(cs@[last as int].id@),
{
    let mut r: Vec<String> = Vec::new();
    let mut t: usize = start;
    while t < path.len()
        invariant
            start <= t <= path.len(),
            last < cs.len(),
            forall|k: int| 0 <= k < path.len() ==> #[trigger] path@[k] < cs.len(),
            string_views(r@) == Seq::new((t - start) as nat, |m: int| cs@[path@[start + m] as int].id@),
        decreases path.len() - t,
    {
        let ghost before = r@;
        assert(path@[t as int] < cs.len());
        let s = cs[path[t]].id.as_str().to_owned();
        r.push(s);
        assert(r@ == before.push(s));
        assert(string_views(r@) == string_views(before).push(s@));
        assert(string_views(r@) =~= Seq::new((t + 1 - start) as nat, |m: int| cs@[path@[start + m] as int].id@));
        t += 1;
    }
    let ghost before = r@;
    let s = cs[last].id.as_str().to_owned();
    r.push(s);
    assert(r@ == before.push(s));
    assert(string_views(r@) =~= string_views(before).push(cs@[last as int].id@));
    r
}

/// Visits the unvisited node `u` and everything it reaches; reports a cycle
/// through the current path when one is found.
fn visit(
    cs: &Vec<Concept>,
    u: usize,
    colors: &mut Vec<u8>,
    rank: &mut Vec<usize>,
    path: &mut Vec<usize>,
    counter: &mut usize,
) -> (r: Result<(), Vec<String>>)
    requires
        dfs_inv(cs@, old(colors)@, old(rank)@, old(path)@, *old(counter)),
        u < cs.len(),
        old(colors)@[u as int] == 0,
        canonical(cs@, u as int),
        old(path)@.len() > 0 ==> prereqs(cs@[old(path)@.last() as int]).contains(cs@[u as int].id@),
    ensures
        match r {
            Ok(()) => {
                &&& dfs_inv(cs@, final(colors)@, final(rank)@, final(path)@, *final(counter))
                &&& final(colors)@[u as int] == 2
                &&& final(path)@ == old(path)@
                &&& forall|i: int| 0 <= i < cs.len() && old(colors)@[i] == 2 ==> #[trigger] final(colors)@[i] == 2
                    && final(rank)@[i] == old(rank)@[i]
                &&& forall|i: int| 0 <= i < cs.len() ==> (#[trigger] final(colors)@[i] == 1) == (old(colors)@[i] == 1)
                &&& count_white(final(colors)@) < count_white(old(colors)@)
                &&& *final(counter) >= *old(counter)
            },
            Err(cycle) => is_simple_cycle(cs@, string_views(cycle@)),
        },
    decreases count_white(old(colors)@),
{
    let ghost c0 = colors@;
    let ghost r0 = rank@;
    let ghost p0 = path@;
    let ghost n0 = *counter;
    proof {
        lemma_dfs_enter(cs@, colors@, rank@, path@, *counter, u);
    }
    colors.set(u, 1);
    path.push(u);
    let mut k: usize = 0;
    while k < cs[u].prerequisite_ids.len()
        invariant
            u < cs.len(),
            c0.len() == cs.len(),
            c0 == old(colors)@,
            c0[u as int] == 0,
            !p0.contains(u),
            dfs_inv(cs@, colors@, rank@, path@, *counter),
            path@ == p0.push(u),
            colors@[u as int] == 1,
            forall|i: int| 0 <= i < cs.len() && c0[i] == 2 ==> #[trigger] colors@[i] == 2 && rank@[i] == r0[i],
            forall|i: int| 0 <= i < cs.len() ==> (#[trigger] colors@[i] == 1) == (c0[i] == 1 || i == u),
            count_white(colors@) < count_white(c0),
            *counter >= n0,
            k <= prereqs(cs@[u as int]).len(),
            forall|m: int| 0 <= m < k ==> match owner(cs@, #[trigger] prereqs(cs@[u as int])[m]) {
                Some(v) => 0 <= v < cs.len() && colors@[v] == 2 && rank@[v] < *counter,
                None => true,
            },
        decreases cs@[u as int].prerequisite_ids.len() - k,
    {
        let p = &cs[u].prerequisite_ids[k];
        assert(prereqs(cs@[u as int])[k as int] == p@);
        match owner_index(cs, p) {
            None => {},
            Some(v) => {
                proof {
                    lemma_owner_some(cs@, p@);
                }
                if colors[v] == 1 {
                    assert(path@.contains(v));
                    let mut start: usize = 0;
                    while path[start] != v
                        invariant
                            start < path.len(),
                            path@.contains(v),
                            forall|t: int| 0 <= t < start ==> path@[t] != v,
                        decreases path.len() - start,
                    {
                        start += 1;
                        if start == path.len() {
                            proof {
                                let t = choose|t: int| 0 <= t < path@.len() && path@[t] == v;
                                assert(path@[t] != v);
                            }
                        }
                    }
                    let cycle = cycle_from(cs, path, start, v);
                    proof {
                        assert(path@.last() == u);
                        assert(prereqs(cs@[u as int])[k as int] == cs@[v as int].id@);
                        lemma_dfs_cycle(cs@, colors@, path@, start as int, v, string_views(cycle@));
                    }
                    return Err(cycle);
                } else if colors[v] == 0 {
                    proof {
                        assert(prereqs(cs@[u as int])[k as int] == cs@[v as int].id@);
                        assert(path@.last() == u);
                    }
                    visit(cs, v, colors, rank, path, counter)?;
                }
            },
        }
        proof {
            assert forall|m: int| 0 <= m < k + 1 implies match owner(cs@, #[trigger] prereqs(cs@[u as int])[m]) {
                Some(v) => 0 <= v < cs.len() && colors@[v] == 2 && rank@[v] < *counter,
                None => true,
            } by {
                if let Some(v) = owner(cs@, prereqs(cs@[u as int])[m]) {
                    lemma_owner_some(cs@, prereqs(cs@[u as int])[m]);
                }
            }
        }
        k += 1;
    }
    path.pop();
    assert(path@ =~= p0);
    proof {
        lemma_dfs_finish(cs@, colors@, rank@, path@, *counter, u);
    }
    colors.set(u, 2);
    rank.set(u, *counter);
    *counter = *counter + 1;
    Ok(())
}

/// Along a walk of finished nodes, ranks strictly fall from the start.
proof fn lemma_rank_walk(cs: Seq<Concept>, colors: Seq<u8>, rank: Seq<usize>, counter: usize, w: Seq<Seq<char>>, m: int)
    requires
        inv_colors(cs, colors),
        inv_black(cs, colors, rank, counter),
        forall|i: int| 0 <= i < cs.len() && canonical(cs, i) ==> #[trigger] colors[i] == 2,
        is_cycle(cs, w),
        1 <= m < w.len(),
    ensures
        owner(cs, w[m]) is Some,
        owner(cs, w[0]) is Some,
        rank[owner(cs, w[m])->0] < rank[owner(cs, w[0])->0],
    decreases m,
{
    let k = m - 1;
    assert(prerequisite_edge(cs, w[k], w[k + 1]));
    let k0: int = 0;
    assert(prerequisite_edge(cs, w[k0], w[k0 + 1]));
    if m < w.len() - 1 {
        assert(prerequisite_edge(cs, w[m], w[m + 1]));
    }
    let i = owner(cs, w[m - 1])->0;
    lemma_owner_some(cs, w[m - 1]);
    lemma_owner_some(cs, w[m]);
    assert(colors[i] == 2);
    assert(black_ok(cs, colors, rank, i));
    let kk = choose|kk: int| 0 <= kk < prereqs(cs[i]).len() && prereqs(cs[i])[kk] == w[m];
    reveal(black_ok);
    assert(match owner(cs, prereqs(cs[i])[kk]) {
        Some(v) => colors[v] == 2 && rank[v] < rank[i],
        None => true,
    });
    if m > 1 {
        lemma_rank_walk(cs, colors, rank, counter, w, m - 1);
    }
}

/// With every concept finished, no cycle exists.
proof fn lemma_no_cycle(cs: Seq<Concept>, colors: Seq<u8>, rank: Seq<usize>, counter: usize)
    requires
        inv_colors(cs, colors),
        inv_black(cs, colors, rank, counter),
        forall|i: int| 0 <= i < cs.len() && canonical(cs, i) ==> #[trigger] colors[i] == 2,
    ensures
        !has_cycle(cs),
{
    if has_cycle(cs) {
        let w = choose|w: Seq<Seq<char>>| is_cycle(cs, w);
        lemma_rank_walk(cs, colors, rank, counter, w, w.len() - 1);
    }
}

/// Accepts the prerequisite graph exactly when it has no cycle; a rejection
/// names one cycle that passes each of its concepts once, starting and
/// ending with the same concept.
pub fn validate_prerequisite_dag(concepts: &Vec<Concept>) -> (r: Result<(), KnowledgeError>)
    ensures
        r is Ok <==> !has_cycle(concepts@),
        r matches Err(e) ==> e matches KnowledgeError::PrerequisiteCycle { cycle } && is_simple_cycle(
            concepts@,
            string_views(cycle@),
        ),
{
    let ghost cs = concepts@;
    let n = concepts.len();
    let mut colors: Vec<u8> = Vec::new();
    let mut rank: Vec<usize> = Vec::new();
    let mut i: usize = 0;
    while i < n
        invariant
            n == concepts.len(),
            i <= n,
            colors.len() == i,
            rank.len() == i,
            forall|l: int| 0 <= l < i ==> #[trigger] colors@[l] == 0,
        decreases n - i,
    {
        colors.push(0);
        rank.push(0);
        i += 1;
    }
    let mut path: Vec<usize> = Vec::new();
    let mut counter: usize = 0;
    proof {
        lemma_count_white_zeros(colors@);
        assert(path@.len() == 0);
    }
    let mut i: usize = 0;
    while i < n
        invariant
            cs == concepts@,
            n == concepts.len(),
            i <= n,
            dfs_inv(cs, colors@, rank@, path@, counter),
            path@.len() == 0,
            forall|l: int| 0 <= l < i && canonical(cs, l) ==> #[trigger] colors@[l] != 0,
        decreases n - i,
    {
        if colors[i] == 0 {
            match owner_index(concepts, &concepts[i].id) {
                Some(o) => {
                    if o == i {
                        match visit(concepts, i, &mut colors, &mut rank, &mut path, &mut counter) {
                            Ok(()) => {},
                            Err(cycle) => {
                                proof {
                                    assert(has_cycle(cs));
                                }
                                return Err(KnowledgeError::PrerequisiteCycle { cycle });
                            },
                        }
                    }
                },
                None => {
                    proof {
                        lemma_owner_exists(cs, i as int);
                    }
                },
            }
        }
        i += 1;
    }
    proof {
        assert forall|l: int| 0 <= l < cs.len() && canonical(cs, l) implies #[trigger] colors@[l] == 2 by {
            assert(colors@[l] != 0);
            if colors@[l] == 1 {
                assert(path@.contains(l as usize));
            }
        }
        lemma_no_cycle(cs, colors@, rank@, counter);
    }
    Ok(())
}

/// The related concepts of `id`, read from both sides: in concept order, the
/// related list of each concept with that id, and each other concept whose
/// related list names `id`.
pub open spec fn related_view(cs: Seq<Concept>, id: Seq<char>) -> Seq<Seq<char>>
    decreases cs.len(),
{
    if cs.len() == 0 {
        Seq::empty()
    } else {
        let c = cs.last();
        let rest = related_view(cs.drop_last(), id);
        if c.id@ == id {
            rest + related(c)
        } else if related(c).contains(id) {
            rest.push(c.id@)
        } else {
            rest
        }
    }
}

/// `b` is related to `a` when a concept with id `a` lists `b`, or a concept
/// with id `b` (other than `a`) lists `a`.
pub open spec fn relates(cs: Seq<Concept>, a: Seq<char>, b: Seq<char>) -> bool {
    exists|i: int|
        0 <= i < cs.len() && ((#[trigger] cs[i].id@ == a && related(cs[i]).contains(b)) || (cs[i].id@ != a
            && cs[i].id@ == b && related(cs[i]).contains(a)))
}

proof fn lemma_related_view(cs: Seq<Concept>, a: Seq<char>, b: Seq<char>)
    ensures
        related_view(cs, a).contains(b) <==> relates(cs, a, b),
    decreases cs.len(),
{
    if cs.len() > 0 {
        let c = cs.last();
        let d = cs.drop_last();
        let last = cs.len() - 1;
        assert(cs[last] == c);
        lemma_related_view(d, a, b);
        let rest = related_view(d, a);
        let view = related_view(cs, a);
        // `rest` is a prefix of `view`.
        assert forall|k: int| 0 <= k < rest.len() implies view[k] == rest[k] by {
            if c.id@ == a {
                assert(view == rest + related(c));
            } else if related(c).contains(a) {
                assert(view == rest.push(c.id@));
            }
        }
        assert(view.len() >= rest.len());
        if view.contains(b) {
            let k = choose|k: int| 0 <= k < view.len() && view[k] == b;
            if k < rest.len() {
                assert(rest[k] == b);
                let i = choose|i: int|
                    0 <= i < d.len() && ((#[trigger] d[i].id@ == a && related(d[i]).contains(b)) || (d[i].id@ != a
                        && d[i].id@ == b && related(d[i]).contains(a)));
                assert(cs[i] == d[i]);
            } else if c.id@ == a {
                assert(view == rest + related(c));
                assert(related(c)[k - rest.len()] == b);
                assert(related(cs[last]).contains(b));
            } else {
                assert(related(c).contains(a));
                assert(view == rest.push(c.id@));
                assert(cs[last].id@ == b);
            }
        }
        if relates(cs, a, b) {
            let i = choose|i: int|
                0 <= i < cs.len() && ((#[trigger] cs[i].id@ == a && related(cs[i]).contains(b)) || (cs[i].id@ != a
                    && cs[i].id@ == b && related(cs[i]).contains(a)));
            if i < d.len() {
                assert(d[i] == cs[i]);
                assert(relates(d, a, b));
                let k = choose|k: int| 0 <= k < rest.len() && rest[k] == b;
                assert(view[k] == b);
            } else if c.id@ == a {
                assert(view == rest + related(c));
                let k = choose|k: int| 0 <= k < related(c).len() && related(c)[k] == b;
                assert(view[rest.len() + k] == b);
            } else {
                assert(view == rest.push(c.id@));
                assert(view[rest.len() as int] == b);
            }
        }
    }
}

/// The related view is symmetric: `b` is related to `a` exactly when `a` is
/// related to `b`, whichever side authored the pair.
pub proof fn lemma_related_symmetric(cs: Seq<Concept>, a: Seq<char>, b: Seq<char>)
    ensures
        related_view(cs, a).contains(b) <==> related_view(cs, b).contains(a),
{
    lemma_related_view(cs, a, b);
    lemma_related_view(cs, b, a);
    if relates(cs, a, b) {
        let i = choose|i: int|
            0 <= i < cs.len() && ((#[trigger] cs[i].id@ == a && related(cs[i]).contains(b)) || (cs[i].id@ != a
                && cs[i].id@ == b && related(cs[i]).contains(a)));
        assert(cs[i].id@ == a || cs[i].id@ == b);
    }
    if relates(cs, b, a) {
        let i = choose|i: int|
            0 <= i < cs.len() && ((#[trigger] cs[i].id@ == b && related(cs[i]).contains(a)) || (cs[i].id@ != b
                && cs[i].id@ == a && related(cs[i]).contains(b)));
        assert(cs[i].id@ == a || cs[i].id@ == b);
    }
}

/// Every concept related to `id`, whichever side authored the pair.
pub fn related_concepts(concepts: &Vec<Concept>, id: &ConceptId) -> (r: Vec<ConceptId>)
    ensures
        id_views(r@) == related_view(concepts@, id@),
{
    let mut r: Vec<ConceptId> = Vec::new();
    let mut i: usize = 0;
    while i < concepts.len()
        invariant
            i <= concepts.len(),
            id_views(r@) == related_view(concepts@.take(i as int), id@),
        decreases concepts.len() - i,
    {
        let c = &concepts[i];
        let ghost before = id_views(r@);
        assert(concepts@.take(i + 1).drop_last() =~= concepts@.take(i as int));
        assert(concepts@.take(i + 1).last() == *c);
        if c.id.same(id) {
            let mut k: usize = 0;
            while k < c.related_ids.len()
                invariant
                    k <= c.related_ids.len(),
                    id_views(r@) == before + related(*c).take(k as int),
                decreases c.related_ids.len() - k,
            {
                let ghost b2 = id_views(r@);
                r.push(c.related_ids[k].clone());
                assert(id_views(r@) =~= b2.push(related(*c)[k as int]));
                assert(related(*c).take(k + 1) =~= related(*c).take(k as int).push(related(*c)[k as int]));
                k += 1;
            }
            assert(related(*c).take(k as int) =~= related(*c));
        } else if lists_related(c, id) {
            r.push(c.id.clone());
            assert(id_views(r@) =~= before.push(c.id@));
        }
        i += 1;
    }
    assert(concepts@.take(i as int) =~= concepts@);
    r
}

/// The first failing list of concept `i`: its prerequisites, then its
/// related concepts; with the field's name.
pub open spec fn concept_ref_failure(cs: Seq<Concept>, i: int) -> Option<(Seq<char>, RefFailure)> {
    match ref_list_failure(cs[i].id@, prereqs(cs[i]), concept_ids(cs)) {
        Some(f) => Some(("prerequisite_ids"@, f)),
        None => match ref_list_failure(cs[i].id@, related(cs[i]), concept_ids(cs)) {
            Some(f) => Some(("related_ids"@, f)),
            None => None,
        },
    }
}

/// What `validate_relationships` decides: reference lists first, in concept
/// order; then related pairs authored twice; then prerequisite cycles.
pub open spec fn relationships_ok(cs: Seq<Concept>, r: Result<(), KnowledgeError>) -> bool {
    match first_where(cs.len() as int, |i: int| concept_ref_failure(cs, i) is Some) {
        Some(i) => {
            let (field, f) = concept_ref_failure(cs, i)->0;
            r matches Err(e) && ref_error_is(e, cs[i].id@, field, f)
        },
        None => match symmetry_failure(cs) {
            Some((a, b)) => r matches Err(KnowledgeError::ReverseDuplicateRelated { first, second })
                && first@ == a && second@ == b,
            None => (r is Ok <==> !has_cycle(cs)) && (r matches Err(e) ==> e matches KnowledgeError::PrerequisiteCycle {
                cycle,
            } && is_simple_cycle(cs, string_views(cycle@))),
        },
    }
}

/// Validates the relationships among `concepts`.
pub fn validate_relationships(concepts: &Vec<Concept>) -> (r: Result<(), KnowledgeError>)
    ensures
        relationships_ok(concepts@, r),
{
    let ghost cs = concepts@;
    let ghost p = |i: int| concept_ref_failure(cs, i) is Some;
    proof {
        reveal_strlit("prerequisite_ids");
        reveal_strlit("related_ids");
    }
    let mut i: usize = 0;
    while i < concepts.len()
        invariant
            cs == concepts@,
            p == (|i: int| concept_ref_failure(cs, i) is Some),
            i <= concepts.len(),
            forall|l: int| 0 <= l < i ==> !#[trigger] p(l),
        decreases concepts.len() - i,
    {
        let c = &concepts[i];
        match validate_reference_list(&c.id, "prerequisite_ids", &c.prerequisite_ids, concepts) {
            Err(e) => {
                proof {
                    assert(p(i as int));
                    lemma_first_where(cs.len() as int, p, i as int);
                }
                return Err(e);
            },
            Ok(()) => {},
        }
        match validate_reference_list(&c.id, "related_ids", &c.related_ids, concepts) {
            Err(e) => {
                proof {
                    assert(p(i as int));
                    lemma_first_where(cs.len() as int, p, i as int);
                }
                return Err(e);
            },
            Ok(()) => {},
        }
        assert(!p(i as int));
        i += 1;
    }
    proof {
        lemma_first_where_none(cs.len() as int, p);
    }
    validate_related_symmetry(concepts)?;
    validate_prerequisite_dag(concepts)
}

/// Law: a reference list is accepted exactly when every entry names another
/// concept than its owner, names a concept that exists, and appears once.
pub proof fn lemma_reference_list_accepts_known_distinct_ids(
    owner_id: Seq<char>,
    targets: Seq<Seq<char>>,
    ids: Seq<Seq<char>>,
)
    ensures
        ref_list_failure(owner_id, targets, ids) is None <==> forall|k: int|
            0 <= k < targets.len() ==> {
                &&& #[trigger] targets[k] != owner_id
                &&& exists|m: int| 0 <= m < ids.len() && ids[m] == targets[k]
                &&& forall|j: int| 0 <= j < k ==> targets[j] != targets[k]
            },
{
    let p = |k: int| ref_bad(owner_id, targets, ids, k);
    if ref_list_failure(owner_id, targets, ids) is None {
        assert forall|k: int| 0 <= k < targets.len() implies {
            &&& #[trigger] targets[k] != owner_id
            &&& exists|m: int| 0 <= m < ids.len() && ids[m] == targets[k]
            &&& forall|j: int| 0 <= j < k ==> targets[j] != targets[k]
        } by {
            if p(k) {
                assert(exists|l: int| 0 <= l < targets.len() && #[trigger] p(l));
            }
            assert(ids.contains(targets[k]));
        }
    } else {
        let k = crate::text::first_where(targets.len() as int, p)->0;
        crate::text::lemma_first_where_some(targets.len() as int, p);
        assert(p(k));
        if ids.contains(targets[k]) {
        } else {
            if exists|m: int| 0 <= m < ids.len() && ids[m] == targets[k] {
                let m = choose|m: int| 0 <= m < ids.len() && ids[m] == targets[k];
                assert(ids.contains(targets[k]));
            }
        }
    }
}

/// Law: when some concept lists, among its prerequisites or its related
/// concepts, an id that no concept has, relationship validation fails.
pub proof fn lemma_unknown_reference_is_rejected(cs: Seq<Concept>, r: Result<(), KnowledgeError>, i: int, k: int)
    requires
        relationships_ok(cs, r),
        0 <= i < cs.len(),
        (0 <= k < prereqs(cs[i]).len() && forall|m: int| 0 <= m < cs.len() ==> cs[m].id@ != prereqs(cs[i])[k]) || (0
            <= k < related(cs[i]).len() && forall|m: int| 0 <= m < cs.len() ==> cs[m].id@ != related(cs[i])[k]),
    ensures
        r is Err,
{
    let ids = concept_ids(cs);
    lemma_reference_list_accepts_known_distinct_ids(cs[i].id@, prereqs(cs[i]), ids);
    lemma_reference_list_accepts_known_distinct_ids(cs[i].id@, related(cs[i]), ids);
    if 0 <= k < prereqs(cs[i]).len() && forall|m: int| 0 <= m < cs.len() ==> cs[m].id@ != prereqs(cs[i])[k] {
        if exists|m: int| 0 <= m < ids.len() && ids[m] == prereqs(cs[i])[k] {
            let m = choose|m: int| 0 <= m < ids.len() && ids[m] == prereqs(cs[i])[k];
            assert(cs[m].id@ == ids[m]);
        }
        assert(ref_list_failure(cs[i].id@, prereqs(cs[i]), ids) is Some);
    } else {
        if exists|m: int| 0 <= m < ids.len() && ids[m] == related(cs[i])[k] {
            let m = choose|m: int| 0 <= m < ids.len() && ids[m] == related(cs[i])[k];
            assert(cs[m].id@ == ids[m]);
        }
        assert(ref_list_failure(cs[i].id@, related(cs[i]), ids) is Some);
    }
    let f = |j: int| concept_ref_failure(cs, j) is Some;
    assert(f(i));
    assert(exists|j: int| 0 <= j < cs.len() && #[trigger] f(j));
    crate::text::lemma_first_where_some(cs.len() as int, f);
}

/// Law: when two concepts each list the other as related, relationship
/// validation fails (a related pair is written on one side only).
pub proof fn lemma_related_pair_written_twice_is_rejected(
    cs: Seq<Concept>,
    r: Result<(), KnowledgeError>,
    i: int,
    j: int,
)
    requires
        relationships_ok(cs, r),
        0 <= i < cs.len(),
        0 <= j < cs.len(),
        forall|a: int, b: int| 0 <= a < b < cs.len() ==> cs[a].id@ != cs[b].id@,
        related(cs[i]).contains(cs[j].id@),
        related(cs[j]).contains(cs[i].id@),
    ensures
        r is Err,
{
    let f = |x: int| concept_ref_failure(cs, x) is Some;
    if first_where(cs.len() as int, f) is None {
        let k = choose|k: int| 0 <= k < related(cs[i]).len() && related(cs[i])[k] == cs[j].id@;
        assert forall|m: int| j < m < cs.len() implies cs[m].id@ != cs[j].id@ by {}
        lemma_owner(cs, cs[j].id@, j);
        assert(reverse_bad(cs, i, k));
        let g = |kk: int| reverse_bad(cs, i, kk);
        assert(g(k));
        assert(exists|l: int| 0 <= l < related(cs[i]).len() && #[trigger] g(l));
        let h = |x: int| first_reverse(cs, x) is Some;
        assert(h(i));
        assert(exists|x: int| 0 <= x < cs.len() && #[trigger] h(x));
    }
}

} // verus!
