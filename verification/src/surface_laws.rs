//! What holds of surfaces and their names in a drawing as a whole.

use acadrust::{EntityType, Vector3};
use vstd::prelude::*;

use crate::drawing::{shows, tin_items, ItemView};
use crate::entities::{entity_data, entity_mesh, faces_of, vector_of};
use crate::lists::{distinct, law_distinct};
use crate::pnezd::Record;
use crate::records::{entity_records, law_surface_tags_read_back, pair_record, XDATA_SURFACE};
use crate::requests::mentions;
use crate::surfaces::{
    bits, edge_name, end_points, first_whole, found_in, is_triangle, known_names,
    law_meshes_keep_surfaces, nodes_of, searched, searched_all, triangles_of, Bits, DrawnView,
    EntityView, FoundView,
};
use crate::text::same_but_case;

verus! {

/// A surface is found under its name in whatever case.
pub proof fn law_surface_names_ignore_case<P>(
    entities: Seq<EntityView<P>>,
    a: Seq<char>,
    b: Seq<char>,
)
    requires
        same_but_case(a, b),
    ensures
        found_in(entities, a) == found_in(entities, b),
{
    lemma_case(entities, a, b);
}

/// Every part of the search is the same for names that differ in case alone.
proof fn lemma_case<P>(entities: Seq<EntityView<P>>, a: Seq<char>, b: Seq<char>)
    requires
        same_but_case(a, b),
    ensures
        first_whole(entities, a) == first_whole(entities, b),
        end_points(entities, a) == end_points(entities, b),
        edge_name(entities, a) == edge_name(entities, b),
    decreases entities.len(),
{
    if entities.len() > 0 {
        lemma_case(entities.skip(1), a, b);
        lemma_case(entities.drop_last(), a, b);
        assert(entities[0].is_of(a) == entities[0].is_of(b));
        assert(entities.last().is_of(a) == entities.last().is_of(b));
    }
}

/// How the parts of the search change with one more entity.
proof fn lemma_one_more<P>(entities: Seq<EntityView<P>>, e: EntityView<P>, token: Seq<char>)
    ensures
        0 <= first_whole(entities, token) <= entities.len(),
        first_whole(entities.push(e), token) == (if first_whole(entities, token) < entities.len() {
            first_whole(entities, token)
        } else if e.is_whole(token) {
            entities.len() as int
        } else {
            entities.len() as int + 1
        }),
        edge_name(entities.push(e), token) == (if edge_name(entities, token) is Some {
            edge_name(entities, token)
        } else if e.is_edge(token) {
            Some(e.tag_name())
        } else {
            None
        }),
    decreases entities.len(),
{
    let more = entities.push(e);
    if entities.len() > 0 {
        lemma_one_more(entities.skip(1), e, token);
        assert(more.skip(1) =~= entities.skip(1).push(e));
        assert(more[0] == entities[0]);
    } else {
        assert(more.skip(1) =~= Seq::empty());
        assert(more[0] == e);
        assert(first_whole(more.skip(1), token) == 0);
        assert(edge_name(more.skip(1), token) is None);
    }
}

/// It is a mesh that is the whole surface of a name, or an edge of it.
pub open spec fn is_part<P>(e: EntityView<P>, token: Seq<char>) -> bool {
    e.is_whole(token) || e.is_edge(token)
}

/// The meshes and the edges of the surface of a name, in order.
pub open spec fn parts<P>(entities: Seq<EntityView<P>>, token: Seq<char>) -> Seq<EntityView<P>> {
    entities.filter(|e: EntityView<P>| is_part(e, token))
}

/// Entities that are no part of a surface do not matter to the search for it,
/// wherever they stand; among them are all that are not tagged as belonging to it.
pub proof fn law_other_entities_do_not_matter<P>(entities: Seq<EntityView<P>>, token: Seq<char>)
    ensures
        forall|e: EntityView<P>| #[trigger] is_part(e, token) ==> e.is_of(token),
        found_in(entities, token) == found_in(parts(entities, token), token),
{
    lemma_parts(entities, token);
}

/// Every part of the search is the same without the entities that are no part of
/// the surface.
proof fn lemma_parts<P>(entities: Seq<EntityView<P>>, token: Seq<char>)
    ensures
        ({
            let some = parts(entities, token);
            let i = first_whole(entities, token);
            let k = first_whole(some, token);
            &&& end_points(entities, token) == end_points(some, token)
            &&& edge_name(entities, token) == edge_name(some, token)
            &&& 0 <= i <= entities.len()
            &&& 0 <= k <= some.len()
            &&& i < entities.len() <==> k < some.len()
            &&& i < entities.len() ==> entities[i] == some[k]
        }),
    decreases entities.len(),
{
    reveal(Seq::filter);
    if entities.len() > 0 {
        let before = entities.drop_last();
        let e = entities.last();
        let some = parts(before, token);
        lemma_parts(before, token);
        lemma_one_more(before, e, token);
        lemma_one_more(some, e, token);
        assert(before.push(e) =~= entities);
        assert(some.push(e).drop_last() =~= some);
        assert(parts(entities, token) == if is_part(e, token) {
            some.push(e)
        } else {
            some
        });
    }
}

/// The first whole mesh of a surface is what the search finds, and nothing comes
/// before it.
pub proof fn law_the_first_mesh_is_found<P>(entities: Seq<EntityView<P>>, token: Seq<char>, i: int)
    requires
        0 <= i < entities.len(),
        entities[i].is_whole(token),
        forall|j: int| 0 <= j < i ==> !(#[trigger] entities[j]).is_whole(token),
    ensures
        found_in(entities, token) == FoundView::Mesh(
            entities[i].tag_name(),
            entities[i].drawn->Mesh_0,
            entities[i].drawn->Mesh_1,
        ),
{
    lemma_first_whole(entities, token, i);
}

proof fn lemma_first_whole<P>(entities: Seq<EntityView<P>>, token: Seq<char>, i: int)
    requires
        0 <= i < entities.len(),
        entities[i].is_whole(token),
        forall|j: int| 0 <= j < i ==> !(#[trigger] entities[j]).is_whole(token),
    ensures
        first_whole(entities, token) == i,
    decreases entities.len(),
{
    if i > 0 {
        let rest = entities.skip(1);
        assert(rest[i - 1] == entities[i]);
        assert forall|j: int| 0 <= j < i - 1 implies !(#[trigger] rest[j]).is_whole(token) by {
            assert(rest[j] == entities[j + 1]);
        }
        lemma_first_whole(rest, token, i - 1);
    }
}

/// A point is an end of an edge of a surface.
pub open spec fn is_end<P>(entities: Seq<EntityView<P>>, token: Seq<char>, p: Bits) -> bool {
    exists|i: int|
        0 <= i < entities.len() && (#[trigger] entities[i]).is_edge(token) && (
        entities[i].drawn->Line_0 == p || entities[i].drawn->Line_1 == p)
}

proof fn lemma_end_points<P>(entities: Seq<EntityView<P>>, token: Seq<char>, p: Bits)
    ensures
        end_points(entities, token).contains(p) <==> is_end(entities, token, p),
    decreases entities.len(),
{
    if entities.len() > 0 {
        let before = entities.drop_last();
        let e = entities.last();
        lemma_end_points(before, token, p);
        let ends = end_points(before, token);
        let more = end_points(entities, token);
        if is_end(before, token, p) {
            let i = choose|i: int|
                0 <= i < before.len() && (#[trigger] before[i]).is_edge(token) && (
                before[i].drawn->Line_0 == p || before[i].drawn->Line_1 == p);
            assert(entities[i] == before[i]);
            let k = choose|k: int| 0 <= k < ends.len() && ends[k] == p;
            assert(more[k] == p);
        } else if is_end(entities, token, p) {
            let i = choose|i: int|
                0 <= i < entities.len() && (#[trigger] entities[i]).is_edge(token) && (
                entities[i].drawn->Line_0 == p || entities[i].drawn->Line_1 == p);
            if i < before.len() {
                assert(before[i] == entities[i]);
            }
            assert(e.is_edge(token));
            assert(more[ends.len() as int] == e.drawn->Line_0);
            assert(more[ends.len() as int + 1] == e.drawn->Line_1);
        } else if more.contains(p) {
            let k = choose|k: int| 0 <= k < more.len() && more[k] == p;
            if k < ends.len() {
                assert(ends[k] == p);
            }
            assert(entities[entities.len() - 1] == e);
        }
    }
}

/// The nodes that are found from the edges of a surface are the ends of its edges,
/// each of them once.
pub proof fn law_edges_give_back_the_nodes<P>(entities: Seq<EntityView<P>>, token: Seq<char>)
    ensures
        found_in(entities, token) matches FoundView::Edges(_, nodes) ==> {
            &&& nodes.no_duplicates()
            &&& forall|p: Bits| #[trigger] nodes.contains(p) <==> is_end(entities, token, p)
        },
{
    let ends = end_points(entities, token);
    law_distinct(ends);
    assert forall|p: Bits| #[trigger] distinct(ends).contains(p) <==> is_end(entities, token, p) by {
        lemma_end_points(entities, token, p);
        assert(ends.contains(p) <==> distinct(ends).contains(p));
    }
}

/// A surface that was drawn as a mesh and tagged with its name is found under that
/// name, in whatever case, with the nodes and the triangles that it had, whatever
/// else the drawing holds, unless another mesh that is the surface of that name
/// comes before it.
pub proof fn law_an_imported_surface_is_found(
    entities: Seq<EntityType>,
    k: int,
    nodes: Seq<Vector3>,
    triangles: Seq<(usize, usize, usize)>,
    name: Seq<char>,
    token: Seq<char>,
)
    requires
        nodes.len() > 0,
        triangles.len() > 0,
        forall|i: int|
            0 <= i < triangles.len() ==> {
                let t = #[trigger] triangles[i];
                t.0 < nodes.len() && t.1 < nodes.len() && t.2 < nodes.len()
            },
        0 <= k < entities.len(),
        entity_mesh(entities[k]) == Some((nodes, faces_of(triangles))),
        entity_records(entity_data(entities[k])) == seq![pair_record(XDATA_SURFACE@, name, "TIN"@)],
        same_but_case(name, token),
        forall|j: int| 0 <= j < k ==> !searched(#[trigger] entities[j]).is_whole(token),
    ensures
        found_in(searched_all(entities), token) == FoundView::Mesh(name, nodes, triangles),
{
    let e = entities[k];
    law_meshes_keep_surfaces(triangles, nodes.len());
    let none: Seq<(Seq<char>, Seq<Option<Seq<char>>>)> = Seq::empty();
    law_surface_tags_read_back(none, name, "TIN"@);
    assert(none.push(pair_record(XDATA_SURFACE@, name, "TIN"@)) =~= entity_records(entity_data(e)));
    let all = searched_all(entities);
    assert(all[k] == searched(e));
    assert forall|j: int| 0 <= j < k implies !(#[trigger] all[j]).is_whole(token) by {
        assert(all[j] == searched(entities[j]));
    }
    law_the_first_mesh_is_found(all, token, k);
}

/// An entity that was drawn from an item and tagged as the item is.
pub open spec fn is_drawn<S>(e: EntityType, item: ItemView<Vector3, S>) -> bool {
    &&& shows(e, item.shape)
    &&& item.tag matches Some((name, kind)) && entity_records(entity_data(e)) == seq![
        pair_record(XDATA_SURFACE@, name, kind),
    ]
}

/// A point is an end of one of some edges between nodes.
pub open spec fn is_joined(nodes: Seq<Vector3>, edges: Seq<(usize, usize)>, p: Bits) -> bool {
    exists|i: int|
        0 <= i < edges.len() && (bits(nodes[(#[trigger] edges[i]).0 as int]) == p || bits(
            nodes[edges[i].1 as int],
        ) == p)
}

/// The entities that are meshes and edges of the surface of a name, in order.
pub open spec fn part_entities(entities: Seq<EntityType>, token: Seq<char>) -> Seq<EntityType> {
    entities.filter(|e: EntityType| is_part(searched(e), token))
}

proof fn lemma_part_entities(entities: Seq<EntityType>, token: Seq<char>)
    ensures
        searched_all(part_entities(entities, token)) == parts(searched_all(entities), token),
    decreases entities.len(),
{
    reveal(Seq::filter);
    if entities.len() == 0 {
        assert(searched_all(part_entities(entities, token)) =~= parts(searched_all(entities), token));
    } else {
        let before = entities.drop_last();
        let e = entities.last();
        lemma_part_entities(before, token);
        assert(searched_all(entities).drop_last() =~= searched_all(before));
        assert(searched_all(entities).last() == searched(e));
        let some = part_entities(before, token);
        assert(searched_all(some.push(e)) =~= searched_all(some).push(searched(e)));
    }
}

/// A surface that was drawn by the edges of its triangulation is found under its
/// name, in whatever case, with the nodes that its edges join, each of them once,
/// if there are three or more, whatever the drawing holds besides that is no part
/// of the surface.
pub proof fn law_a_drawn_surface_is_found<S>(
    entities: Seq<EntityType>,
    nodes: Seq<Vector3>,
    edges: Seq<(usize, usize)>,
    layer: Seq<char>,
    name: Seq<char>,
    token: Seq<char>,
    p: Bits,
    q: Bits,
    r: Bits,
)
    requires
        part_entities(entities, token).len() == edges.len(),
        forall|i: int|
            0 <= i < edges.len() ==> is_drawn(
                #[trigger] part_entities(entities, token)[i],
                tin_items::<Vector3, S>(nodes, edges, layer, name)[i],
            ),
        same_but_case(name, token),
        is_joined(nodes, edges, p),
        is_joined(nodes, edges, q),
        is_joined(nodes, edges, r),
        p != q,
        p != r,
        q != r,
    ensures
        found_in(searched_all(entities), token) matches FoundView::Edges(n, found) && n == name
            && found.no_duplicates() && forall|x: Bits| #[trigger] found.contains(x) <==> is_joined(
            nodes,
            edges,
            x,
        ),
{
    law_other_entities_do_not_matter(searched_all(entities), token);
    lemma_part_entities(entities, token);
    lemma_edges_alone::<S>(
        part_entities(entities, token),
        nodes,
        edges,
        layer,
        name,
        token,
        p,
        q,
        r,
    );
}

/// The edges of a surface, and nothing else.
proof fn lemma_edges_alone<S>(
    entities: Seq<EntityType>,
    nodes: Seq<Vector3>,
    edges: Seq<(usize, usize)>,
    layer: Seq<char>,
    name: Seq<char>,
    token: Seq<char>,
    p: Bits,
    q: Bits,
    r: Bits,
)
    requires
        entities.len() == edges.len(),
        forall|i: int|
            0 <= i < edges.len() ==> is_drawn(
                #[trigger] entities[i],
                tin_items::<Vector3, S>(nodes, edges, layer, name)[i],
            ),
        same_but_case(name, token),
        is_joined(nodes, edges, p),
        is_joined(nodes, edges, q),
        is_joined(nodes, edges, r),
        p != q,
        p != r,
        q != r,
    ensures
        found_in(searched_all(entities), token) matches FoundView::Edges(n, found) && n == name
            && found.no_duplicates() && forall|x: Bits| #[trigger] found.contains(x) <==> is_joined(
            nodes,
            edges,
            x,
        ),
{
    let views = searched_all(entities);
    assert forall|i: int| 0 <= i < views.len() implies {
        let v = #[trigger] views[i];
        &&& v.is_edge(token)
        &&& v.tag_name() == name
        &&& v.drawn == DrawnView::<Vector3>::Line(
            bits(nodes[edges[i].0 as int]),
            bits(nodes[edges[i].1 as int]),
        )
    } by {
        let e = entities[i];
        assert(is_drawn(e, tin_items::<Vector3, S>(nodes, edges, layer, name)[i]));
        let none: Seq<(Seq<char>, Seq<Option<Seq<char>>>)> = Seq::empty();
        law_surface_tags_read_back(none, name, "TIN"@);
        assert(none.push(pair_record(XDATA_SURFACE@, name, "TIN"@)) =~= entity_records(entity_data(e)));
    }
    lemma_no_whole(views, token);
    let nodes_found = distinct(end_points(views, token));
    assert forall|x: Bits| #[trigger] nodes_found.contains(x) <==> is_joined(nodes, edges, x) by {
        law_distinct(end_points(views, token));
        assert(end_points(views, token).contains(x) <==> nodes_found.contains(x));
        lemma_end_points(views, token, x);
        if is_end(views, token, x) {
            let i = choose|i: int|
                0 <= i < views.len() && (#[trigger] views[i]).is_edge(token) && (views[i].drawn->Line_0
                    == x || views[i].drawn->Line_1 == x);
            assert(edges[i] == edges[i]);
        }
        if is_joined(nodes, edges, x) {
            let i = choose|i: int|
                0 <= i < edges.len() && (bits(nodes[(#[trigger] edges[i]).0 as int]) == x || bits(
                    nodes[edges[i].1 as int],
                ) == x);
            assert(views[i].is_edge(token));
        }
    }
    law_distinct(end_points(views, token));
    assert(nodes_found.contains(p) && nodes_found.contains(q) && nodes_found.contains(r));
    let i = choose|i: int| 0 <= i < nodes_found.len() && nodes_found[i] == p;
    let j = choose|j: int| 0 <= j < nodes_found.len() && nodes_found[j] == q;
    let k = choose|k: int| 0 <= k < nodes_found.len() && nodes_found[k] == r;
    assert(i != j && i != k && j != k);
    assert(views[0].is_edge(token));
}

proof fn lemma_no_whole<P>(entities: Seq<EntityView<P>>, token: Seq<char>)
    requires
        forall|i: int| 0 <= i < entities.len() ==> (#[trigger] entities[i]).is_edge(token),
    ensures
        first_whole(entities, token) == entities.len(),
    decreases entities.len(),
{
    if entities.len() > 0 {
        let rest = entities.skip(1);
        assert(entities[0].is_edge(token));
        assert forall|i: int| 0 <= i < rest.len() implies (#[trigger] rest[i]).is_edge(token) by {
            assert(rest[i] == entities[i + 1]);
        }
        lemma_no_whole(rest, token);
    }
}

/// The names of the session come first among the known names, every name that the
/// drawing tags a triangulation with is among them but for its case, and no two of
/// them differ in case alone unless two of the session do.
pub proof fn law_known_names(session: Seq<Seq<char>>, tags: Seq<Option<(Seq<char>, Seq<char>)>>)
    ensures
        ({
            let known = known_names(session, tags);
            &&& session.len() <= known.len()
            &&& known.take(session.len() as int) == session
            &&& forall|i: int|
                0 <= i < tags.len() ==> (#[trigger] tags[i] matches Some((name, kind)) ==> kind == "TIN"@
                    ==> mentions(known, name))
            &&& forall|i: int, j: int|
                0 <= i < j < known.len() && session.len() <= j ==> !same_but_case(
                    #[trigger] known[i],
                    #[trigger] known[j],
                )
        }),
    decreases tags.len(),
{
    let known = known_names(session, tags);
    if tags.len() == 0 {
        assert(known.take(session.len() as int) =~= session);
    } else {
        let before = known_names(session, tags.drop_last());
        law_known_names(session, tags.drop_last());
        assert(known.take(session.len() as int) =~= before.take(session.len() as int));
        assert forall|i: int| 0 <= i < tags.len() implies (#[trigger] tags[i] matches Some((name, kind))
            ==> kind == "TIN"@ ==> mentions(known, name)) by {
            if let Some((name, kind)) = tags[i] {
                if kind == "TIN"@ {
                    if i < tags.len() - 1 {
                        assert(tags.drop_last()[i] == tags[i]);
                    }
                    if mentions(before, name) {
                        let k = choose|k: int| 0 <= k < before.len() && same_but_case(#[trigger] before[k], name);
                        assert(known[k] == before[k]);
                    } else {
                        assert(known[before.len() as int] == name);
                    }
                }
            }
        }
        assert forall|i: int, j: int| 0 <= i < j < known.len() && session.len() <= j implies !same_but_case(
            #[trigger] known[i],
            #[trigger] known[j],
        ) by {
            if j < before.len() {
                assert(before[i] == known[i] && before[j] == known[j]);
            } else {
                assert(known[i] == before[i]);
            }
        }
    }
}

/// What is no part of a surface: an entity without a tag, one of another kind than
/// `TIN`, one that is tagged with another name, and one that is neither a line nor a
/// mesh with nodes and triangles. Any other is part of it.
pub proof fn law_what_is_part_of_a_surface<P>(e: EntityView<P>, token: Seq<char>)
    ensures
        is_part(e, token) <==> {
            &&& e.tag matches Some((name, kind)) && kind == "TIN"@ && same_but_case(name, token)
            &&& match e.drawn {
                DrawnView::Mesh(nodes, triangles) => nodes.len() > 0 && triangles.len() > 0,
                DrawnView::Line(_, _) => true,
                DrawnView::Other => false,
            }
        },
{
}

/// Nothing is found of a surface if and only if no mesh is it and its edges have fewer
/// than three ends; a mesh is found before any edges.
pub proof fn law_when_a_surface_is_found<P>(entities: Seq<EntityView<P>>, token: Seq<char>)
    ensures
        found_in(entities, token) is Mesh <==> exists|i: int|
            0 <= i < entities.len() && (#[trigger] entities[i]).is_whole(token),
        found_in(entities, token) is Nothing <==> !(exists|i: int|
            0 <= i < entities.len() && (#[trigger] entities[i]).is_whole(token)) && !(exists|
            p: Bits,
            q: Bits,
            r: Bits,
        |
            p != q && p != r && q != r && #[trigger] is_end(entities, token, p) && #[trigger] is_end(
                entities,
                token,
                q,
            ) && #[trigger] is_end(entities, token, r)),
{
    lemma_some_whole(entities, token);
    let ends = end_points(entities, token);
    let nodes = distinct(ends);
    law_distinct(ends);
    assert forall|p: Bits| #[trigger] nodes.contains(p) <==> is_end(entities, token, p) by {
        lemma_end_points(entities, token, p);
        assert(ends.contains(p) <==> nodes.contains(p));
    }
    if nodes.len() >= 3 {
        let (p, q, r) = (nodes[0], nodes[1], nodes[2]);
        assert(nodes.contains(p) && nodes.contains(q) && nodes.contains(r));
        assert(is_end(entities, token, p) && is_end(entities, token, q) && is_end(entities, token, r));
    }
    if exists|p: Bits, q: Bits, r: Bits|
        p != q && p != r && q != r && #[trigger] is_end(entities, token, p) && #[trigger] is_end(
            entities,
            token,
            q,
        ) && #[trigger] is_end(entities, token, r) {
        let (p, q, r) = choose|p: Bits, q: Bits, r: Bits|
            p != q && p != r && q != r && #[trigger] is_end(entities, token, p) && #[trigger] is_end(
                entities,
                token,
                q,
            ) && #[trigger] is_end(entities, token, r);
        assert(nodes.contains(p) && nodes.contains(q) && nodes.contains(r));
        let i = choose|i: int| 0 <= i < nodes.len() && nodes[i] == p;
        let j = choose|j: int| 0 <= j < nodes.len() && nodes[j] == q;
        let k = choose|k: int| 0 <= k < nodes.len() && nodes[k] == r;
        assert(i != j && i != k && j != k);
    }
}

proof fn lemma_some_whole<P>(entities: Seq<EntityView<P>>, token: Seq<char>)
    ensures
        0 <= first_whole(entities, token) <= entities.len(),
        first_whole(entities, token) < entities.len() <==> exists|i: int|
            0 <= i < entities.len() && (#[trigger] entities[i]).is_whole(token),
    decreases entities.len(),
{
    if entities.len() > 0 {
        let rest = entities.skip(1);
        lemma_some_whole(rest, token);
        if entities[0].is_whole(token) {
        } else {
            if exists|i: int| 0 <= i < entities.len() && (#[trigger] entities[i]).is_whole(token) {
                let i = choose|i: int| 0 <= i < entities.len() && (#[trigger] entities[i]).is_whole(token);
                assert(rest[i - 1] == entities[i]);
            }
            if exists|i: int| 0 <= i < rest.len() && (#[trigger] rest[i]).is_whole(token) {
                let i = choose|i: int| 0 <= i < rest.len() && (#[trigger] rest[i]).is_whole(token);
                assert(entities[i + 1] == rest[i]);
            }
        }
    }
}

/// A surface that is found by its edges is called as the first of them is.
pub proof fn law_edges_are_called_by_the_first<P>(
    entities: Seq<EntityView<P>>,
    token: Seq<char>,
    i: int,
)
    requires
        0 <= i < entities.len(),
        entities[i].is_edge(token),
        forall|j: int| 0 <= j < i ==> !(#[trigger] entities[j]).is_edge(token),
    ensures
        found_in(entities, token) matches FoundView::Edges(name, _) ==> name == entities[i].tag_name(),
{
    lemma_first_edge(entities, token, i);
}

proof fn lemma_first_edge<P>(entities: Seq<EntityView<P>>, token: Seq<char>, i: int)
    requires
        0 <= i < entities.len(),
        entities[i].is_edge(token),
        forall|j: int| 0 <= j < i ==> !(#[trigger] entities[j]).is_edge(token),
    ensures
        edge_name(entities, token) == Some(entities[i].tag_name()),
    decreases entities.len(),
{
    if i > 0 {
        let rest = entities.skip(1);
        assert(!entities[0].is_edge(token));
        assert(rest[i - 1] == entities[i]);
        assert forall|j: int| 0 <= j < i - 1 implies !(#[trigger] rest[j]).is_edge(token) by {
            assert(rest[j] == entities[j + 1]);
        }
        lemma_first_edge(rest, token, i - 1);
    }
}

/// The ends of edges come in the order of the edges, and of an edge its start comes
/// before its end.
pub proof fn law_ends_come_in_order<P>(
    a: Seq<EntityView<P>>,
    e: EntityView<P>,
    b: Seq<EntityView<P>>,
    token: Seq<char>,
)
    ensures
        end_points(a + b, token) == end_points(a, token) + end_points(b, token),
        end_points(seq![e], token) == (match e.drawn {
            DrawnView::Line(p, q) if e.is_of(token) => seq![p, q],
            _ => Seq::empty(),
        }),
    decreases b.len(),
{
    if b.len() == 0 {
        assert(a + b =~= a);
        assert(end_points(a, token) + end_points(b, token) =~= end_points(a, token));
    } else {
        law_ends_come_in_order(a, e, b.drop_last(), token);
        assert((a + b).drop_last() =~= a + b.drop_last());
        assert((a + b).last() == b.last());
        assert(end_points(a + b, token) =~= end_points(a, token) + end_points(b, token));
    }
    let none: Seq<EntityView<P>> = Seq::empty();
    assert(seq![e].drop_last() =~= none);
    assert(end_points(none, token) =~= Seq::empty());
    assert(seq![e].last() == e);
    if let DrawnView::Line(p, q) = e.drawn {
        assert(Seq::<Bits>::empty().push(p).push(q) =~= seq![p, q]);
    }
}

/// The triangles of a mesh are its faces of three corners that exist, in order and
/// with their corners in order; any other face is left out.
pub proof fn law_triangles_are_faces_of_three_nodes(
    a: Seq<Seq<usize>>,
    face: Seq<usize>,
    b: Seq<Seq<usize>>,
    n: nat,
)
    ensures
        triangles_of(a + b, n) == triangles_of(a, n) + triangles_of(b, n),
        face.len() == 3 && (forall|i: int| 0 <= i < 3 ==> (#[trigger] face[i]) < n) ==> triangles_of(
            seq![face],
            n,
        ) == seq![(face[0], face[1], face[2])],
        face.len() != 3 ==> triangles_of(seq![face], n).len() == 0,
        (exists|i: int| 0 <= i < face.len() && (#[trigger] face[i]) >= n) ==> triangles_of(
            seq![face],
            n,
        ).len() == 0,
    decreases b.len(),
{
    if b.len() == 0 {
        assert(a + b =~= a);
        assert(triangles_of(a, n) + triangles_of(b, n) =~= triangles_of(a, n));
    } else {
        law_triangles_are_faces_of_three_nodes(a, face, b.drop_last(), n);
        assert((a + b).drop_last() =~= a + b.drop_last());
        assert((a + b).last() == b.last());
        assert(triangles_of(a + b, n) =~= triangles_of(a, n) + triangles_of(b, n));
    }
    let none: Seq<Seq<usize>> = Seq::empty();
    assert(seq![face].drop_last() =~= none);
    assert(triangles_of(none, n) =~= Seq::empty());
    assert(seq![face].last() == face);
    assert(triangles_of(seq![face], n) =~= if is_triangle(face, n) {
        seq![(face[0], face[1], face[2])]
    } else {
        Seq::empty()
    });
    if face.len() == 3 && (forall|i: int| 0 <= i < 3 ==> (#[trigger] face[i]) < n) {
        assert(face[0] < n && face[1] < n && face[2] < n);
    }
}

/// The nodes of a surface from points are the points, one by one: easting, northing
/// and elevation are the three coordinates.
pub proof fn law_points_are_nodes(points: Seq<Record>, i: int)
    requires
        0 <= i < points.len(),
    ensures
        nodes_of(points).len() == points.len(),
        nodes_of(points)[i] == vector_of(points[i].easting, points[i].northing, points[i].elevation),
{
}

/// A surface that can be had by name is one of the session or is drawn: nothing else
/// is among the known names.
pub proof fn law_known_names_are_drawn_or_kept(
    session: Seq<Seq<char>>,
    tags: Seq<Option<(Seq<char>, Seq<char>)>>,
    name: Seq<char>,
)
    requires
        known_names(session, tags).contains(name),
    ensures
        session.contains(name) || exists|i: int|
            0 <= i < tags.len() && #[trigger] tags[i] == Some((name, "TIN"@)),
    decreases tags.len(),
{
    if tags.len() > 0 {
        let before = known_names(session, tags.drop_last());
        let known = known_names(session, tags);
        let k = choose|k: int| 0 <= k < known.len() && known[k] == name;
        if before.contains(name) {
            law_known_names_are_drawn_or_kept(session, tags.drop_last(), name);
            if !session.contains(name) {
                let i = choose|i: int|
                    0 <= i < tags.drop_last().len() && #[trigger] tags.drop_last()[i] == Some((name, "TIN"@));
                assert(tags[i] == Some((name, "TIN"@)));
            }
        } else {
            if k < before.len() {
                assert(before[k] == name);
            }
            assert(tags[tags.len() - 1] == Some((name, "TIN"@)));
        }
    }
}

} // verus!
