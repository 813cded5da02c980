//! Surfaces: how they are kept in a drawing and found there again.

use std::collections::HashMap;

use acadrust::entities::Mesh;
use acadrust::{CadDocument, EntityType, Vector3};
use vstd::prelude::*;

use crate::entities::{
    bits_of, data_of, document_entities, entities_in, entity_data, entity_line, entity_mesh,
    faces_in, faces_of, index_views, line_of, mesh_data, mesh_faces, mesh_of, mesh_vertices, new_mesh,
    referred, vector, vector_bits, vector_of, vertices_in,
};
use crate::lists::distinct;
use crate::pnezd::{parse, pnezd_format, read_text, records_of, ParseOutcome, Record};
use crate::records::{entity_records, surface_tag, surface_tag_of};
use crate::requests::{has_word, mentions};
use crate::text::{
    decimal, decimal_text, lemma_views_push, same, same_but_case, same_ignoring_case, views,
};

verus! {

broadcast use vstd::std_specs::hash::group_hash_axioms;

/// A triangulated surface: nodes and the indices of the corners of its triangles.
#[derive(Debug, Clone, PartialEq)]
pub struct Surface<P> {
    pub nodes: Vec<P>,
    pub triangles: Vec<(usize, usize, usize)>,
}

/// Makes the mesh of a surface.
pub fn mesh_from_surface(surf: &Surface<Vector3>) -> (m: Mesh)
    ensures
        mesh_vertices(m) == surf.nodes@,
        mesh_faces(m) == faces_of(surf.triangles@),
        entity_records(mesh_data(m)).len() == 0,
{
    new_mesh(&surf.nodes, &surf.triangles)
}

/// A face that is a triangle of existing nodes.
pub open spec fn is_triangle(face: Seq<usize>, n: nat) -> bool {
    face.len() == 3 && face[0] < n && face[1] < n && face[2] < n
}

/// The triangles among some faces.
pub open spec fn triangles_of(faces: Seq<Seq<usize>>, n: nat) -> Seq<(usize, usize, usize)>
    decreases faces.len(),
{
    if faces.len() == 0 {
        Seq::empty()
    } else {
        let before = triangles_of(faces.drop_last(), n);
        let f = faces.last();
        if is_triangle(f, n) {
            before.push((f[0], f[1], f[2]))
        } else {
            before
        }
    }
}

/// Makes the surface of a mesh. Faces that are no triangles, and faces with a
/// corner that does not exist, are left out.
pub fn surface_from_mesh(m: &Mesh) -> (s: Surface<Vector3>)
    ensures
        s.nodes@ == mesh_vertices(*m),
        s.triangles@ == triangles_of(mesh_faces(*m), mesh_vertices(*m).len()),
{
    let nodes = vertices_in(m);
    let faces = faces_in(m);
    let ghost all = mesh_faces(*m);
    let n = nodes.len();
    let mut triangles: Vec<(usize, usize, usize)> = Vec::new();
    let mut i: usize = 0;
    assert(all.take(0) =~= Seq::empty());
    while i < faces.len()
        invariant
            i <= faces.len(),
            index_views(faces@) == all,
            triangles@ == triangles_of(all.take(i as int), n as nat),
        decreases faces.len() - i,
    {
        let f = &faces[i];
        proof {
            assert(all.take(i + 1).drop_last() =~= all.take(i as int));
            assert(all.take(i + 1).last() == f@);
        }
        if f.len() == 3 && f[0] < n && f[1] < n && f[2] < n {
            triangles.push((f[0], f[1], f[2]));
        }
        i += 1;
    }
    assert(all.take(i as int) =~= all);
    Surface { nodes, triangles }
}

/// A surface whose triangles have existing corners comes back from its mesh as it
/// was.
pub proof fn law_meshes_keep_surfaces(triangles: Seq<(usize, usize, usize)>, n: nat)
    requires
        forall|i: int|
            0 <= i < triangles.len() ==> {
                let t = #[trigger] triangles[i];
                t.0 < n && t.1 < n && t.2 < n
            },
    ensures
        triangles_of(faces_of(triangles), n) == triangles,
    decreases triangles.len(),
{
    if triangles.len() > 0 {
        let before = triangles.drop_last();
        assert forall|i: int| 0 <= i < before.len() implies {
            let t = #[trigger] before[i];
            t.0 < n && t.1 < n && t.2 < n
        } by {
            assert(before[i] == triangles[i]);
        }
        law_meshes_keep_surfaces(before, n);
        assert(faces_of(triangles).drop_last() =~= faces_of(before));
        let t = triangles[triangles.len() - 1];
        assert(faces_of(triangles).last() =~= seq![t.0, t.1, t.2]);
        assert(triangles_of(faces_of(triangles), n) =~= triangles);
    }
}

/// The bit patterns of the coordinates of a point.
#[derive(Debug, Clone, Copy, PartialEq, Eq, Structural)]
pub struct Bits {
    pub x: u64,
    pub y: u64,
    pub z: u64,
}

/// What an entity of the drawing is to the search for a surface.
#[derive(Debug, PartialEq)]
pub enum Drawn<P> {
    /// A mesh, as a surface.
    Mesh(Surface<P>),
    /// A line, by the bit patterns of its end points.
    Line(Bits, Bits),
    Other,
}

/// An entity of the drawing: the surface's name and the kind that it is tagged
/// with, and what it is.
#[derive(Debug, PartialEq)]
pub struct Entity<P> {
    pub tag: Option<(String, String)>,
    pub drawn: Drawn<P>,
}

/// What an entity is, as sequences.
pub enum DrawnView<P> {
    Mesh(Seq<P>, Seq<(usize, usize, usize)>),
    Line(Bits, Bits),
    Other,
}

/// An entity as texts and sequences.
pub struct EntityView<P> {
    pub tag: Option<(Seq<char>, Seq<char>)>,
    pub drawn: DrawnView<P>,
}

/// The texts of an optional pair.
pub open spec fn pair_view(pair: Option<(String, String)>) -> Option<(Seq<char>, Seq<char>)> {
    match pair {
        Some((a, b)) => Some((a@, b@)),
        None => None,
    }
}

impl<P> View for Entity<P> {
    type V = EntityView<P>;

    open spec fn view(&self) -> EntityView<P> {
        EntityView {
            tag: pair_view(self.tag),
            drawn: match self.drawn {
                Drawn::Mesh(s) => DrawnView::Mesh(s.nodes@, s.triangles@),
                Drawn::Line(a, b) => DrawnView::Line(a, b),
                Drawn::Other => DrawnView::Other,
            },
        }
    }
}

/// Entities as texts and sequences.
pub open spec fn entity_views<P>(entities: Seq<Entity<P>>) -> Seq<EntityView<P>> {
    entities.map_values(|e: Entity<P>| e@)
}

impl<P> EntityView<P> {
    /// It belongs to the triangulation of the surface of a name.
    pub open spec fn is_of(self, token: Seq<char>) -> bool {
        match self.tag {
            Some((name, kind)) => kind == "TIN"@ && same_but_case(name, token),
            None => false,
        }
    }

    /// The name of the surface that it is tagged with.
    pub open spec fn tag_name(self) -> Seq<char> {
        match self.tag {
            Some((name, _)) => name,
            None => Seq::empty(),
        }
    }

    /// It is a mesh that is the whole surface of a name.
    pub open spec fn is_whole(self, token: Seq<char>) -> bool {
        match self.drawn {
            DrawnView::Mesh(nodes, triangles) => self.is_of(token) && nodes.len() > 0
                && triangles.len() > 0,
            _ => false,
        }
    }

    /// It is an edge of the surface of a name.
    pub open spec fn is_edge(self, token: Seq<char>) -> bool {
        self.drawn is Line && self.is_of(token)
    }
}

/// The first entity that is the whole surface of a name; the number of entities
/// if there is none.
pub open spec fn first_whole<P>(entities: Seq<EntityView<P>>, token: Seq<char>) -> int
    decreases entities.len(),
{
    if entities.len() == 0 || entities[0].is_whole(token) {
        0
    } else {
        1 + first_whole(entities.skip(1), token)
    }
}

/// The end points of the edges of the surface of a name, in order.
pub open spec fn end_points<P>(entities: Seq<EntityView<P>>, token: Seq<char>) -> Seq<Bits>
    decreases entities.len(),
{
    if entities.len() == 0 {
        Seq::empty()
    } else {
        let before = end_points(entities.drop_last(), token);
        let e = entities.last();
        if e.is_edge(token) {
            before.push(e.drawn->Line_0).push(e.drawn->Line_1)
        } else {
            before
        }
    }
}

/// The name on the first edge of the surface of a name, as it is written there.
pub open spec fn edge_name<P>(entities: Seq<EntityView<P>>, token: Seq<char>) -> Option<Seq<char>>
    decreases entities.len(),
{
    if entities.len() == 0 {
        None
    } else if entities[0].is_edge(token) {
        Some(entities[0].tag_name())
    } else {
        edge_name(entities.skip(1), token)
    }
}

/// The points of a triangulation so far, with an index to tell known ones.
struct Nodes {
    list: Vec<Bits>,
    height: HashMap<u128, u64>,
}

/// The place of a point in the plan as one number.
spec fn place(p: Bits) -> int {
    p.x * 0x1_0000_0000_0000_0000 + p.y
}

impl Nodes {
    spec fn wf(self) -> bool {
        &&& forall|i: int|
            0 <= i < self.list@.len() ==> self.height@.contains_key(
                place(#[trigger] self.list@[i]) as u128,
            )
        &&& forall|k: u128| #[trigger]
            self.height@.contains_key(k) ==> exists|i: int|
                0 <= i < self.list@.len() && place(#[trigger] self.list@[i]) == k && self.list@[i].z
                    == self.height@[k]
    }

    /// Adds a point unless it is known.
    fn add(&mut self, p: Bits)
        requires
            old(self).wf(),
        ensures
            final(self).wf(),
            final(self).list@ == (if old(self).list@.contains(p) {
                old(self).list@
            } else {
                old(self).list@.push(p)
            }),
    {
        let key: u128 = p.x as u128 * 0x1_0000_0000_0000_0000 + p.y as u128;
        let ghost before = self.list@;
        let ghost known = self.height@;
        assert(key == place(p));
        match self.height.get(&key) {
            Some(z) => {
                if *z == p.z {
                    proof {
                        let i = choose|i: int|
                            0 <= i < before.len() && place(#[trigger] before[i]) == key && before[i].z
                                == known[key];
                        assert(before[i] == p);
                    }
                    return ;
                }
                let mut i: usize = 0;
                while i < self.list.len()
                    invariant
                        i <= self.list.len(),
                        self.list@ == before,
                        self.height@ == known,
                        self.wf(),
                        forall|j: int| 0 <= j < i ==> before[j] != p,
                    decreases self.list.len() - i,
                {
                    let q = self.list[i];
                    if q == p {
                        assert(before[i as int] == p);
                        return ;
                    }
                    i += 1;
                }
            },
            None => {
                proof {
                    if before.contains(p) {
                        let i = choose|i: int| 0 <= i < before.len() && before[i] == p;
                        assert(known.contains_key(place(before[i]) as u128));
                    }
                }
                self.height.insert(key, p.z);
            },
        }
        assert(!before.contains(p));
        self.list.push(p);
        proof {
            let now = self.list@;
            assert forall|k: u128| #[trigger] self.height@.contains_key(k) implies exists|i: int|
                0 <= i < now.len() && place(#[trigger] now[i]) == k && now[i].z == self.height@[k] by {
                if known.contains_key(k) {
                    let i = choose|i: int|
                        0 <= i < before.len() && place(#[trigger] before[i]) == k && before[i].z
                            == known[k];
                    assert(now[i] == before[i]);
                } else {
                    assert(now[before.len() as int] == p);
                }
            }
            assert forall|i: int| 0 <= i < now.len() implies self.height@.contains_key(
                place(#[trigger] now[i]) as u128,
            ) by {
                if i < before.len() {
                    assert(now[i] == before[i]);
                }
            }
        }
    }
}

/// What a search for a surface in the drawing finds.
#[derive(Debug, PartialEq)]
pub enum Found<P> {
    /// A mesh that is the surface: its name and what it holds.
    Mesh(String, Surface<P>),
    /// Edges of the surface: its name and the nodes to triangulate.
    Edges(String, Vec<Bits>),
    Nothing,
}

/// What a search finds, as sequences.
pub enum FoundView<P> {
    Mesh(Seq<char>, Seq<P>, Seq<(usize, usize, usize)>),
    Edges(Seq<char>, Seq<Bits>),
    Nothing,
}

impl<P> View for Found<P> {
    type V = FoundView<P>;

    open spec fn view(&self) -> FoundView<P> {
        match self {
            Found::Mesh(name, s) => FoundView::Mesh(name@, s.nodes@, s.triangles@),
            Found::Edges(name, nodes) => FoundView::Edges(name@, nodes@),
            Found::Nothing => FoundView::Nothing,
        }
    }
}

/// What a search for the surface of a name finds: the first mesh that is the
/// surface, or else the distinct end points of its edges where there are three or
/// more of them.
pub open spec fn found_in<P>(entities: Seq<EntityView<P>>, token: Seq<char>) -> FoundView<P> {
    let k = first_whole(entities, token);
    let nodes = distinct(end_points(entities, token));
    if k < entities.len() {
        let e = entities[k];
        FoundView::Mesh(e.tag_name(), e.drawn->Mesh_0, e.drawn->Mesh_1)
    } else if nodes.len() >= 3 {
        FoundView::Edges(edge_name(entities, token)->0, nodes)
    } else {
        FoundView::Nothing
    }
}

/// Tests whether an entity belongs to the triangulation of a surface.
fn belongs<P>(e: &Entity<P>, token: &str) -> (r: bool)
    ensures
        r == e@.is_of(token@),
{
    match &e.tag {
        Some((name, kind)) => same(kind.as_str(), "TIN") && same_ignoring_case(name.as_str(), token),
        None => false,
    }
}

/// Copies the nodes and the triangles of a surface.
fn copy_surface<P: Copy>(s: &Surface<P>) -> (r: Surface<P>)
    ensures
        r.nodes@ == s.nodes@,
        r.triangles@ == s.triangles@,
{
    let mut nodes: Vec<P> = Vec::new();
    let mut triangles: Vec<(usize, usize, usize)> = Vec::new();
    let mut i: usize = 0;
    while i < s.nodes.len()
        invariant
            i <= s.nodes.len(),
            nodes@ == s.nodes@.take(i as int),
        decreases s.nodes.len() - i,
    {
        nodes.push(s.nodes[i]);
        i += 1;
    }
    let mut j: usize = 0;
    while j < s.triangles.len()
        invariant
            j <= s.triangles.len(),
            triangles@ == s.triangles@.take(j as int),
        decreases s.triangles.len() - j,
    {
        triangles.push(s.triangles[j]);
        j += 1;
    }
    Surface { nodes, triangles }
}

/// Finds the surface of a name, whatever its case, among entities.
pub fn find_surface<P: Copy>(entities: &Vec<Entity<P>>, token: &str) -> (r: Found<P>)
    ensures
        r@ == found_in(entity_views(entities@), token@),
{
    let ghost all = entity_views(entities@);
    let mut i: usize = 0;
    assert(all.skip(0) =~= all);
    while i < entities.len()
        invariant
            i <= entities.len(),
            all == entity_views(entities@),
            i + first_whole(all.skip(i as int), token@) == first_whole(all, token@),
        decreases entities.len() - i,
    {
        let e = &entities[i];
        proof {
            assert(all.skip(i as int)[0] == e@);
            assert(all.skip(i as int).skip(1) =~= all.skip(i + 1));
        }
        if let Drawn::Mesh(s) = &e.drawn {
            if belongs(e, token) && s.nodes.len() > 0 && s.triangles.len() > 0 {
                if let Some((name, _)) = &e.tag {
                    return Found::Mesh(name.clone(), copy_surface(s));
                }
            }
        }
        i += 1;
    }
    let mut nodes = Nodes { list: Vec::new(), height: HashMap::new() };
    let mut name: Option<String> = None;
    let mut j: usize = 0;
    assert(all.take(0) =~= Seq::empty());
    while j < entities.len()
        invariant
            j <= entities.len(),
            all == entity_views(entities@),
            nodes.wf(),
            nodes.list@ == distinct(end_points(all.take(j as int), token@)),
            match name {
                Some(n) => edge_name(all, token@) == Some(n@),
                None => edge_name(all, token@) == edge_name(all.skip(j as int), token@)
                    && nodes.list@.len() == 0,
            },
        decreases entities.len() - j,
    {
        let e = &entities[j];
        proof {
            assert(all.skip(j as int)[0] == e@);
            assert(all.skip(j as int).skip(1) =~= all.skip(j + 1));
            assert(all.take(j + 1).drop_last() =~= all.take(j as int));
            assert(all.take(j + 1).last() == e@);
        }
        if let Drawn::Line(a, b) = &e.drawn {
            if belongs(e, token) {
                let ghost before = end_points(all.take(j as int), token@);
                let ghost one = before.push(*a);
                nodes.add(*a);
                proof {
                    assert(one.drop_last() =~= before);
                    assert(nodes.list@ == distinct(one));
                    assert(one.push(*b).drop_last() =~= one);
                }
                nodes.add(*b);
                if name.is_none() {
                    if let Some((n, _)) = &e.tag {
                        name = Some(n.clone());
                    }
                }
            }
        }
        j += 1;
    }
    assert(all.take(j as int) =~= all);
    if nodes.list.len() >= 3 {
        if let Some(name) = name {
            return Found::Edges(name, nodes.list);
        }
    }
    Found::Nothing
}

/// What an entity of the drawing is to the search for a surface: its tag, and the
/// geometry of a mesh or of a line.
pub open spec fn searched(e: EntityType) -> EntityView<Vector3> {
    EntityView {
        tag: surface_tag_of(entity_records(entity_data(e))),
        drawn: match entity_mesh(e) {
            Some((vertices, faces)) => DrawnView::Mesh(
                vertices,
                triangles_of(faces, vertices.len()),
            ),
            None => match entity_line(e) {
                Some((a, b)) => DrawnView::Line(bits(a), bits(b)),
                None => DrawnView::Other,
            },
        },
    }
}

/// The bit patterns of a point's coordinates.
pub open spec fn bits(v: Vector3) -> Bits {
    let b = vector_bits(v);
    Bits { x: b.0, y: b.1, z: b.2 }
}

/// What the entities of a drawing are to the search for a surface.
pub open spec fn searched_all(entities: Seq<EntityType>) -> Seq<EntityView<Vector3>> {
    entities.map_values(|e: EntityType| searched(e))
}

/// Reads the bit patterns of a point's coordinates.
fn read_bits(v: &Vector3) -> (r: Bits)
    ensures
        r == bits(*v),
{
    let b = bits_of(v);
    Bits { x: b.0, y: b.1, z: b.2 }
}

/// Reads from an entity what the search for a surface needs.
fn search(e: &EntityType) -> (r: Entity<Vector3>)
    ensures
        r@ == searched(*e),
{
    let tag = surface_tag(data_of(e));
    let drawn = match mesh_of(e) {
        Some(m) => Drawn::Mesh(surface_from_mesh(m)),
        None => match line_of(e) {
            Some((a, b)) => Drawn::Line(read_bits(&a), read_bits(&b)),
            None => Drawn::Other,
        },
    };
    Entity { tag, drawn }
}

/// Finds the surface of a name, whatever its case, in the geometry that a drawing
/// holds for it.
pub fn find_surface_in_document(doc: &CadDocument, token: &str) -> (r: Found<Vector3>)
    ensures
        r@ == found_in(searched_all(document_entities(*doc)), token@),
{
    let list = entities_in(doc);
    let ghost all = document_entities(*doc);
    let mut entities: Vec<Entity<Vector3>> = Vec::new();
    let mut i: usize = 0;
    while i < list.len()
        invariant
            i <= list.len(),
            referred(list@) == all,
            entity_views(entities@) =~= searched_all(all).take(i as int),
        decreases list.len() - i,
    {
        let e = search(list[i]);
        let ghost before = entities@;
        entities.push(e);
        proof {
            assert(referred(list@)[i as int] == *list@[i as int]);
            assert(entity_views(entities@) =~= entity_views(before).push(e@));
            assert(searched_all(all).take(i + 1) =~= searched_all(all).take(i as int).push(e@));
        }
        i += 1;
    }
    assert(searched_all(all).take(i as int) =~= searched_all(all));
    find_surface(&entities, token)
}

// ---------------------------------------------------------------------------
// Names
// ---------------------------------------------------------------------------

/// The names and the kinds that entities are tagged with.
pub open spec fn tag_views(tags: Seq<Option<(String, String)>>) -> Seq<Option<(Seq<char>, Seq<char>)>> {
    tags.map_values(|t: Option<(String, String)>| pair_view(t))
}

/// The tags of the entities of a drawing.
pub open spec fn tags_of(entities: Seq<EntityType>) -> Seq<Option<(Seq<char>, Seq<char>)>> {
    entities.map_values(|e: EntityType| surface_tag_of(entity_records(entity_data(e))))
}

/// The surfaces that can be had by name: those of the session, and behind them
/// those that the drawing holds, each under the first of the names that differ in
/// case alone.
pub open spec fn known_names(
    session: Seq<Seq<char>>,
    tags: Seq<Option<(Seq<char>, Seq<char>)>>,
) -> Seq<Seq<char>>
    decreases tags.len(),
{
    if tags.len() == 0 {
        session
    } else {
        let before = known_names(session, tags.drop_last());
        match tags.last() {
            Some((name, kind)) => if kind == "TIN"@ && !mentions(before, name) {
                before.push(name)
            } else {
                before
            },
            None => before,
        }
    }
}

/// Copies some texts.
fn copied(v: &Vec<String>) -> (r: Vec<String>)
    ensures
        views(r@) == views(v@),
{
    let mut r: Vec<String> = Vec::new();
    let mut i: usize = 0;
    while i < v.len()
        invariant
            i <= v.len(),
            views(r@) =~= views(v@).take(i as int),
        decreases v.len() - i,
    {
        let s = v[i].clone();
        proof {
            lemma_views_push(r@, s);
        }
        r.push(s);
        i += 1;
    }
    assert(views(v@).take(i as int) =~= views(v@));
    r
}

/// Lists the surfaces that can be had by name, from the names of the session and
/// the tags in the drawing.
pub fn names_known(session: &Vec<String>, tags: &Vec<Option<(String, String)>>) -> (r: Vec<String>)
    ensures
        views(r@) == known_names(views(session@), tag_views(tags@)),
{
    let ghost all = tag_views(tags@);
    let mut names = copied(session);
    let mut i: usize = 0;
    assert(all.take(0) =~= Seq::empty());
    while i < tags.len()
        invariant
            i <= tags.len(),
            all == tag_views(tags@),
            views(names@) == known_names(views(session@), all.take(i as int)),
        decreases tags.len() - i,
    {
        proof {
            assert(all.take(i + 1).drop_last() =~= all.take(i as int));
            assert(all.take(i + 1).last() == pair_view(tags@[i as int]));
        }
        if let Some((name, kind)) = &tags[i] {
            if same(kind.as_str(), "TIN") && !has_word(&names, name.as_str()) {
                let s = name.clone();
                proof {
                    lemma_views_push(names@, s);
                }
                names.push(s);
            }
        }
        i += 1;
    }
    assert(all.take(i as int) =~= all);
    names
}

/// Lists the surfaces that can be had by name, in a session with a drawing.
pub fn known_surface_names(session: &Vec<String>, doc: &CadDocument) -> (r: Vec<String>)
    ensures
        views(r@) == known_names(views(session@), tags_of(document_entities(*doc))),
{
    let list = entities_in(doc);
    let ghost all = tags_of(document_entities(*doc));
    let mut tags: Vec<Option<(String, String)>> = Vec::new();
    let mut i: usize = 0;
    while i < list.len()
        invariant
            i <= list.len(),
            referred(list@) == document_entities(*doc),
            all == tags_of(document_entities(*doc)),
            tag_views(tags@) =~= all.take(i as int),
        decreases list.len() - i,
    {
        let tag = surface_tag(data_of(list[i]));
        let ghost before = tags@;
        tags.push(tag);
        proof {
            assert(referred(list@)[i as int] == *list@[i as int]);
            assert(tag_views(tags@) =~= tag_views(before).push(pair_view(tag)));
            assert(all.take(i + 1) =~= all.take(i as int).push(pair_view(tag)));
        }
        i += 1;
    }
    assert(all.take(i as int) =~= all);
    names_known(session, &tags)
}

// ---------------------------------------------------------------------------
// Where a surface comes from
// ---------------------------------------------------------------------------

/// The next step towards the surface of a name.
#[derive(Debug, PartialEq)]
pub enum Step<P> {
    /// This is the surface.
    Done(Surface<P>),
    /// This is the surface, to be kept for the session under a name.
    Keep(String, Surface<P>),
    /// These nodes are to be triangulated, for the surface of a name.
    Triangulate(String, Vec<Bits>),
    /// The name is to be taken as the path of a file.
    Read,
}

/// Looks for the surface of a name: among those of the session, and else in the
/// drawing. One that is in neither is to be read from a file.
pub fn resolve_named_surface(
    stored: Option<Surface<Vector3>>,
    doc: &CadDocument,
    token: &str,
) -> (r: Step<Vector3>)
    ensures
        match stored {
            Some(s) => r == Step::Done(s),
            None => match found_in(searched_all(document_entities(*doc)), token@) {
                FoundView::Mesh(name, nodes, triangles) => r matches Step::Keep(n, s) && n@ == name
                    && s.nodes@ == nodes && s.triangles@ == triangles,
                FoundView::Edges(name, nodes) => r matches Step::Triangulate(n, v) && n@ == name && v@
                    == nodes,
                FoundView::Nothing => r is Read,
            },
        },
{
    if let Some(s) = stored {
        return Step::Done(s);
    }
    match find_surface_in_document(doc, token) {
        Found::Mesh(name, s) => Step::Keep(name, s),
        Found::Edges(name, nodes) => Step::Triangulate(name, nodes),
        Found::Nothing => Step::Read,
    }
}

/// Goes on when the nodes from the drawing have been triangulated: a surface
/// without triangles is to be read from a file.
pub fn triangulated<P>(name: String, s: Surface<P>) -> (r: Step<P>)
    ensures
        r == (if s.triangles@.len() > 0 {
            Step::Keep(name, s)
        } else {
            Step::Read
        }),
{
    if s.triangles.len() > 0 {
        Step::Keep(name, s)
    } else {
        Step::Read
    }
}

/// The nodes that the points of a file give a surface.
pub open spec fn nodes_of(points: Seq<Record>) -> Seq<Vector3> {
    points.map_values(|p: Record| vector_of(p.easting, p.northing, p.elevation))
}

/// Why a file does not have the points for a surface.
pub open spec fn too_few_points(path: Seq<char>, n: nat) -> Seq<char> {
    "\""@ + path + "\" has "@ + decimal(n) + " usable point(s); need at least 3 for a surface"@
}

/// Takes the nodes of a surface from the points of a file: easting, northing and
/// elevation are the three coordinates. A surface takes three points.
pub fn point_nodes(path: &str, outcome: &ParseOutcome) -> (r: Result<Vec<Vector3>, String>)
    requires
        outcome.wf(),
    ensures
        match r {
            Ok(nodes) => outcome.points@.len() >= 3 && nodes@ == nodes_of(records_of(outcome.points@)),
            Err(why) => outcome.points@.len() < 3 && why@ == too_few_points(
                path@,
                outcome.points@.len(),
            ),
        },
{
    let points = &outcome.points;
    if points.len() < 3 {
        return Err(
            "\"".to_string().concat(path).concat("\" has ").concat(
                decimal_text(points.len()).as_str(),
            ).concat(" usable point(s); need at least 3 for a surface"),
        );
    }
    let ghost all = nodes_of(records_of(points@));
    let mut nodes: Vec<Vector3> = Vec::new();
    let mut i: usize = 0;
    while i < points.len()
        invariant
            i <= points.len(),
            *points == outcome.points,
            outcome.wf(),
            all == nodes_of(records_of(points@)),
            nodes@ =~= all.take(i as int),
        decreases points.len() - i,
    {
        let p = &points[i];
        assert(points@.contains(points@[i as int]) && p.wf());
        nodes.push(vector(p.easting.text.as_str(), p.northing.text.as_str(), p.elevation.text.as_str()));
        i += 1;
    }
    assert(all.take(i as int) =~= all);
    Ok(nodes)
}

/// Reads the nodes of a surface from the text of a point file.
pub fn read_nodes(path: &str, text: &str) -> (r: Result<Vec<Vector3>, String>)
    ensures
        ({
            let points = read_text(text@, pnezd_format()).0;
            match r {
                Ok(nodes) => points.len() >= 3 && nodes@ == nodes_of(points),
                Err(why) => points.len() < 3 && why@ == too_few_points(path@, points.len()),
            }
        }),
{
    let outcome = parse(text);
    assert(records_of(outcome.points@).len() == outcome.points@.len());
    point_nodes(path, &outcome)
}

} // verus!
