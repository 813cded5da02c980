//! The entities of a drawing: how they are made and what is read from them.

use acadrust::entities::Mesh;
use acadrust::xdata::ExtendedData;
use acadrust::{CadDocument, EntityType, Line, Point, Vector3};
use vstd::prelude::*;

use crate::number::{double_of, Double};
use crate::records::entity_records;

verus! {

/// A point of three coordinates in the drawing.
#[verifier::external_type_specification]
#[verifier::external_body]
pub struct ExVector3(Vector3);

/// A mesh in the drawing.
#[verifier::external_type_specification]
#[verifier::external_body]
pub struct ExMesh(Mesh);

/// An entity of the drawing.
#[verifier::external_type_specification]
#[verifier::external_body]
pub struct ExEntityType(EntityType);

/// A drawing.
#[verifier::external_type_specification]
#[verifier::external_body]
pub struct ExCadDocument(CadDocument);

/// The entities of a drawing, in order, without the marks that begin and end its
/// blocks.
pub uninterp spec fn document_entities(doc: CadDocument) -> Seq<EntityType>;

/// The layer that an entity is on.
pub uninterp spec fn entity_layer(e: EntityType) -> Seq<char>;

/// The extended data of an entity.
pub uninterp spec fn entity_data(e: EntityType) -> ExtendedData;

/// Where an entity is, if it is a point.
pub uninterp spec fn entity_point(e: EntityType) -> Option<Vector3>;

/// The two ends of an entity, if it is a line.
pub uninterp spec fn entity_line(e: EntityType) -> Option<(Vector3, Vector3)>;

/// The vertices of a mesh, in order.
pub uninterp spec fn mesh_vertices(m: Mesh) -> Seq<Vector3>;

/// The faces of a mesh, in order: the indices of the corners of each.
pub uninterp spec fn mesh_faces(m: Mesh) -> Seq<Seq<usize>>;

/// The extended data of a mesh.
pub uninterp spec fn mesh_data(m: Mesh) -> ExtendedData;

/// The vertices and the faces of an entity, if it is a mesh.
pub uninterp spec fn entity_mesh(e: EntityType) -> Option<(Seq<Vector3>, Seq<Seq<usize>>)>;

/// The entities that a list refers to.
pub open spec fn referred(list: Seq<&EntityType>) -> Seq<EntityType> {
    list.map_values(|e: &EntityType| *e)
}

/// `CadDocument::entities` goes through the entities of a drawing in order.
#[verifier::external_body]
pub(crate) fn entities_in(doc: &CadDocument) -> (list: Vec<&EntityType>)
    ensures
        referred(list@) == document_entities(*doc),
{
    doc.entities().collect()
}

/// `EntityType::common` gives what all entities have, here the field
/// `extended_data`.
#[verifier::external_body]
pub(crate) fn data_of(e: &EntityType) -> (x: &ExtendedData)
    ensures
        *x == entity_data(*e),
{
    &e.common().extended_data
}

/// Where an entity is, if it is an `EntityType::Point`: its field `location`.
#[verifier::external_body]
pub(crate) fn point_of(e: &EntityType) -> (r: Option<Vector3>)
    ensures
        r == entity_point(*e),
{
    match e {
        EntityType::Point(p) => Some(p.location),
        _ => None,
    }
}

/// The ends of an entity, if it is an `EntityType::Line`: its fields `start` and
/// `end`.
#[verifier::external_body]
pub(crate) fn line_of(e: &EntityType) -> (r: Option<(Vector3, Vector3)>)
    ensures
        r == entity_line(*e),
{
    match e {
        EntityType::Line(l) => Some((l.start, l.end)),
        _ => None,
    }
}

/// The mesh that an entity is, if it is an `EntityType::Mesh`.
#[verifier::external_body]
pub(crate) fn mesh_of(e: &EntityType) -> (r: Option<&Mesh>)
    ensures
        match r {
            Some(m) => entity_mesh(*e) == Some((mesh_vertices(*m), mesh_faces(*m))),
            None => entity_mesh(*e) is None,
        },
{
    match e {
        EntityType::Mesh(m) => Some(m),
        _ => None,
    }
}

/// Triangles as faces of a mesh.
pub open spec fn faces_of(triangles: Seq<(usize, usize, usize)>) -> Seq<Seq<usize>> {
    triangles.map_values(|t: (usize, usize, usize)| seq![t.0, t.1, t.2])
}

/// `Mesh::from_triangles` makes a mesh of vertices and triangular faces, both in the
/// order given, without extended data.
#[verifier::external_body]
pub(crate) fn new_mesh(vertices: &Vec<Vector3>, triangles: &Vec<(usize, usize, usize)>) -> (m: Mesh)
    ensures
        mesh_vertices(m) == vertices@,
        mesh_faces(m) == faces_of(triangles@),
        entity_records(mesh_data(m)).len() == 0,
{
    Mesh::from_triangles(vertices.clone(), triangles)
}

/// The field `vertices` of a `Mesh`.
#[verifier::external_body]
pub(crate) fn vertices_in(m: &Mesh) -> (v: Vec<Vector3>)
    ensures
        v@ == mesh_vertices(*m),
{
    m.vertices.clone()
}

/// The lists of indices in a list of faces.
pub open spec fn index_views(f: Seq<Vec<usize>>) -> Seq<Seq<usize>> {
    f.map_values(|v: Vec<usize>| v@)
}

/// The field `faces` of a `Mesh`, face by face: the indices of its corners.
#[verifier::external_body]
pub(crate) fn faces_in(m: &Mesh) -> (f: Vec<Vec<usize>>)
    ensures
        index_views(f@) == mesh_faces(*m),
{
    m.faces.iter().map(|f| f.vertices.clone()).collect()
}

/// The bit patterns of the three coordinates of a point.
pub uninterp spec fn vector_bits(v: Vector3) -> (u64, u64, u64);

/// The bit patterns of the fields of a `Vector3`.
#[verifier::external_body]
pub(crate) fn bits_of(v: &Vector3) -> (r: (u64, u64, u64))
    ensures
        r == vector_bits(*v),
{
    (v.x.to_bits(), v.y.to_bits(), v.z.to_bits())
}

/// `Point::at` makes a point, which `EntityType::Point` makes an entity: one
/// without extended data.
#[verifier::external_body]
fn new_point(at: Vector3) -> (e: EntityType)
    ensures
        entity_point(e) == Some(at),
        entity_line(e) is None,
        entity_mesh(e) is None,
        entity_records(entity_data(e)).len() == 0,
{
    EntityType::Point(Point::at(at))
}

/// `Line::from_points` makes a line between two points, which `EntityType::Line`
/// makes an entity: one without extended data.
#[verifier::external_body]
fn new_line(start: Vector3, end: Vector3) -> (e: EntityType)
    ensures
        entity_line(e) == Some((start, end)),
        entity_point(e) is None,
        entity_mesh(e) is None,
        entity_records(entity_data(e)).len() == 0,
{
    EntityType::Line(Line::from_points(start, end))
}

/// `EntityType::Mesh` makes a mesh an entity with the same extended data.
#[verifier::external_body]
pub(crate) fn new_mesh_entity(m: Mesh) -> (e: EntityType)
    ensures
        entity_mesh(e) == Some((mesh_vertices(m), mesh_faces(m))),
        entity_data(e) == mesh_data(m),
        entity_point(e) is None,
        entity_line(e) is None,
{
    EntityType::Mesh(m)
}

/// `EntityType::common_mut` gives what all entities have to be changed, here the
/// field `layer` and nothing else.
#[verifier::external_body]
fn set_layer(e: &mut EntityType, layer: &str)
    ensures
        entity_layer(*final(e)) == layer@,
        entity_data(*final(e)) == entity_data(*old(e)),
        entity_point(*final(e)) == entity_point(*old(e)),
        entity_line(*final(e)) == entity_line(*old(e)),
        entity_mesh(*final(e)) == entity_mesh(*old(e)),
{
    e.common_mut().layer = layer.to_string();
}

/// The point whose coordinates are the doubles nearest to three decimals.
pub uninterp spec fn vector_of(x: Seq<char>, y: Seq<char>, z: Seq<char>) -> Vector3;

/// `Vector3::new` makes a point of three coordinates, here of those that are read
/// from three texts.
#[verifier::external_body]
pub(crate) fn vector(x: &str, y: &str, z: &str) -> (v: Vector3)
    requires
        double_of(x@) != Double::Malformed,
        double_of(y@) != Double::Malformed,
        double_of(z@) != Double::Malformed,
    ensures
        v == vector_of(x@, y@, z@),
{
    Vector3::new(x.parse().unwrap(), y.parse().unwrap(), z.parse().unwrap())
}

/// The coordinates of a point with three decimals.
pub uninterp spec fn vector_text(v: Vector3) -> (Seq<char>, Seq<char>, Seq<char>);

/// The third coordinate of a point with two decimals.
pub uninterp spec fn height_text(v: Vector3) -> Seq<char>;

/// `format!` writes the fields of a `Vector3` with three decimals.
#[verifier::external_body]
pub(crate) fn shown(v: &Vector3) -> (r: (String, String, String))
    ensures
        (r.0@, r.1@, r.2@) == vector_text(*v),
{
    (format!("{:.3}", v.x), format!("{:.3}", v.y), format!("{:.3}", v.z))
}

/// `format!` writes the field `z` of a `Vector3` with two decimals.
#[verifier::external_body]
pub(crate) fn shown_height(v: &Vector3) -> (r: String)
    ensures
        r@ == height_text(*v),
{
    format!("{:.2}", v.z)
}

/// Makes a point on a layer.
pub fn point_on(at: Vector3, layer: &str) -> (e: EntityType)
    ensures
        entity_point(e) == Some(at),
        entity_line(e) is None,
        entity_mesh(e) is None,
        entity_layer(e) == layer@,
        entity_records(entity_data(e)).len() == 0,
{
    let mut e = new_point(at);
    set_layer(&mut e, layer);
    e
}

/// Makes a line on a layer.
pub fn line_on(start: Vector3, end: Vector3, layer: &str) -> (e: EntityType)
    ensures
        entity_line(e) == Some((start, end)),
        entity_point(e) is None,
        entity_mesh(e) is None,
        entity_layer(e) == layer@,
        entity_records(entity_data(e)).len() == 0,
{
    let mut e = new_line(start, end);
    set_layer(&mut e, layer);
    e
}

/// Puts an entity on a layer.
pub fn put_on(e: EntityType, layer: &str) -> (r: EntityType)
    ensures
        entity_layer(r) == layer@,
        entity_data(r) == entity_data(e),
        entity_point(r) == entity_point(e),
        entity_line(r) == entity_line(e),
        entity_mesh(r) == entity_mesh(e),
{
    let mut e = e;
    set_layer(&mut e, layer);
    e
}

} // verus!
