use std::io::Cursor;

use acadrust::entities::Mesh;
use acadrust::tables::{AppId, TableEntry};
use acadrust::xdata::{ExtendedDataRecord, XDataValue};
use acadrust::{CadDocument, DwgReader, DwgWriter, EntityType, Line, Point, Text, Vector3};
use landsurvey::drawing::{draw_tin, entity_of, record_of, Item, Shape};
use landsurvey::records::{point_tag, surface_tag, XDATA_PLAN, XDATA_POINT, XDATA_SURFACE};
use landsurvey::surfaces::{
    find_surface, find_surface_in_document, known_surface_names, mesh_from_surface, names_known, read_nodes,
    resolve_named_surface, surface_from_mesh, triangulated, Bits, Drawn, Entity, Found, Step, Surface,
};

/// The triangles of a Delaunay triangulation: those whose circumcircle holds no
/// other node.
fn delaunay(nodes: &[Vector3]) -> Vec<(usize, usize, usize)> {
    let cross = |a: Vector3, b: Vector3, c: Vector3| {
        (b.x - a.x) * (c.y - a.y) - (b.y - a.y) * (c.x - a.x)
    };
    let inside = |a: Vector3, b: Vector3, c: Vector3, p: Vector3| {
        let lift = |q: Vector3| {
            let (x, y) = (q.x - p.x, q.y - p.y);
            (x, y, x * x + y * y)
        };
        let (a, b, c) = (lift(a), lift(b), lift(c));
        a.0 * (b.1 * c.2 - b.2 * c.1) - a.1 * (b.0 * c.2 - b.2 * c.0) + a.2 * (b.0 * c.1 - b.1 * c.0) > 0.0
    };
    let n = nodes.len();
    let mut out = Vec::new();
    for i in 0..n {
        for j in i + 1..n {
            for k in j + 1..n {
                let (j, k) = if cross(nodes[i], nodes[j], nodes[k]) > 0.0 { (j, k) } else { (k, j) };
                let empty = (0..n)
                    .filter(|m| ![i, j, k].contains(m))
                    .all(|m| !inside(nodes[i], nodes[j], nodes[k], nodes[m]));
                if empty {
                    out.push((i, j, k));
                }
            }
        }
    }
    out
}

/// The unique edges of a triangulation.
fn edges(triangles: &[(usize, usize, usize)]) -> Vec<(usize, usize)> {
    let mut out: Vec<(usize, usize)> = Vec::new();
    for &(a, b, c) in triangles {
        for (p, q) in [(a, b), (b, c), (c, a)] {
            let e = (p.min(q), p.max(q));
            if !out.contains(&e) {
                out.push(e);
            }
        }
    }
    out
}

/// The area of a triangulation in the plan.
fn area_2d(s: &Surface<Vector3>) -> f64 {
    s.triangles
        .iter()
        .map(|&(a, b, c)| {
            let (a, b, c) = (s.nodes[a], s.nodes[b], s.nodes[c]);
            ((b.x - a.x) * (c.y - a.y) - (b.y - a.y) * (c.x - a.x)).abs() / 2.0
        })
        .sum()
}

fn from_points(nodes: Vec<Vector3>) -> Surface<Vector3> {
    let triangles = delaunay(&nodes);
    Surface { nodes, triangles }
}

/// A small non-cocircular TIN: unit square footprint with a lifted corner plus an
/// interior point, so the Delaunay result is unambiguous.
fn sample_surface() -> Surface<Vector3> {
    from_points(vec![
        Vector3::new(0.0, 0.0, 5.0),
        Vector3::new(10.0, 0.0, 5.0),
        Vector3::new(0.0, 10.0, 5.0),
        Vector3::new(10.0, 10.0, 8.0),
        Vector3::new(4.0, 3.0, 6.0),
    ])
}

/// Finds a surface in a drawing, and triangulates it where it was drawn by edges.
fn found(doc: &CadDocument, token: &str) -> Option<(String, Surface<Vector3>)> {
    match resolve_named_surface(None, doc, token) {
        Step::Keep(name, s) => Some((name, s)),
        Step::Triangulate(name, nodes) => {
            let nodes = nodes
                .iter()
                .map(|b| Vector3::new(f64::from_bits(b.x), f64::from_bits(b.y), f64::from_bits(b.z)))
                .collect();
            match triangulated(name, from_points(nodes)) {
                Step::Keep(name, s) => Some((name, s)),
                _ => None,
            }
        }
        _ => None,
    }
}

fn tag(ent: &mut EntityType, name: &str, kind: &str) {
    let mut rec = ExtendedDataRecord::new(XDATA_SURFACE);
    rec.add_value(XDataValue::String(name.to_string()));
    rec.add_value(XDataValue::String(kind.to_string()));
    ent.common_mut().extended_data.add_record(rec);
}

fn doc_with_tagged_mesh(name: &str) -> CadDocument {
    let mut doc = CadDocument::default();
    let mut ent = EntityType::Mesh(mesh_from_surface(&sample_surface()));
    ent.common_mut().layer = format!("LS-TIN-{name}");
    tag(&mut ent, name, "TIN");
    doc.add_entity(ent).expect("add mesh");
    doc
}

fn register_ls_app_ids(doc: &mut CadDocument) {
    for name in [XDATA_POINT, XDATA_PLAN, XDATA_SURFACE] {
        if !doc.app_ids.contains(name) {
            let mut app = AppId::new(name);
            app.set_handle(doc.allocate_handle());
            let _ = doc.app_ids.add(app);
        }
    }
}

#[test]
fn mesh_surface_roundtrip_is_exact() {
    let surf = sample_surface();
    assert_eq!(surf.triangles.len(), 4);
    let back = surface_from_mesh(&mesh_from_surface(&surf));
    assert_eq!(back.nodes, surf.nodes);
    assert_eq!(back.triangles, surf.triangles);
}

#[test]
fn faces_that_are_no_triangles_are_left_out() {
    let mut mesh: Mesh = mesh_from_surface(&sample_surface());
    let face = mesh.faces[0].clone();
    let mut short = face.clone();
    short.vertices = vec![0, 1];
    let mut quad = face.clone();
    quad.vertices = vec![0, 1, 2, 3];
    let mut outside = face.clone();
    outside.vertices = vec![0, 1, 5];
    let mut last = face;
    last.vertices = vec![2, 3, 4];
    mesh.faces = vec![short, quad, outside, last];
    let back = surface_from_mesh(&mesh);
    assert_eq!(back.nodes.len(), 5);
    assert_eq!(back.triangles, vec![(2, 3, 4)]);
}

#[test]
fn rebuilds_surface_from_tagged_mesh_case_insensitive() {
    let doc = doc_with_tagged_mesh("EG");
    let (name, surf) = found(&doc, "eg").expect("found");
    assert_eq!(name, "EG");
    assert_eq!(surf.nodes, sample_surface().nodes);
    assert_eq!(surf.triangles, sample_surface().triangles);
    assert!(found(&doc, "OTHER").is_none());
}

#[test]
fn rebuilds_surface_from_tagged_tin_edge_lines() {
    // Draw the sample surface the way LS_SURFACE does: one tagged Line per unique
    // TIN edge.
    let surf = sample_surface();
    let mut doc = CadDocument::default();
    for e in edges(&surf.triangles) {
        let mut ent = EntityType::Line(Line::from_points(surf.nodes[e.0], surf.nodes[e.1]));
        tag(&mut ent, "TOPO1", "TIN");
        doc.add_entity(ent).expect("add line");
    }
    let (name, back) = found(&doc, "topo1").expect("found");
    assert_eq!(name, "TOPO1");
    assert_eq!(back.nodes.len(), surf.nodes.len());
    assert_eq!(back.triangles.len(), surf.triangles.len());
    assert!((area_2d(&back) - area_2d(&surf)).abs() < 1e-9);
    for p in &surf.nodes {
        assert!(back.nodes.contains(p));
    }
}

#[test]
fn surface_survives_dwg_save_reopen() {
    let mut doc = doc_with_tagged_mesh("EG");
    register_ls_app_ids(&mut doc);
    let bytes = DwgWriter::write_to_vec(&doc).expect("dwg write");
    let rt = DwgReader::from_stream(Cursor::new(bytes)).read().expect("dwg read");
    let (name, surf) = found(&rt, "EG").expect("surface recoverable after DWG round-trip");
    assert_eq!(name, "EG");
    assert_eq!(surf.nodes, sample_surface().nodes);
    assert_eq!(surf.triangles, sample_surface().triangles);
}

#[test]
fn stock_records_and_registered_layer_roundtrip() {
    let mut doc = CadDocument::default();
    register_ls_app_ids(&mut doc);
    let mut pt = EntityType::Point(Point::at(Vector3::new(5000.0, 4000.0, 101.5)));
    pt.common_mut().layer = "LS-PT-IP".to_string();
    let mut rec = ExtendedDataRecord::new(XDATA_POINT);
    rec.add_value(XDataValue::String("101".into()));
    rec.add_value(XDataValue::String("IRON PIN".into()));
    pt.common_mut().extended_data.add_record(rec);
    let mut layer = acadrust::tables::layer::Layer::new("LS-PT-IP");
    layer.handle = doc.allocate_handle();
    let _ = doc.layers.add(layer);
    let h = doc.add_entity(pt).expect("add point");

    let bytes = DwgWriter::write_to_vec(&doc).expect("dwg write");
    let rt = DwgReader::from_stream(Cursor::new(bytes)).read().expect("dwg read");
    let ent = rt.get_entity(h).expect("point entity");
    let got: Vec<String> = ent
        .common()
        .extended_data
        .get_record(XDATA_POINT)
        .expect("LANDSURVEY_POINT record lost")
        .values
        .iter()
        .filter_map(|v| match v {
            XDataValue::String(s) => Some(s.clone()),
            _ => None,
        })
        .collect();
    assert_eq!(got, vec!["101".to_string(), "IRON PIN".to_string()]);
    assert_eq!(
        point_tag(&ent.common().extended_data),
        Some(("101".to_string(), "IRON PIN".to_string()))
    );
    assert_eq!(ent.common().layer, "LS-PT-IP", "registered layer lost on round-trip");
    assert!(rt.layers.contains("LS-PT-IP"), "layer table entry lost");
}

#[test]
fn tags_with_missing_texts_are_no_tags() {
    let mut ent = EntityType::Point(Point::at(Vector3::new(0.0, 0.0, 0.0)));
    assert_eq!(surface_tag(&ent.common().extended_data), None);
    let mut rec = ExtendedDataRecord::new(XDATA_SURFACE);
    rec.add_value(XDataValue::Integer16(7));
    rec.add_value(XDataValue::String("EG".into()));
    ent.common_mut().extended_data.add_record(rec.clone());
    assert_eq!(surface_tag(&ent.common().extended_data), None);
    let mut ent = EntityType::Point(Point::at(Vector3::new(0.0, 0.0, 0.0)));
    rec.add_value(XDataValue::String("TIN".into()));
    ent.common_mut().extended_data.add_record(rec);
    assert_eq!(
        surface_tag(&ent.common().extended_data),
        Some(("EG".to_string(), "TIN".to_string()))
    );
}

#[test]
fn drawn_edges_are_found_again() {
    let surf = sample_surface();
    let items: Vec<Item<Vector3, u8>> = draw_tin(&surf.nodes, &edges(&surf.triangles), "LS-TIN-EG", "EG");
    assert_eq!(items.len(), 8);
    let mut doc = CadDocument::default();
    for item in &items {
        assert!(matches!(item.shape, Shape::Line(_, _)));
        let mut ent = entity_of(item).expect("a line");
        assert_eq!(ent.common().layer, "LS-TIN-EG");
        ent.common_mut().extended_data.add_record(record_of(item).expect("a tag"));
        doc.add_entity(ent).expect("add line");
    }
    let (name, back) = found(&doc, "Eg").expect("found");
    assert_eq!(name, "EG");
    assert_eq!(back.nodes.len(), 5);
}

fn bits(x: u64, y: u64, z: u64) -> Bits {
    Bits { x, y, z }
}

fn edge(name: &str, kind: &str, a: Bits, b: Bits) -> Entity<u8> {
    Entity { tag: Some((name.to_string(), kind.to_string())), drawn: Drawn::Line(a, b) }
}

#[test]
fn edges_give_each_node_once_in_order() {
    let (a, b, c, d) = (bits(1, 1, 1), bits(1, 1, 2), bits(2, 1, 1), bits(1, 2, 1));
    let list = vec![
        edge("Topo", "TIN", b, a),
        edge("Topo", "CUTFILL", d, d),
        Entity { tag: None, drawn: Drawn::Line(d, d) },
        edge("TOPO", "TIN", a, c),
        edge("other", "TIN", d, d),
        edge("topo", "TIN", c, b),
        edge("topo", "TIN", b, b),
        Entity { tag: Some(("topo".to_string(), "TIN".to_string())), drawn: Drawn::Other },
    ];
    assert_eq!(find_surface(&list, "tOPO"), Found::Edges("Topo".to_string(), vec![b, a, c]));
    assert_eq!(find_surface(&list, "other"), Found::Nothing);
    assert_eq!(find_surface(&list, "none"), Found::Nothing);
}

#[test]
fn a_mesh_comes_before_edges_and_empty_meshes_do_not_count() {
    let mesh = |name: &str, nodes: Vec<u8>, triangles: Vec<(usize, usize, usize)>| Entity {
        tag: Some((name.to_string(), "TIN".to_string())),
        drawn: Drawn::Mesh(Surface { nodes, triangles }),
    };
    let list = vec![
        edge("a", "TIN", bits(0, 0, 0), bits(0, 0, 1)),
        edge("a", "TIN", bits(0, 0, 0), bits(0, 0, 2)),
        mesh("a", vec![1, 2, 3], vec![]),
        mesh("A", vec![], vec![(0, 1, 2)]),
        mesh("A", vec![1, 2, 3], vec![(0, 1, 2)]),
        mesh("a", vec![4, 5, 6], vec![(0, 1, 2)]),
    ];
    assert_eq!(
        find_surface(&list, "a"),
        Found::Mesh("A".to_string(), Surface { nodes: vec![1, 2, 3], triangles: vec![(0, 1, 2)] })
    );
}

#[test]
fn a_surface_without_triangles_is_read_from_a_file() {
    let flat = Surface { nodes: vec![1u8, 2, 3], triangles: vec![] };
    assert_eq!(triangulated("A".to_string(), flat), Step::Read);
    let doc = CadDocument::default();
    assert_eq!(resolve_named_surface(None, &doc, "top.csv"), Step::Read);
    let stored = sample_surface();
    assert_eq!(
        resolve_named_surface(Some(stored.clone()), &doc_with_tagged_mesh("EG"), "EG"),
        Step::Done(stored)
    );
}

#[test]
fn known_names_are_those_of_the_session_and_the_drawing() {
    let text = |s: &str| s.to_string();
    let tags = vec![
        Some((text("eg"), text("TIN"))),
        None,
        Some((text("FG"), text("LABEL"))),
        Some((text("Pond"), text("TIN"))),
        Some((text("POND"), text("TIN"))),
    ];
    assert_eq!(names_known(&vec![text("EG")], &tags), vec![text("EG"), text("Pond")]);
    let doc = doc_with_tagged_mesh("EG");
    assert_eq!(known_surface_names(&vec![text("top")], &doc), vec![text("top"), text("EG")]);
    assert_eq!(known_surface_names(&vec![text("eg")], &doc), vec![text("eg")]);
    assert!(matches!(find_surface_in_document(&doc, "EG"), Found::Mesh(_, _)));
}

#[test]
fn nodes_are_easting_northing_and_elevation() {
    let nodes = read_nodes("p.csv", "1,10.5,20,3\n2,11,21,4\nx\n3,12,22,5\n").unwrap();
    assert_eq!(
        nodes,
        vec![
            Vector3::new(20.0, 10.5, 3.0),
            Vector3::new(21.0, 11.0, 4.0),
            Vector3::new(22.0, 12.0, 5.0)
        ]
    );
    assert_eq!(
        read_nodes("p.csv", "1,10,20,3\n2,11,21,4\n").unwrap_err(),
        "\"p.csv\" has 2 usable point(s); need at least 3 for a surface"
    );
}

#[test]
fn surfaces_are_found_among_other_entities() {
    let surf = sample_surface();
    let line = || EntityType::Line(Line::from_points(Vector3::new(1.0, 2.0, 3.0), Vector3::new(4.0, 5.0, 6.0)));
    let mut doc = CadDocument::default();
    doc.add_entity(line()).expect("add line");
    let mut other = EntityType::Mesh(mesh_from_surface(&from_points(surf.nodes[..3].to_vec())));
    tag(&mut other, "FG", "TIN");
    doc.add_entity(other).expect("add mesh");
    for e in edges(&surf.triangles) {
        let mut ent = EntityType::Line(Line::from_points(surf.nodes[e.0], surf.nodes[e.1]));
        tag(&mut ent, "TOPO1", "TIN");
        doc.add_entity(ent).expect("add line");
        let mut label = EntityType::Text(Text::with_value("z", surf.nodes[e.0]));
        tag(&mut label, "TOPO1", "TIN");
        doc.add_entity(label).expect("add text");
        let mut cut = line();
        tag(&mut cut, "TOPO1", "CUTFILL");
        doc.add_entity(cut).expect("add line");
    }
    let mut mesh = EntityType::Mesh(mesh_from_surface(&surf));
    tag(&mut mesh, "EG", "TIN");
    doc.add_entity(mesh).expect("add mesh");
    doc.add_entity(line()).expect("add line");
    assert_eq!(find_surface_in_document(&doc, "eg"), Found::Mesh("EG".to_string(), surf.clone()));
    match find_surface_in_document(&doc, "Topo1") {
        Found::Edges(name, nodes) => assert_eq!((name.as_str(), nodes.len()), ("TOPO1", surf.nodes.len())),
        other => panic!("{other:?}"),
    }
}

#[test]
fn texts_are_no_edges() {
    let mut doc = CadDocument::default();
    let mut ent = EntityType::Text(Text::with_value("EG", Vector3::new(0.0, 0.0, 0.0)));
    tag(&mut ent, "EG", "TIN");
    doc.add_entity(ent).expect("add text");
    assert_eq!(find_surface_in_document(&doc, "EG"), Found::Nothing);
}
