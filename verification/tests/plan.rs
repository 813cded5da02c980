use acadrust::xdata::XDataValue;
use acadrust::{EntityType, Point, Vector3};
use landsurvey::console::Reply;
use landsurvey::plan::{bad_plan, import_plan, place, plan_source, source_name, Chain, Element, Kind, On, Plan, SegKey};

/// The key of a segment, whatever its direction.
fn key(x1: i64, y1: i64, x2: i64, y2: i64) -> SegKey {
    if (x1, y1) <= (x2, y2) {
        SegKey { x1, y1, x2, y2 }
    } else {
        SegKey { x1: x2, y1: y2, x2: x1, y2: y1 }
    }
}

fn on<T>(what: T, layer: &str) -> On<T> {
    On { what, layer: layer.to_string() }
}

fn empty() -> Plan<(), ()> {
    Plan { polylines: vec![], lines: vec![], arcs: vec![], circles: vec![], texts: vec![] }
}

fn element(kind: Kind, index: usize) -> Element {
    Element { kind, index }
}

#[test]
fn edges_of_a_chain_are_not_drawn_again() {
    // A closed triangle, its three edges (one reversed), another line and a text.
    let plan = Plan {
        polylines: vec![on(
            Chain { edges: vec![key(0, 0, 105, 0), key(105, 0, 105, 72), key(105, 72, 0, 0)], points: 3 },
            "PROPERTY_LINE",
        )],
        lines: vec![
            on(key(0, 0, 105, 0), "PROPERTY_LINE"),
            on(key(105, 0, 105, 72), "PROPERTY_LINE"),
            on(key(0, 0, 105, 72), "PROPERTY_LINE"),
            on(key(1000, 1000, 2000, 2000), "EASEMENT"),
        ],
        texts: vec![on((), "BEARING")],
        ..empty()
    };
    let r = import_plan(&plan, "plan.json");
    assert_eq!(
        r.elements,
        vec![element(Kind::Polyline, 0), element(Kind::Line, 3), element(Kind::Text, 0)]
    );
    assert_eq!(
        r.report,
        Reply::Output(
            "LS_IMPORTPLAN: 3 entities on 3 layer(s) from plan.json. \
             (3 element(s) already covered by polylines skipped)"
                .to_string()
        )
    );
}

#[test]
fn arcs_of_a_chain_are_not_drawn_again() {
    let plan = Plan {
        polylines: vec![
            on(Chain { edges: vec![key(0, 0, 30, 0), key(30, 0, 30, 20)], points: 3 }, "PROPERTY_LINE"),
            on(Chain { edges: vec![], points: 2 }, "PROPERTY_LINE"),
        ],
        lines: vec![on(key(0, 0, 30, 0), "PROPERTY_LINE"), on(key(30, 0, 30, 20), "PROPERTY_LINE")],
        arcs: vec![on(vec![true], "PROPERTY_LINE"), on(vec![false], "CURVE"), on(vec![false, true], "CURVE")],
        circles: vec![on((), "PIPE"), on((), "CURVE")],
        ..empty()
    };
    let r = import_plan(&plan, "p");
    assert_eq!(
        r.elements,
        vec![
            element(Kind::Polyline, 0),
            element(Kind::Polyline, 1),
            element(Kind::Arc, 1),
            element(Kind::Circle, 0),
            element(Kind::Circle, 1),
        ]
    );
    assert_eq!(
        r.report,
        Reply::Output(
            "LS_IMPORTPLAN: 5 entities on 3 layer(s) from p. \
             (4 element(s) already covered by polylines skipped)"
                .to_string()
        )
    );
}

#[test]
fn plans_without_chains_keep_every_element() {
    let line = |x: i64| on(key(x, 0, x, 9), "PROPERTY_LINE");
    let plan = Plan { lines: vec![line(1), line(2), line(3), line(1)], ..empty() };
    let r = import_plan(&plan, "assoc.json");
    assert_eq!(r.elements.len(), 4);
    assert_eq!(
        r.report,
        Reply::Output("LS_IMPORTPLAN: 4 entities on 1 layer(s) from assoc.json.".to_string())
    );
}

#[test]
fn a_chain_of_one_point_is_not_drawn_but_hides_its_edges() {
    let plan = Plan {
        polylines: vec![on(Chain { edges: vec![key(5, 5, 5, 5)], points: 1 }, "A")],
        lines: vec![on(key(5, 5, 5, 5), "A"), on(key(5, 5, 6, 6), "B")],
        ..empty()
    };
    let r = import_plan(&plan, "p");
    assert_eq!(r.elements, vec![element(Kind::Line, 1)]);
    assert_eq!(
        r.report,
        Reply::Output(
            "LS_IMPORTPLAN: 1 entities on 1 layer(s) from p. (1 element(s) already covered by polylines skipped)"
                .to_string()
        )
    );
}

#[test]
fn elements_are_tagged_with_the_plans_file() {
    assert_eq!(plan_source("/plats/lot 7.json"), "lot 7.json");
    assert_eq!(plan_source("x/.."), "x/..");
    assert_eq!(plan_source(""), "");
    assert_eq!(plan_source("/"), "/");
    assert_eq!(plan_source("plats/lot7/"), "lot7");
    assert_eq!(plan_source("plats/lot7/."), "lot7");
    assert_eq!(source_name(None, ".."), "..");
    assert_eq!(source_name(Some("a.json".to_string()), "x/a.json"), "a.json");
    let (ent, rec) = place(EntityType::Point(Point::at(Vector3::new(1.0, 2.0, 0.0))), "EASEMENT", "lot 7.json");
    assert_eq!(ent.common().layer, "EASEMENT");
    assert!(matches!(&ent, EntityType::Point(p) if p.location == Vector3::new(1.0, 2.0, 0.0)));
    assert_eq!(rec.application_name, "LANDSURVEY_PLAN");
    assert_eq!(rec.values.len(), 1);
    assert!(matches!(&rec.values[0], XDataValue::String(s) if s == "lot 7.json"));
    assert_eq!(
        bad_plan("no lines"),
        Reply::Error("LS_IMPORTPLAN: invalid plan JSON: no lines".to_string())
    );
}
