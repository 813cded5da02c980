use landsurvey::adjust::CombinedTexts;
use landsurvey::drawing::{
    draw_combined_resection, draw_datum, draw_helmert_stages, draw_inverse, draw_moves, draw_resection, draw_rts, draw_surface, draw_volume,
    entity_of, record_of, FitTexts, Item, LabelPlaces, Shape, Stages, Tin, DATUM_LAYER,
};
use landsurvey::entities::{line_on, point_on};

use acadrust::{EntityType, Vector3};

/// An item in a line: its layer, its shape and its tag.
fn line_of(i: &Item<u8, u8>) -> String {
    let shape = match &i.shape {
        Shape::Point(p) => format!("point {p}"),
        Shape::Line(a, b) => format!("line {a}-{b}"),
        Shape::Text(s, at, h) => format!("text {s:?} {at} {h}"),
    };
    match &i.tag {
        Some((name, kind)) => format!("{} {shape} [{name} {kind}]", i.layer),
        None => format!("{} {shape}", i.layer),
    }
}

fn lines(items: Vec<Item<u8, u8>>) -> Vec<String> {
    items.iter().map(line_of).collect()
}

fn tin(nodes: Vec<u8>, edges: Vec<(usize, usize)>) -> Tin<u8> {
    Tin { nodes, edges }
}

#[test]
fn a_volume_is_drawn_with_both_surfaces() {
    let top = tin(vec![10, 11, 12], vec![(0, 1), (2, 1)]);
    let bottom = tin(vec![20, 21], vec![(1, 0)]);
    assert_eq!(
        lines(draw_volume(&top, &bottom, &vec![(1, 2), (3, 4)], "CUT", 5, 6)),
        vec![
            "LS-TIN-TOP line 10-11 [TOP TIN]",
            "LS-TIN-TOP line 12-11 [TOP TIN]",
            "LS-TIN-BOTTOM line 21-20 [BOTTOM TIN]",
            "LS-CUTFILL line 1-2 [CUTFILL CUTFILL]",
            "LS-CUTFILL line 3-4 [CUTFILL CUTFILL]",
            "LS-VOLUME-LABEL text \"CUT\" 5 6 [VOLUME LABEL]",
        ]
    );
}

#[test]
fn a_datum_is_drawn_with_its_contour() {
    let t = tin(vec![10, 11], vec![(0, 1)]);
    assert_eq!(
        lines(draw_datum(&t, DATUM_LAYER, &vec![(1, 2)], "ELEV", 5, 6)),
        vec![
            "LS-TIN-DATUM line 10-11 [DATUM TIN]",
            "LS-DATUM line 1-2 [DATUM CONTOUR]",
            "LS-VOLUME-LABEL text \"ELEV\" 5 6 [DATUM LABEL]",
        ]
    );
}

#[test]
fn a_resection_is_drawn_with_its_rays() {
    assert_eq!(
        lines(draw_resection(1, &vec![2, 3], "STA", 4, 5)),
        vec![
            "LS-RESECT-STATION point 1",
            "LS-RESECT-KNOWN point 2",
            "LS-RESECT-RAYS line 1-2",
            "LS-RESECT-KNOWN point 3",
            "LS-RESECT-RAYS line 1-3",
            "LS-RESECT-LABEL text \"STA\" 4 5",
        ]
    );
}

#[test]
fn a_combined_resection_is_drawn_with_its_residuals() {
    let texts = CombinedTexts {
        east: "1".to_string(),
        north: "2".to_string(),
        orientation: "3".to_string(),
        scale: "1.0".to_string(),
        blunder: false,
        rms: "0.01".to_string(),
        residuals: vec![
            ("A".to_string(), "0.00100".to_string()),
            ("B".to_string(), "0.00200".to_string()),
        ],
    };
    assert_eq!(
        lines(draw_combined_resection(1, &vec![2, 3], &texts, &vec![12, 13], "STA", 4, 5)),
        vec![
            "LS-RESECT-STATION point 1",
            "LS-RESECT-KNOWN point 2",
            "LS-RESECT-RAYS line 1-2",
            "LS-RESECT-LABEL text \"0.00100\" 12 5",
            "LS-RESECT-KNOWN point 3",
            "LS-RESECT-RAYS line 1-3",
            "LS-RESECT-LABEL text \"0.00200\" 13 5",
            "LS-RESECT-LABEL text \"STA\" 4 5",
        ]
    );
}

#[test]
fn an_inverse_is_drawn_with_its_labels() {
    assert_eq!(
        lines(draw_inverse(1, 2, ("N 1 E".to_string(), 3), ("9.000".to_string(), 4), 5)),
        vec!["LS-INVERSE line 1-2", "LS-INVERSE text \"N 1 E\" 3 5", "LS-INVERSE text \"9.000\" 4 5"]
    );
}

#[test]
fn a_fit_is_drawn_in_stages() {
    let fit = FitTexts {
        scale: "1.00010".to_string(),
        rotation: "0.5000".to_string(),
        east: "3.00".to_string(),
        north: "-4.00".to_string(),
        worst: "0.0123".to_string(),
    };
    let at = LabelPlaces { source: 30, scale: 31, rotation: 32, translation: 33, residual: 34 };
    let stages = vec![Stages { source: 1, scaled: 2, rotated: 3, fitted: 4, target: 5 }];
    let items = draw_helmert_stages(&stages, 6, 7, &fit, &at, 8);
    assert_eq!(
        lines(items),
        vec![
            "LS-HMT-0-SRC point 1",
            "LS-HMT-1-SCALED point 2",
            "LS-HMT-2-ROTATED point 3",
            "LS-HMT-3-FINAL point 4",
            "LS-HMT-TARGET point 5",
            "LS-HMT-PATH line 1-2",
            "LS-HMT-PATH line 2-3",
            "LS-HMT-PATH line 3-4",
            "LS-HMT-RESID line 4-5",
            "LS-HMT-CENTROID point 6",
            "LS-HMT-CENTROID point 7",
            "LS-HMT-LABEL text \"1 source\" 30 8",
            "LS-HMT-LABEL text \"2 scale x1.00010\" 31 8",
            "LS-HMT-LABEL text \"3 rotate 0.5000 deg\" 32 8",
            "LS-HMT-LABEL text \"4 translate dE 3.00 dN -4.00\" 33 8",
            "LS-HMT-LABEL text \"5 residual max 0.0123\" 34 8",
        ]
    );
    let none = draw_helmert_stages(&vec![], 6, 7, &fit, &at, 8);
    assert_eq!(none.len(), 7);
}

#[test]
fn point_sets_are_drawn() {
    assert_eq!(
        lines(draw_surface(&tin(vec![1, 2], vec![(1, 0)]), "LS-TIN-A", "LS-POINTS-A", "A")),
        vec!["LS-TIN-A line 2-1 [A TIN]", "LS-POINTS-A point 1", "LS-POINTS-A point 2"]
    );
    assert_eq!(
        lines(draw_moves(&vec![(1, 2), (3, 4)])),
        vec!["LS-RTS-SRC point 1", "LS-RTS-DST point 2", "LS-RTS-SRC point 3", "LS-RTS-DST point 4"]
    );
    assert_eq!(
        lines(draw_rts(&vec![(1, 2)], 5, 6)),
        vec!["LS-RTS-SRC point 1", "LS-RTS-DST point 2", "LS-RTS-BASE line 5-6", "LS-RTS-BASE point 6"]
    );
}

#[test]
fn items_become_entities() {
    let (a, b) = (Vector3::new(1.0, 2.0, 3.0), Vector3::new(4.0, 5.0, 6.0));
    let item = |shape: Shape<Vector3, u8>| Item { shape, layer: "L".to_string(), tag: None };
    let line = entity_of(&item(Shape::Line(a, b))).unwrap();
    assert!(matches!(&line, EntityType::Line(l) if l.start == a && l.end == b));
    assert_eq!(line.common().layer, "L");
    let point = entity_of(&item(Shape::Point(b))).unwrap();
    assert!(matches!(&point, EntityType::Point(p) if p.location == b));
    assert!(entity_of(&item(Shape::Text("t".to_string(), a, 1))).is_none());
    assert!(record_of(&item(Shape::Point(a))).is_none());
    let mut tagged = item(Shape::Point(a));
    tagged.tag = Some(("EG".to_string(), "TIN".to_string()));
    let rec = record_of(&tagged).unwrap();
    assert_eq!(rec.application_name, "LANDSURVEY_SURFACE");
    assert_eq!(rec.values.len(), 2);
    assert_eq!(point_on(a, "P").common().layer, "P");
    assert!(line_on(a, b, "P").common().extended_data.is_empty());
}
