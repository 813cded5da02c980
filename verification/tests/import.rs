use acadrust::{CadDocument, EntityType, Line, Text, Vector3};
use landsurvey::console::Reply;
use landsurvey::dispatch::{import_request, PnezdImport};
use landsurvey::import::{draw_point, import_outcome, import_pnezd, list_points, pad, visible_point_mode, Imported, PointDrawing};
use landsurvey::pnezd::{parse, parse_with};
use landsurvey::records::{plan_record, point_record, point_tag};

fn request(args: &str) -> PnezdImport {
    import_request(&format!("LS_PNEZD {args}")).unwrap()
}

fn said(r: Imported) -> Vec<String> {
    match r {
        Imported::Said(list) => list
            .into_iter()
            .map(|r| match r {
                Reply::Info(s) => format!("info {s}"),
                Reply::Output(s) => s,
                Reply::Error(s) => format!("error {s}"),
            })
            .collect(),
        Imported::Drawn(_, _) => panic!("drawn"),
    }
}

fn drawn(r: Imported) -> (Vec<PointDrawing>, Reply) {
    match r {
        Imported::Drawn(d, s) => (d, s),
        Imported::Said(_) => panic!("nothing drawn"),
    }
}

const POINTS: &str = "1,10,20,0,IP found\n2,11.5,21.25,-3.14159,\nbad\nCP3,12,22,101.5\n";

#[test]
fn a_file_without_points_is_refused() {
    let mut total = 4;
    let lines = said(import_pnezd(&request("a.csv"), "x\ny\n\n# z\n", false, &mut total));
    assert_eq!(lines, vec!["error LS_PNEZD: no valid points in \"a.csv\" (2 line(s) skipped)."]);
    assert_eq!(total, 4);
}

#[test]
fn a_preview_shows_the_first_rows() {
    let mut total = 0;
    let lines = said(import_pnezd(&request("a.csv preview"), POINTS, false, &mut total));
    assert_eq!(
        lines,
        vec![
            "LS_PNEZD preview \"a.csv\" \u{2014} order PNEZD: 3 point(s), 1 skipped. First rows:",
            "  1        E 20.000  N 10.000  Z 0.000  IP found",
            "  2        E 21.250  N 11.500  Z -3.142  ",
            "  CP3      E 22.000  N 12.000  Z 101.500  ",
        ]
    );
    let many: String = (1..=7).map(|i| format!("{i},{i},0,0\n")).collect();
    let lines = said(import_pnezd(&request("a.csv penzd preview"), &many, false, &mut total));
    assert_eq!(lines.len(), 7);
    assert_eq!(
        lines[0],
        "LS_PNEZD preview \"a.csv\" \u{2014} order PENZD: 7 point(s), 0 skipped. First rows:"
    );
    assert_eq!(lines[1], "  1        E 1.000  N 0.000  Z 0.000  ");
    assert_eq!(lines[6], "  \u{2026} and 2 more");
    assert_eq!(total, 0);
}

#[test]
fn points_are_drawn_on_the_layers_of_their_codes() {
    let mut total = 10;
    let (points, report) = drawn(import_pnezd(&request("a.csv detail"), POINTS, false, &mut total));
    assert_eq!(total, 13);
    assert_eq!(
        report,
        Reply::Output(
            "LS_PNEZD: imported 3 labeled point(s), 1 line(s) skipped, grouped by code. 13 this session."
                .to_string()
        )
    );
    let layers: Vec<&str> = points.iter().map(|d| d.layer.as_str()).collect();
    assert_eq!(layers, vec!["LS-PT-IP", "LS-POINTS", "LS-POINTS"]);
    let labels: Vec<Option<&str>> = points.iter().map(|d| d.label.as_deref()).collect();
    assert_eq!(labels, vec![Some("1"), Some("2"), Some("CP3")]);
    let details: Vec<Option<&str>> = points.iter().map(|d| d.detail.as_deref()).collect();
    assert_eq!(details, vec![Some("IP found"), Some("-3.14"), Some("101.50")]);
    match &points[1].entity {
        EntityType::Point(p) => assert_eq!(p.location, Vector3::new(21.25, 11.5, -3.14159)),
        other => panic!("{other:?}"),
    }
    assert_eq!(points[0].entity.common().layer, "LS-PT-IP");
    assert_eq!(points[0].record, point_record("1", "IP found"));
}

#[test]
fn suppressed_labels_are_not_drawn() {
    let mut total = 0;
    let (points, report) = drawn(import_pnezd(&request("a.csv detail"), "1,2,3,4,IP\n", true, &mut total));
    assert!(points[0].label.is_none() && points[0].detail.is_none());
    assert_eq!(
        report,
        Reply::Output("LS_PNEZD: imported 1 labeled point(s), grouped by code. 1 this session.".to_string())
    );
}

#[test]
fn the_detail_joins_elevation_and_description() {
    let detail = |line: &str| draw_point(&parse(line).points[0], true, true).detail;
    assert_eq!(detail("1,2,3,4.005,IP 1"), Some("4.00 IP 1".to_string()));
    assert_eq!(detail("1,2,3,0.0,IP"), Some("IP".to_string()));
    assert_eq!(detail("1,2,3,0.0"), None);
    assert_eq!(detail("1,2,3,1e-400"), None);
    assert_eq!(detail("1,2,3,0.001"), Some("0.00".to_string()));
}

#[test]
fn imported_points_are_listed() {
    let mut doc = CadDocument::default();
    assert_eq!(
        list_points(&doc),
        vec![Reply::Output("LS_LIST: no Land Survey points in drawing.".to_string())]
    );
    let mut total = 0;
    let (points, _) = drawn(import_pnezd(&request("a.csv"), POINTS, false, &mut total));
    for d in points {
        let mut ent = d.entity;
        ent.common_mut().extended_data.add_record(d.record);
        doc.add_entity(ent).expect("add point");
    }
    // An entity of another kind with a point's record, and one with another record.
    let mut line = EntityType::Line(Line::from_points(Vector3::new(1.0, 2.0, 3.0), Vector3::new(4.0, 5.0, 6.0)));
    line.common_mut().extended_data.add_record(point_record("L-100000000", "a line"));
    doc.add_entity(line).expect("add line");
    let mut other = EntityType::Line(Line::from_points(Vector3::new(1.0, 2.0, 3.0), Vector3::new(4.0, 5.0, 6.0)));
    other.common_mut().extended_data.add_record(plan_record("plan.json"));
    assert_eq!(point_tag(&other.common().extended_data), None);
    doc.add_entity(other).expect("add line");
    let rows: Vec<String> = list_points(&doc)
        .into_iter()
        .map(|r| match r {
            Reply::Output(s) => s,
            other => panic!("{other:?}"),
        })
        .collect();
    assert_eq!(
        rows,
        vec![
            "LS_LIST: 4 Land Survey point(s):",
            "  1        E 20.000  N 10.000  Z 0.000  IP found",
            "  2        E 21.250  N 11.500  Z -3.142  ",
            "  CP3      E 22.000  N 12.000  Z 101.500  ",
            "  L-100000000 E 0.000  N 0.000  Z 0.000  a line",
        ]
    );
}

#[test]
fn labels_between_points_are_not_listed() {
    let mut doc = CadDocument::default();
    let mut total = 0;
    let (points, _) = drawn(import_pnezd(&request("a.csv detail"), POINTS, false, &mut total));
    for d in points {
        let mut ent = d.entity;
        ent.common_mut().extended_data.add_record(d.record);
        doc.add_entity(ent).expect("add point");
        for label in d.label.into_iter().chain(d.detail) {
            let text = Text::with_value(label, Vector3::new(0.0, 0.0, 0.0));
            doc.add_entity(EntityType::Text(text)).expect("add label");
        }
    }
    assert_eq!(doc.entities().count(), 9);
    let preview = said(import_pnezd(&request("a.csv preview"), POINTS, false, &mut total));
    let rows: Vec<Reply> = preview[1..].iter().map(|s| Reply::Output(s.clone())).collect();
    assert_eq!(list_points(&doc)[0], Reply::Output("LS_LIST: 3 Land Survey point(s):".to_string()));
    assert_eq!(list_points(&doc)[1..], rows);
}

#[test]
fn a_preview_leaves_a_full_count() {
    let mut total = usize::MAX;
    let q = request("a.csv preview");
    let lines = said(import_pnezd(&q, POINTS, false, &mut total));
    assert_eq!(lines.len(), 4);
    assert_eq!(total, usize::MAX);
    assert_eq!(said(import_outcome(&q, &parse_with(POINTS, &q.format), false, &mut total)), lines);
    said(import_pnezd(&request("a.csv"), "x\n", false, &mut total));
    assert_eq!(total, usize::MAX);
}

#[test]
fn numbers_are_padded_to_a_column() {
    assert_eq!(pad("", 3), "   ");
    assert_eq!(pad("\u{e9}1", 4), "\u{e9}1  ");
    assert_eq!(pad("12345", 3), "12345");
    assert_eq!(visible_point_mode(0), 3);
    assert_eq!(visible_point_mode(34), 34);
}
