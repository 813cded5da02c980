use acadrust::{CadDocument, EntityType, Point, Vector3};
use landsurvey::adjust::{
    align, animation_failed, animation_written, check_drawing, check_pairs, choose_method, combined_caption, combined_report,
    failed, fit_applied, helmert_report, in_file, inverse_report, refuse, resection_drawn, rts_report,
    stages_drawn, station_label, three_point_caption, three_point_report, CombinedTexts, Fit, Method, RtsTexts,
    ThreePointTexts,
};
use landsurvey::console::Reply;
use landsurvey::reports::{
    build_surface, datum_drawn, datum_label, datum_report, import_landxml, join, no_bottom, no_datum_surface, no_top,
    read_surface_quiet, unread, unusable, volume_drawn, volume_label, volume_report, Built, CutFill, GridVolume,
    Named, SurfaceRead,
};
use landsurvey::surfaces::{surface_from_mesh, Surface};

fn text(s: &str) -> String {
    s.to_string()
}

fn output(s: &str) -> Reply {
    Reply::Output(s.to_string())
}

fn error(s: &str) -> Reply {
    Reply::Error(s.to_string())
}

fn cut_fill() -> CutFill {
    CutFill { cut: text("1.000"), fill: text("2.000"), net: text("-1.000") }
}

fn outputs(list: Vec<Reply>) -> Vec<String> {
    list.into_iter()
        .map(|r| match r {
            Reply::Output(s) => s,
            other => panic!("{other:?}"),
        })
        .collect()
}

#[test]
fn a_built_surface_is_reported() {
    let s = Surface { nodes: vec![1u8, 2, 3], triangles: vec![(0, 1, 2)] };
    let r: Built<u8, u8> = build_surface("/data/eg.csv", &s, &vec![(0, 1), (1, 2), (0, 2)], "12.500");
    assert_eq!(r.name, "EG");
    assert_eq!(r.items.len(), 3);
    assert_eq!(r.items[0].layer, "LS-TIN-EG");
    assert_eq!(
        r.report,
        output(
            "LS_SURFACE: stored \"EG\" \u{2014} 3 pts, 1 triangles, 3 TIN edges on layer LS-TIN-EG; \
             plan area 12.500. (Use it in LS_VOLUME / LS_DATUM by name.)"
        )
    );
    assert_eq!(unusable(&unread("a.csv", "gone")), error("LandSurvey: cannot read \"a.csv\": gone"));
}

#[test]
fn surfaces_are_read_from_points_or_landxml() {
    let s = Surface { nodes: vec![Vector3::new(0.0, 0.0, 0.0)], triangles: vec![] };
    assert_eq!(
        read_surface_quiet("a.xml", "", Some(Some(s.clone()))),
        Ok(SurfaceRead::Surface(s))
    );
    assert_eq!(
        read_surface_quiet("a.xml", "1,2,3\n", Some(None)),
        Err(text("no TIN surface in LandXML \"a.xml\""))
    );
    assert_eq!(
        read_surface_quiet("a.csv", "1,2,3\n", None),
        Err(text("\"a.csv\" has 1 usable point(s); need at least 3 for a surface"))
    );
    assert_eq!(
        read_surface_quiet("a.csv", "1,2,3\n2,4,5\n3,6,7,8\n", None),
        Ok(SurfaceRead::Nodes(vec![
            Vector3::new(3.0, 2.0, 0.0),
            Vector3::new(5.0, 4.0, 0.0),
            Vector3::new(7.0, 6.0, 8.0)
        ]))
    );
}

#[test]
fn landxml_surfaces_become_meshes() {
    let named = |name: &str, n: usize| Named {
        name: text(name),
        surface: Surface {
            nodes: vec![Vector3::new(0.0, 0.0, 1.0), Vector3::new(1.0, 0.0, 1.0), Vector3::new(0.0, 1.0, 1.0)],
            triangles: vec![(0, 1, 2); n],
        },
    };
    let list = vec![named("EG", 1), named("FG", 2)];
    let (drawn, said) = import_landxml("a.xml", true, &list).ok().unwrap();
    assert_eq!(
        said,
        output(
            "LS_LANDXML: imported 2 surface(s) [EG, FG] as Mesh \u{2014} 3 triangle(s) total. \
             (Use in LS_VOLUME / LS_DATUM by name.)"
        )
    );
    assert_eq!(drawn.len(), 2);
    assert_eq!(drawn[1].entity.common().layer, "LS-TIN-FG");
    match &drawn[1].entity {
        EntityType::Mesh(m) => assert_eq!(surface_from_mesh(m), list[1].surface),
        other => panic!("{other:?}"),
    }
    assert_eq!(drawn[0].record.application_name, "LANDSURVEY_SURFACE");
    assert_eq!(
        import_landxml("a.txt", false, &vec![]).err().unwrap(),
        error("LS_LANDXML: \"a.txt\" does not look like LandXML.")
    );
    assert_eq!(
        import_landxml("a.xml", true, &vec![]).err().unwrap(),
        error("LS_LANDXML: no TIN surface found in \"a.xml\".")
    );
}

#[test]
fn missing_surfaces_are_reported_with_the_known_ones() {
    let known = vec![text("EG"), text("FG")];
    assert_eq!(
        no_top("top", "no file", &known),
        error(
            "LS_VOLUME: no surface \"top\" (no file). Known surfaces: [EG, FG]. \
             Build Surface first, then click Volume."
        )
    );
    assert_eq!(
        no_bottom("bottom", "no file", &vec![]),
        error("LS_VOLUME: no surface \"bottom\" (no file). Known surfaces: [].")
    );
    assert_eq!(
        no_datum_surface("x", "no file", &known),
        error("LS_DATUM: no surface \"x\" (no file). Known surfaces: [EG, FG].")
    );
    assert_eq!(join(&vec![text("a")], "-"), "a");
    assert_eq!(join(&vec![text("a"), text("b"), text("c")], "--"), "a--b--c");
}

#[test]
fn volumes_are_reported() {
    let grid = GridVolume { step: text("0.500"), volumes: cut_fill(), area: text("9.000"), cells: 36 };
    assert_eq!(
        outputs(volume_report(("EG", 5), ("FG", 4), &cut_fill(), &Some(grid))),
        vec![
            "LS_VOLUME: EG (top) minus FG (bottom).",
            "LS_VOLUME (exact TIN overlay): cut 1.000, fill 2.000, net -1.000 [top 5 pts, bottom 4 pts].",
            "LS_VOLUME (grid @ 0.500): cut 1.000, fill 2.000, net -1.000, plan area 9.000, 36 cells.",
        ]
    );
    assert_eq!(volume_report(("EG", 5), ("FG", 4), &cut_fill(), &None).len(), 2);
    assert_eq!(
        volume_drawn(8, 5, 2),
        output("LS_VOLUME: drew TOP TIN (8 edges), BOTTOM TIN (5 edges), cut/fill line (2 seg), result label.")
    );
    assert_eq!(volume_label(&cut_fill()), "CUT 1.000  FILL 2.000  NET -1.000");
    assert_eq!(datum_label("101.5", &cut_fill()), "ELEV 101.5  CUT 1.000  FILL 2.000  NET -1.000");
    assert_eq!(
        datum_report("101.5", &cut_fill(), 5, 4),
        output(
            "LS_DATUM (vs elev 101.5): cut 1.000 (above), fill 2.000 (below), net -1.000 \
             [5 pts, 4 triangles]."
        )
    );
    assert_eq!(
        datum_drawn(8, 3),
        output("LS_DATUM: drew TIN (8 edges), datum contour (3 seg), result label.")
    );
}

#[test]
fn inverses_and_transformations_are_reported() {
    assert_eq!(
        inverse_report("5.0000", "36.8699", "N 36 E"),
        output("LS_INVERSE: distance 5.0000, azimuth 36.8699\u{b0}, bearing N 36 E")
    );
    let t = RtsTexts {
        rotation: text("90"),
        scale: text("2"),
        base_north: text("1"),
        base_east: text("2"),
        to_north: text("3"),
        to_east: text("4"),
    };
    assert_eq!(
        rts_report(1, &t),
        output("LS_RTS: transformed 1 entity \u{2014} rot 90\u{b0} CCW+, scale 2, base (1,2) -> (3,4).")
    );
    assert_eq!(
        rts_report(0, &t),
        output("LS_RTS: transformed 0 entities \u{2014} rot 90\u{b0} CCW+, scale 2, base (1,2) -> (3,4).")
    );
    let mut doc = CadDocument::default();
    assert_eq!(
        check_drawing(&doc),
        Err(Reply::Info(text("LS_RTS: no entities in the drawing to transform.")))
    );
    doc.add_entity(EntityType::Point(Point::at(Vector3::new(1.0, 2.0, 3.0)))).expect("add point");
    assert_eq!(check_drawing(&doc), Ok(()));
    assert_eq!(in_file("p.csv", "line 2"), "\"p.csv\": line 2");
    assert_eq!(animation_written("/tmp/a.svg"), output("LS animation -> /tmp/a.svg (open in a browser)"));
    assert_eq!(animation_failed("full"), error("LS animation: cannot write SVG: full"));
}

fn fit(n: usize) -> Fit {
    Fit {
        source_east: text("1"),
        source_north: text("2"),
        target_east: text("3"),
        target_north: text("4"),
        sxx: text("5"),
        sxy: text("6"),
        sum_sq: text("7"),
        scale: text("8"),
        rotation: text("9"),
        east: text("10"),
        north: text("11"),
        rms: text("12"),
        max: text("13"),
        residuals: (0..n).map(|i| format!("r{i}")).collect(),
    }
}

#[test]
fn fits_are_reported_in_steps() {
    assert_eq!(
        outputs(helmert_report(&fit(2))),
        vec![
            "LS_HELMERT \u{2014} 2D 4-parameter conformal (Rotate/Translate/Scale):",
            "  step 1  source centroid : E 1, N 2",
            "  step 2  target centroid : E 3, N 4",
            "  step 3  cross-cov sums  : Sxx 5, Sxy 6, S|d|^2 7",
            "  step 4  scale  s        : 8",
            "  step 5  rotation theta  : 9\u{b0} CCW+",
            "  step 6  translation     : E 10, N 11",
            "  step 7  residuals       : RMS 12, max 13  (2 pairs)",
            "            pair  1: r0",
            "            pair  2: r1",
        ]
    );
    let many = outputs(helmert_report(&fit(20)));
    assert_eq!(many.len(), 8 + 20);
    assert_eq!(many[19], "            pair 12: r11");
    assert_eq!(many[27], "            pair 20: r19");
    assert_eq!(check_pairs("p.csv", 2), Ok(()));
    let why = check_pairs("p.csv", 1).unwrap_err();
    assert_eq!(
        refuse("LS_HELMERT", &why),
        error("LS_HELMERT: \"p.csv\" has 1 control pair(s); need at least 2.")
    );
    assert_eq!(failed("LS_HELMERT", "singular"), error("LS_HELMERT: singular"));
    assert_eq!(
        stages_drawn(16),
        output("LS_HELMERT: drew 16 stage entities (layers LS-HMT-0-SRC..3-FINAL, TARGET, RESID, PATH).")
    );
    assert_eq!(fit_applied(1), output("LS_HELMERT: applied fit to 1 entity."));
    assert_eq!(fit_applied(2), output("LS_HELMERT: applied fit to 2 entities."));
}

#[test]
fn distances_decide_the_method() {
    assert_eq!(choose_method("s", &vec![true, true]), Ok(Method::Combined));
    assert_eq!(choose_method("s", &vec![false, true, false, true]), Ok(Method::Combined));
    assert_eq!(choose_method("s", &vec![false, false, false]), Ok(Method::ThreePoint));
    assert_eq!(
        choose_method("s.csv", &vec![true]),
        Err(text("\"s.csv\" has 1 usable shot(s); need at least 2"))
    );
    let unsuited = |n: usize, d: usize| {
        Err(format!(
            "need >=2 distance shots (combined) or exactly 3 angle shots (three-point); \
             got {n} shots, {d} with distances"
        ))
    };
    assert_eq!(choose_method("s", &vec![false, false]), unsuited(2, 0));
    assert_eq!(choose_method("s", &vec![false, true, false]), unsuited(3, 1));
    assert_eq!(choose_method("s", &vec![false; 4]), unsuited(4, 0));
}

#[test]
fn stations_are_reported() {
    let combined = |blunder: bool, n: usize| CombinedTexts {
        east: text("1"),
        north: text("2"),
        orientation: text("3"),
        scale: text("0.9"),
        blunder,
        rms: text("5"),
        residuals: (0..n).map(|i| (format!("P{i}"), format!("r{i}"))).collect(),
    };
    assert_eq!(
        outputs(combined_report(&combined(true, 2))),
        vec![
            "LS_RESECT \u{2014} combined (direction + distance, least-squares):",
            "  station (E,N) : 1, 2",
            "  orientation   : 3\u{b0}  (grid azimuth = reading + orientation)",
            "  scale check   : 0.9  <-- WARNING: strays from 1.0 (distance/EDM blunder?)",
            "  residuals RMS : 5 (2 shots)",
            "                P0: r0",
            "                P1: r1",
        ]
    );
    let many = outputs(combined_report(&combined(false, 15)));
    assert_eq!(many.len(), 5 + 12);
    assert_eq!(many[3], "  scale check   : 0.9");
    let three = |danger: bool| ThreePointTexts {
        east: text("1"),
        north: text("2"),
        orientation: text("3"),
        subtended: (text("4"), text("5"), text("6")),
        amplification: text("7.5"),
        danger,
    };
    assert_eq!(
        outputs(three_point_report(&three(true))),
        vec![
            "LS_RESECT \u{2014} angle-only three-point (Tienstra):",
            "  station (E,N) : 1, 2",
            "  orientation   : 3\u{b0}  (grid azimuth = reading + orientation)",
            "  subtended     : BPC 4\u{b0}, CPA 5\u{b0}, APB 6\u{b0}",
            "  amplification : 7.5x  <-- WARNING: near danger circle",
        ]
    );
    assert_eq!(outputs(three_point_report(&three(false)))[4], "  amplification : 7.5x");
    assert_eq!(
        combined_caption("1.0", "2.0", "3.0"),
        "combined resection \u{b7} orient 1.0\u{b0} \u{b7} scale 2.0 \u{b7} RMS 3.0"
    );
    assert_eq!(
        three_point_caption("1.0", "2.0"),
        "angle-only three-point \u{b7} orient 1.0\u{b0} \u{b7} amplification 2.0x"
    );
    assert_eq!(station_label("1", "2"), "STA E1 N2");
    assert_eq!(
        resection_drawn(3),
        output("LS_RESECT: drew station + 3 ray(s) (layers LS-RESECT-STATION/KNOWN/RAYS/LABEL).")
    );
    assert_eq!(align("7", 2), " 7");
    assert_eq!(align("123", 2), "123");
}
