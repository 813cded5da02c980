use landsurvey::adjust::{CombinedTexts, Fit, ThreePointTexts};
use landsurvey::cli::{get, opt, output_path, parse_ne, route, split_args, stem, Subcommand, USAGE};
use landsurvey::plans::{
    plan_datum, plan_helmert, plan_inverse, plan_resect, plan_rts, plan_surface, plan_volume, GridStep,
};
use landsurvey::reports::{CutFill, GridVolume};
use landsurvey::results::{
    combined_message, csv_line, datum_layers, datum_message, helmert_layers, helmert_message, inverse_message,
    no_usable_points, point_layer, read_surface, resect_layers, rts_layers, rts_message, surface_layers,
    surface_message, three_point_message, unwritten, volume_layers, volume_message, GridResult, Layer, RtsResult,
};

fn args(line: &str) -> Vec<String> {
    line.split_whitespace().map(str::to_string).collect()
}

fn text(s: &str) -> String {
    s.to_string()
}

fn layers(list: Vec<Layer>) -> Vec<(String, u8)> {
    list.into_iter().map(|l| (l.name, l.colour)).collect()
}

fn cut_fill() -> CutFill {
    CutFill { cut: text("1.000"), fill: text("2.000"), net: text("-1.000") }
}

#[test]
fn subcommands_are_found_by_name() {
    let table = [
        ("surface a", Subcommand::Surface),
        ("volume a b", Subcommand::Volume),
        ("datum a 1", Subcommand::Datum),
        ("rts a", Subcommand::Rts),
        ("helmert a", Subcommand::Helmert),
        ("resect a", Subcommand::Resect),
        ("inverse 1 2 3 4", Subcommand::Inverse),
        ("", Subcommand::Help),
        ("-h", Subcommand::Help),
        ("--help", Subcommand::Help),
        ("help", Subcommand::Help),
    ];
    for (line, sub) in table {
        assert_eq!(route(&args(line)), Ok(sub), "{line}");
    }
    assert_eq!(route(&args("Surface a")), Err(format!("unknown subcommand \"Surface\"\n\n{USAGE}")));
    assert!(USAGE.starts_with("landsurvey-cli \u{2014} headless survey engine + DXF preview\n\nUSAGE:\n"));
    assert!(USAGE.ends_with("LS-DATUM, LS-RTS-SRC/DST, LS-*-LABEL."));
    assert_eq!(USAGE.lines().count(), 15);
}

#[test]
fn flags_take_the_word_behind_them() {
    let a = split_args(&args("-o x.dxf top --teach --out y.dxf bottom -o z.dxf --grid"), &["-o", "--out", "--grid"]);
    assert_eq!(a.positionals, args("top --teach bottom --grid"));
    assert_eq!(a.positionals.len() + 2 * a.options.len(), 10);
    assert_eq!(get(&a, "o"), Some(text("z.dxf")));
    assert_eq!(get(&a, "out"), Some(text("y.dxf")));
    assert_eq!(get(&a, "grid"), None);
    assert_eq!(opt(&a), Some(text("z.dxf")));
    let a = split_args(&args("--out y.dxf"), &["-o", "--out"]);
    assert_eq!(opt(&a), Some(text("y.dxf")));
    // An option stands before, between and behind the other words.
    for line in ["-o x a b", "a -o x b", "a b -o x"] {
        let a = split_args(&args(line), &["-o"]);
        assert_eq!((a.positionals.clone(), get(&a, "o")), (args("a b"), Some(text("x"))), "{line}");
    }
    // A flag may be the value of another.
    let a = split_args(&args("-o --out x"), &["-o", "--out"]);
    assert_eq!((a.positionals, opt_of("-o --out x")), (args("x"), Some(text("--out"))));
}

fn opt_of(line: &str) -> Option<String> {
    opt(&split_args(&args(line), &["-o", "--out"]))
}

#[test]
fn outputs_are_named_after_inputs() {
    assert_eq!(stem("dir/Top.csv"), "TOP");
    assert_eq!(output_path(&None, "TOP \u{c9}", "_rts.dxf"), "top \u{e9}_rts.dxf");
    assert_eq!(output_path(&None, "TOP-2", "_rts.dxf"), "top-2_rts.dxf");
    assert_eq!(stem("dir/eg.d/"), "EG");
    assert_eq!(output_path(&Some(text("A.dxf")), "TOP", ".dxf"), "A.dxf");
}

#[test]
fn pairs_are_northing_and_easting() {
    assert_eq!(parse_ne(" 1.5 , -2 "), Ok((text("1.5"), text("-2"))));
    assert_eq!(parse_ne("1,2,junk"), Ok((text("1"), text("2"))));
    assert_eq!(parse_ne("nan,inf"), Ok((text("nan"), text("inf"))));
    for bad in ["", "1", "1;2", ",2", "1,", "a,2", "1,b"] {
        assert_eq!(parse_ne(bad), Err(format!("bad N,E pair \"{bad}\"")));
    }
}

#[test]
fn surface_volume_and_datum_are_planned() {
    let q = plan_surface(&args("-o out.dxf a.csv")).unwrap();
    assert_eq!((q.path.as_str(), q.out.as_deref()), ("a.csv", Some("out.dxf")));
    assert_eq!(plan_surface(&args("-o a.csv")), Err(text("usage: surface <points.csv> [-o out.dxf]")));
    assert_eq!(plan_surface(&args("-o")).unwrap().path, "-o");

    let q = plan_volume(&args("a b --grid 5")).unwrap();
    assert_eq!((q.top.as_str(), q.bottom.as_str(), q.out.as_str()), ("a", "b", "volume.dxf"));
    assert_eq!(q.grid, Some(GridStep::Step(text("5"))));
    assert_eq!(plan_volume(&args("a b")).unwrap().grid, None);
    for bad in ["0", "-1", "nan", "x"] {
        let q = plan_volume(&args(&format!("a b --grid {bad} --out v.dxf"))).unwrap();
        assert_eq!((q.grid, q.out.as_str()), (Some(GridStep::Invalid(text(bad))), "v.dxf"));
    }
    let usage = "usage: volume <top.csv> <bottom.csv> [--grid step] [-o out.dxf]";
    assert_eq!(plan_volume(&args("a")), Err(text(usage)));
    assert_eq!(plan_volume(&args("")), Err(text(usage)));

    let q = plan_datum(&args("a 101.5")).unwrap();
    assert_eq!((q.path.as_str(), q.elevation.as_str(), q.out), ("a", "101.5", None));
    assert_eq!(plan_datum(&args("a")), Err(text("usage: datum <surface> <elevation> [-o out.dxf]")));
    assert_eq!(plan_datum(&args("a high")), Err(text("elevation must be a number")));
}

#[test]
fn rts_is_planned() {
    let q = plan_rts(&args("p.csv --base 1,2")).unwrap();
    assert_eq!(q.path, "p.csv");
    assert_eq!((q.base.clone(), q.to.clone()), ((text("1"), text("2")), (text("1"), text("2"))));
    assert_eq!((q.rotation.as_str(), q.scale.as_str()), ("0", "1"));
    assert_eq!((q.csv, q.anim, q.teach, q.out), (None, None, false, None));
    let q = plan_rts(&args("p.csv --base 1,2 --to 3,4 --rot 90 --scale 2 --csv c --anim a --teach -o o")).unwrap();
    assert_eq!(q.to, (text("3"), text("4")));
    assert_eq!((q.rotation.as_str(), q.scale.as_str()), ("90", "2"));
    assert_eq!((q.csv, q.anim, q.teach, q.out), (Some(text("c")), Some(text("a")), true, Some(text("o"))));
    let usage = "usage: rts <points.csv> --base <N,E> [--to <N,E>] [--rot deg] [--scale s]";
    let table = [
        ("", usage),
        ("p.csv", "rts needs --base <N,E>"),
        ("p.csv --base 1", "bad N,E pair \"1\""),
        ("p.csv --base 1,2 --to x,y", "bad N,E pair \"x,y\""),
        ("p.csv --base 1,2 --rot x --scale y", "rot must be a number"),
        ("p.csv --base 1,2 --scale y", "scale must be a number"),
    ];
    for (line, why) in table {
        assert_eq!(plan_rts(&args(line)), Err(text(why)), "{line}");
    }
}

#[test]
fn helmert_resect_and_inverse_are_planned() {
    let q = plan_helmert(&args("p.csv --apply x.csv --csv c.csv --anim a.svg --teach --out o.dxf")).unwrap();
    assert_eq!((q.path.as_str(), q.teach), ("p.csv", true));
    assert_eq!((q.apply, q.csv), (Some(text("x.csv")), Some(text("c.csv"))));
    assert_eq!((q.anim, q.out), (Some(text("a.svg")), Some(text("o.dxf"))));
    let usage = "usage: helmert <pairs.csv> [--apply points.csv] [--anim out.svg] [-o out.dxf]";
    assert_eq!(plan_helmert(&args("--apply x.csv")), Err(text(usage)));

    let q = plan_resect(&args("s.csv --anim a.svg")).unwrap();
    assert_eq!((q.path.as_str(), q.anim, q.out), ("s.csv", Some(text("a.svg")), None));
    assert_eq!(plan_resect(&[]), Err(text("usage: resect <shots.csv> [--anim out.svg] [-o out.dxf]")));

    let q = plan_inverse(&args("1 x 2 3 --anim a.svg 4 5")).unwrap();
    assert_eq!((q.coordinates, q.anim), (args("1 2 3 4"), Some(text("a.svg"))));
    let q = plan_inverse(&args("1 2 3 4 --anim a.svg -o b.svg")).unwrap();
    assert_eq!(q.anim, Some(text("b.svg")));
    assert_eq!(plan_inverse(&args("1 2 3 4")).unwrap().anim, None);
    let usage = "usage: inverse <N1> <E1> <N2> <E2> [--anim out.svg]";
    assert_eq!(plan_inverse(&args("1 2 3 x")), Err(text(usage)));
}

#[test]
fn layers_have_their_colours() {
    let named = |list: &[(&str, u8)]| -> Vec<(String, u8)> { list.iter().map(|(n, c)| (text(n), *c)).collect() };
    assert_eq!(layers(surface_layers("A")), named(&[("LS-TIN-A", 3), ("LS-POINTS-A", 7)]));
    assert_eq!(point_layer("A"), "LS-POINTS-A");
    assert_eq!(
        layers(volume_layers()),
        named(&[("LS-TIN-TOP", 3), ("LS-TIN-BOTTOM", 1), ("LS-CUTFILL", 5), ("LS-VOLUME-LABEL", 7)])
    );
    assert_eq!(
        layers(datum_layers("A")),
        named(&[("LS-TIN-A", 3), ("LS-DATUM", 5), ("LS-VOLUME-LABEL", 7)])
    );
    assert_eq!(layers(rts_layers()), named(&[("LS-RTS-SRC", 8), ("LS-RTS-DST", 3), ("LS-RTS-BASE", 1)]));
    assert_eq!(helmert_layers(false).len(), 10);
    assert_eq!(layers(helmert_layers(true))[10..], named(&[("LS-RTS-SRC", 8), ("LS-RTS-DST", 3)]));
    assert_eq!(layers(helmert_layers(false))[2], (text("LS-HMT-2-ROTATED"), 30));
    assert_eq!(layers(resect_layers())[0], (text("LS-RESECT-STATION"), 1));
}

#[test]
fn surfaces_and_volumes_are_printed() {
    assert_eq!(
        surface_message("TOP", 5, 4, 8, "10000.000", "top.dxf"),
        "surface \"TOP\": 5 pts, 4 triangles, 8 TIN edges, plan area 10000.000 -> top.dxf"
    );
    let grid = GridVolume { step: text("5.000"), volumes: cut_fill(), area: text("9.000"), cells: 36 };
    assert_eq!(
        volume_message(&cut_fill(), 5, 4, &Some(GridResult::Volume(grid)), "v.dxf", 2),
        "volume (exact TIN overlay): cut 1.000, fill 2.000, net -1.000 [top 5 pts, bottom 4 pts]\n\
         volume (grid @ 5.000): cut 1.000, fill 2.000, net -1.000, plan area 9.000, 36 cells\n\
         DXF -> v.dxf (cut/fill line: 2 seg)"
    );
    assert_eq!(
        volume_message(&cut_fill(), 5, 4, &Some(GridResult::Ignored(text("x"))), "v.dxf", 0),
        "volume (exact TIN overlay): cut 1.000, fill 2.000, net -1.000 [top 5 pts, bottom 4 pts]\n\
         (ignoring invalid --grid \"x\")\nDXF -> v.dxf (cut/fill line: 0 seg)"
    );
    assert!(!volume_message(&cut_fill(), 5, 4, &None, "v.dxf", 0).contains("grid"));
    assert_eq!(
        datum_message("A", "100", &cut_fill(), 5, 4, "a_datum.dxf", 3),
        "datum \"A\" vs elev 100: cut 1.000 (above), fill 2.000 (below), net -1.000 [5 pts, 4 triangles]\n\
         DXF -> a_datum.dxf (datum contour: 3 seg)"
    );
    assert_eq!(
        read_surface("a.xml", "", Some(None)),
        Err(text("\"a.xml\": no TIN surface found in LandXML"))
    );
    assert_eq!(
        read_surface("a.csv", "", None),
        Err(text("\"a.csv\" has 0 usable point(s); need at least 3 for a surface"))
    );
    assert_eq!(no_usable_points("a.csv"), "\"a.csv\" has no usable points");
    assert_eq!(unwritten("a.dxf", "full"), "cannot write \"a.dxf\": full");
}

#[test]
fn transformations_are_printed() {
    let t = RtsResult {
        scale: text("1.000000"),
        rotation: text("90.0000"),
        base_north: text("1.000"),
        base_east: text("2.000"),
        to_north: text("3.000"),
        to_east: text("4.000"),
        from_east: text("5.000"),
        from_north: text("6.000"),
        moved_east: text("7.000"),
        moved_north: text("8.000"),
    };
    assert_eq!(
        rts_message("P", 3, &t, "p_rts.dxf", &Some(text("c.csv")), &Some(text("a.svg"))),
        "rts \"P\": 3 pts, scale 1.000000, rotation 90.0000\u{b0} (CCW+), base (1.000,2.000)->(3.000,4.000)\n\
         e.g. (E 5.000, N 6.000) -> (E 7.000, N 8.000)\nDXF -> p_rts.dxf; CSV -> c.csv; anim -> a.svg"
    );
    assert!(rts_message("P", 3, &t, "p_rts.dxf", &None, &None).ends_with("DXF -> p_rts.dxf"));
    assert_eq!(csv_line("1", "2.0000", "3.0000", "4.0000", "IP, found"), "1,2.0000,3.0000,4.0000,IP, found\n");
    assert_eq!(
        inverse_message("5.0000", "36.8699", "N 36 E", &Some(text("a.svg"))),
        "distance 5.0000, azimuth 36.8699\u{b0}, bearing N 36 E\nanim -> a.svg"
    );
    assert_eq!(
        inverse_message("5.0000", "36.8699", "N 36 E", &None),
        "distance 5.0000, azimuth 36.8699\u{b0}, bearing N 36 E"
    );
}

#[test]
fn fits_and_stations_are_printed() {
    let fit = Fit {
        source_east: text("1"),
        source_north: text("2"),
        target_east: text("3"),
        target_north: text("4"),
        sxx: text("5"),
        sxy: text("6"),
        sum_sq: text("7"),
        scale: text("8"),
        rotation: text("9"),
        east: text("10"),
        north: text("11"),
        rms: text("12"),
        max: text("13"),
        residuals: vec![text("r0")],
    };
    assert_eq!(
        helmert_message(&fit, Some((4, "x.csv")), &Some(text("a.svg")), "p_helmert.dxf"),
        "helmert \u{2014} 2D 4-parameter conformal (Rotate/Translate/Scale)\n  \
         step 1  source centroid : E 1, N 2\n  \
         step 2  target centroid : E 3, N 4\n  \
         step 3  cross-cov sums  : Sxx 5, Sxy 6, S|d|^2 7\n  \
         step 4  scale  s        : 8   (hypot(a,b); a=Sxx/S|d|^2, b=Sxy/S|d|^2)\n  \
         step 5  rotation theta  : 9\u{b0} CCW+   (atan2(b,a))\n  \
         step 6  translation     : E 10, N 11   (centroid_dst - s*R*centroid_src)\n  \
         step 7  residuals       : RMS 12, max 13  (1 pairs)\n            \
         pair  1: r0\napplied to 4 points from x.csv\nanimation -> a.svg\nDXF (stages) -> p_helmert.dxf"
    );
    let combined = CombinedTexts {
        east: text("1"),
        north: text("2"),
        orientation: text("3"),
        scale: text("0.9"),
        blunder: true,
        rms: text("5"),
        residuals: vec![(text("A"), text("r"))],
    };
    assert_eq!(
        combined_message(&combined, &Some(text("a.svg")), "s_resect.dxf"),
        "resect \u{2014} free-station resection\n  \
         method        : combined (direction + distance, least-squares)\n  \
         station (E,N) : 1, 2\n  \
         orientation   : 3\u{b0}  (grid azimuth = reading + orientation)\n  \
         scale check   : 0.9   <-- WARNING: strays from 1.0 (distance/EDM blunder?)\n  \
         residuals     : RMS 5 (1 shot)\n                 A: r\nanim -> a.svg\nDXF -> s_resect.dxf"
    );
    let three = ThreePointTexts {
        east: text("1"),
        north: text("2"),
        orientation: text("3"),
        subtended: (text("4"), text("5"), text("6")),
        amplification: text("7.5"),
        danger: false,
    };
    assert_eq!(
        three_point_message(&three, &None, "s_resect.dxf"),
        "resect \u{2014} free-station resection\n  \
         method        : angle-only three-point (Tienstra)\n  \
         station (E,N) : 1, 2\n  \
         orientation   : 3\u{b0}  (grid azimuth = reading + orientation)\n  \
         subtended     : BPC 4\u{b0}, CPA 5\u{b0}, APB 6\u{b0}\n  \
         amplification  : 7.5x\nDXF -> s_resect.dxf"
    );
}
