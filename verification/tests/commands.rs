use landsurvey::console::{cannot_read, Reply};
use landsurvey::dispatch::{
    auto_label_toggle, first_arg, handle, hello, import_request, Verb, PNEZD_USAGE,
};
use landsurvey::layers::{code_layer, layer_stem, surface_name};
use landsurvey::pnezd::Format;
use landsurvey::requests::{
    datum_request, helmert_request, inverse_request, path_request, refuse_scale, resect_request, rts_request,
    volume_request, HelmertMode, RtsRefusal, DATUM_USAGE, HELMERT_USAGE, INVERSE_USAGE, RESECT_USAGE,
    RTS_USAGE, SURFACE_USAGE, VOLUME_USAGE,
};

fn info(s: &str) -> Reply {
    Reply::Info(s.to_string())
}

fn error(s: &str) -> Reply {
    Reply::Error(s.to_string())
}

fn output(s: &str) -> Reply {
    Reply::Output(s.to_string())
}

#[test]
fn verbs_name_commands_in_whatever_case() {
    let table = [
        ("LS_HELLO", Verb::Hello),
        ("LS_PNEZD a.csv", Verb::Pnezd),
        ("ls_autolabel off", Verb::AutoLabel),
        ("Ls_ImportPlan p.json", Verb::ImportPlan),
        ("LS_INVERSE 1 2 3 4", Verb::Inverse),
        ("ls_volume", Verb::Volume),
        ("LS_SURFACE x", Verb::Surface),
        ("LS_LANDXML x", Verb::LandXml),
        ("LandXmlImport x", Verb::LandXml),
        ("LS_DATUM x 1", Verb::Datum),
        ("LS_RTS 1 2 3 4", Verb::Rts),
        ("LS_HELMERT x", Verb::Helmert),
        ("LS_RESECT x", Verb::Resect),
        ("  \tls_list", Verb::List),
    ];
    for (line, verb) in table {
        assert_eq!(handle(line), Some(verb), "{line}");
    }
    for line in ["", "   ", "LINE 1 2", "LS_", "LS_NOTHING", "LSHELLO", "LS_HELLOX"] {
        assert_eq!(handle(line), None, "{line}");
    }
    // The long s has an S for its capital.
    assert_eq!(handle("l\u{17f}_hello"), Some(Verb::Hello));
    assert!(matches!(hello(), Reply::Info(s) if s.starts_with("Land Survey plugin ready.")));
}

#[test]
fn the_argument_is_what_follows_the_verb() {
    assert_eq!(first_arg("LS_SURFACE  C:\\my points\\a b.csv  "), "C:\\my points\\a b.csv");
    assert_eq!(first_arg("LS_SURFACE"), "");
    assert_eq!(first_arg("LS_SURFACE \t "), "");
    // White space before the verb is not part of the command.
    assert_eq!(first_arg("  LS_SURFACE a.csv"), "a.csv");
    assert_eq!(path_request("LS_SURFACE a b.csv", SURFACE_USAGE), Ok("a b.csv".to_string()));
    assert_eq!(path_request("LS_SURFACE", SURFACE_USAGE), Err(info(SURFACE_USAGE)));
}

#[test]
fn import_keywords_come_off_the_end_in_any_order() {
    let q = import_request("LS_PNEZD my points.csv PENZD Detail preview").unwrap();
    assert_eq!(q.path, "my points.csv");
    assert_eq!(q.format, Format::penzd());
    assert!(q.preview && q.detail);
    let q = import_request("LS_PNEZD my detail points.csv").unwrap();
    assert_eq!(q.path, "my detail points.csv");
    assert_eq!(q.format, Format::pnezd());
    assert!(!q.preview && !q.detail);
    // The first keyword for the columns holds.
    let q = import_request("LS_PNEZD a.csv pnezd penzd").unwrap();
    assert_eq!(q.format, Format::pnezd());
    let q = import_request("LS_PNEZD a.csv penzd preview pnezd").unwrap();
    assert_eq!(q.format, Format::penzd());
    let q = import_request("LS_PNEZD a.csv preview penzd").unwrap();
    assert_eq!((q.path.as_str(), q.format, q.preview, q.detail), ("a.csv", Format::penzd(), true, false));
    let q = import_request("LS_PNEZD penzd a.csv PNEZD").unwrap();
    assert_eq!((q.path.as_str(), q.format), ("penzd a.csv", Format::pnezd()));
    // A keyword alone is a path.
    assert_eq!(import_request("LS_PNEZD preview").unwrap().path, "preview");
    assert_eq!(import_request("LS_PNEZD  "), Err(info(PNEZD_USAGE)));
    // White space of any width stands before a keyword, and in a path.
    let q = import_request("LS_PNEZD a\u{3000}b.csv\u{2003}PREVIEW").unwrap();
    assert_eq!((q.path.as_str(), q.preview), ("a\u{3000}b.csv", true));
    let q = import_request("LS_PNEZD a\u{3000}b.csv").unwrap();
    assert_eq!((q.path.as_str(), q.preview, q.detail), ("a\u{3000}b.csv", false, false));
    assert_eq!(
        cannot_read("LS_PNEZD", &q.path, "E"),
        error("LS_PNEZD: cannot read \"a\u{3000}b.csv\": E")
    );
}

#[test]
fn labels_are_switched_and_reported() {
    let mut suppressed = false;
    let on = output("LS_AUTOLABEL: point labels ON on import.");
    let off = output("LS_AUTOLABEL: point labels OFF on import.");
    assert_eq!(auto_label_toggle("LS_AUTOLABEL", &mut suppressed), on);
    assert_eq!(auto_label_toggle("LS_AUTOLABEL off", &mut suppressed), off);
    assert!(suppressed);
    assert_eq!(auto_label_toggle("LS_AUTOLABEL OFF", &mut suppressed), off);
    assert_eq!(auto_label_toggle("LS_AUTOLABEL  ", &mut suppressed), off);
    assert_eq!(auto_label_toggle("LS_AUTOLABEL maybe", &mut suppressed), info("Usage: LS_AUTOLABEL [ON|OFF]"));
    assert!(suppressed);
    assert_eq!(auto_label_toggle("LS_AUTOLABEL On", &mut suppressed), on);
    assert!(!suppressed);
}

#[test]
fn layers_are_named_after_codes() {
    assert_eq!(code_layer(""), "LS-POINTS");
    assert_eq!(code_layer("ip"), "LS-PT-IP");
    assert_eq!(code_layer("Tree/5\u{e9}-a_b"), "LS-PT-TREE_5_-A_B");
}

#[test]
fn surfaces_are_named_after_files() {
    assert_eq!(layer_stem("/data/my topo.v2.csv"), "MY TOPO.V2");
    assert_eq!(layer_stem("top"), "TOP");
    assert_eq!(layer_stem(".hidden"), ".HIDDEN");
    assert_eq!(layer_stem("stra\u{df}e.csv"), "STRASSE");
    assert_eq!(layer_stem(""), "SURFACE");
    assert_eq!(layer_stem("/"), "SURFACE");
    assert_eq!(layer_stem("a/.."), "SURFACE");
    assert_eq!(layer_stem("dir/eg.d/"), "EG");
    assert_eq!(layer_stem("dir/eg/.//"), "EG");
    assert_eq!(layer_stem("dir/../"), "SURFACE");
    assert_eq!(surface_name(None), "SURFACE");
    assert_eq!(surface_name(Some(String::new())), "SURFACE");
    assert_eq!(surface_name(Some("eg".to_string())), "EG");
}

#[test]
fn an_inverse_takes_four_finite_numbers() {
    let q = inverse_request("LS_INVERSE 1 DRAW -2.5 3e2 .5").unwrap();
    assert_eq!(q.coordinates, vec!["1", "-2.5", "3e2", ".5"]);
    assert!(q.draw && !q.anim);
    assert!(inverse_request("LS_INVERSE 1 2 3 4 anim").unwrap().anim);
    assert_eq!(inverse_request("LS_INVERSE"), Err(info(INVERSE_USAGE)));
    assert_eq!(
        inverse_request("LS_INVERSE 1 2 x 4"),
        Err(error(&format!("LS_INVERSE: \"x\" is not a finite number. {INVERSE_USAGE}")))
    );
    assert_eq!(
        inverse_request("LS_INVERSE 1 inf 3 4"),
        Err(error(&format!("LS_INVERSE: \"inf\" is not a finite number. {INVERSE_USAGE}")))
    );
    assert_eq!(
        inverse_request("LS_INVERSE 1 2 3"),
        Err(error(&format!("LS_INVERSE: expected 4 coordinates, got 3. {INVERSE_USAGE}")))
    );
    assert_eq!(
        inverse_request("LS_INVERSE draw"),
        Err(error(&format!("LS_INVERSE: expected 4 coordinates, got 0. {INVERSE_USAGE}")))
    );
}

#[test]
fn a_volume_takes_two_names_or_none() {
    let q = volume_request("LS_VOLUME").unwrap();
    assert_eq!((q.top.as_str(), q.bottom.as_str()), ("top", "bottom"));
    assert_eq!((q.grid, q.draw), (None, false));
    let q = volume_request("LS_VOLUME eg 2 fg Draw 0.5 extra -7 nan").unwrap();
    assert_eq!((q.top.as_str(), q.bottom.as_str()), ("eg", "fg"));
    assert_eq!((q.grid, q.draw), (Some("0.5".to_string()), true));
    assert_eq!(volume_request("LS_VOLUME eg 2"), Err(info(VOLUME_USAGE)));
    assert_eq!(volume_request("LS_VOLUME 0 -1 draw").unwrap().grid, None);
    assert_eq!(volume_request("LS_VOLUME inf").unwrap().grid, Some("inf".to_string()));
}

#[test]
fn a_datum_takes_a_name_and_a_number() {
    let q = datum_request("LS_DATUM eg 101.5 more").unwrap();
    assert_eq!((q.surface.as_str(), q.elevation.as_str()), ("eg", "101.5"));
    assert_eq!(datum_request("LS_DATUM eg"), Err(info(DATUM_USAGE)));
    assert_eq!(
        datum_request("LS_DATUM eg high"),
        Err(info("LS_DATUM: elevation must be a number, got \"high\""))
    );
}

#[test]
fn a_transformation_takes_four_or_six_numbers() {
    let q = rts_request("LS_RTS 1 2 90 1.5").unwrap();
    assert_eq!(
        [q.base_n.as_str(), q.base_e.as_str(), q.to_n.as_str(), q.to_e.as_str()],
        ["1", "2", "1", "2"]
    );
    assert_eq!((q.rotation.as_str(), q.scale.as_str()), ("90", "1.5"));
    let q = rts_request("LS_RTS 1 2 90 1.5 7 8").unwrap();
    assert_eq!([q.to_n.as_str(), q.to_e.as_str()], ["7", "8"]);
    let refusal = |s: &str| match rts_request(s) {
        Err(RtsRefusal::Because(r)) => r,
        other => panic!("{other:?}"),
    };
    assert_eq!(refusal("LS_RTS"), info(RTS_USAGE));
    assert_eq!(
        refusal("LS_RTS 1 2 3"),
        error(&format!("LS_RTS: expected 4 or 6 arguments, got 3. {RTS_USAGE}"))
    );
    assert_eq!(
        refusal("LS_RTS 1 2 3 4 5"),
        error(&format!("LS_RTS: expected 4 or 6 arguments, got 5. {RTS_USAGE}"))
    );
    assert_eq!(
        refusal("LS_RTS 1 2 three 4"),
        error(&format!("LS_RTS: \"three\" is not a finite number. {RTS_USAGE}"))
    );
    for scale in ["0", "-2", "-0.0", "1e-400"] {
        match rts_request(&format!("LS_RTS 1 2 3 {scale}")) {
            Err(RtsRefusal::Scale(s)) => assert_eq!(s, scale),
            other => panic!("{other:?}"),
        }
    }
    assert_eq!(refuse_scale("-2"), error("LS_RTS: scale must be positive, got -2."));
}

#[test]
fn a_fit_takes_a_path_and_a_mode() {
    let table = [
        ("LS_HELMERT my pairs.csv", "my pairs.csv", HelmertMode::Report),
        ("LS_HELMERT my pairs.csv  APPLY", "my pairs.csv", HelmertMode::Apply),
        ("LS_HELMERT p.csv stages", "p.csv", HelmertMode::Stages),
        ("LS_HELMERT p.csv anim", "p.csv", HelmertMode::Anim),
        ("LS_HELMERT p.csv teach ", "p.csv", HelmertMode::Teach),
        ("LS_HELMERT apply", "apply", HelmertMode::Report),
        ("LS_HELMERT p.csv\tapply", "p.csv\tapply", HelmertMode::Report),
    ];
    for (line, path, mode) in table {
        let q = helmert_request(line).unwrap();
        assert_eq!((q.path.as_str(), q.mode), (path, mode), "{line}");
    }
    assert_eq!(helmert_request("LS_HELMERT"), Err(info(HELMERT_USAGE)));
}

#[test]
fn a_resection_takes_a_path() {
    let q = resect_request("LS_RESECT my shots.csv Anim").unwrap();
    assert_eq!((q.path.as_str(), q.anim), ("my shots.csv", true));
    let q = resect_request("LS_RESECT my shots.csv").unwrap();
    assert_eq!((q.path.as_str(), q.anim), ("my shots.csv", false));
    assert_eq!(resect_request("LS_RESECT "), Err(info(RESECT_USAGE)));
}

#[test]
fn unreadable_files_are_reported() {
    assert_eq!(
        cannot_read("LS_PNEZD", "a.csv", "no such file"),
        error("LS_PNEZD: cannot read \"a.csv\": no such file")
    );
}
