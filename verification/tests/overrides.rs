use openscad_part_maker::parse_bool;
use openscad_part_maker::sanitize_filename_component;
use openscad_part_maker::ScadParamTemplate;
use openscad_part_maker::ScadParams;

fn lib_corpus() -> &'static str {
    "NAME = \"output\";\n\
     MODE = \"base\";\n\
     SHAPE = \"octagon\";\n\
     SHAPE_ROT = 22.5;\n\
     COASTER_D = 101.6;\n\
     BASE_H = 5.0;\n\
     INLAY_DH = 1.2;\n\
     MARGIN = 27.5;\n\
     CLEARANCE = 0.10;\n\
     SEG = 200;\n\
     INTERLOCK = false;\n\
     EDGE_CLEAR = 15.0;\n\
     MAG_D = 15.5;\n\
     MAG_H = 3.0;\n\
     MAG_CLEAR = 0.5;\n\
     BOTTOM_SKIN = 0.4;\n\
     BOSS_CLEARANCE = 0.2;\n\
     BOSS_H = 0.8;\n\
     SPINNER_D = 15.0;\n\
     USE_SPINNER = true;\n"
}

fn lib_params() -> ScadParams {
    ScadParamTemplate::from_corpus(lib_corpus()).instantiate()
}

#[test]
fn parse_bool_accepts_truthy_variants() {
    for v in ["1", "true", "TRUE", "on", "On", "yes", "YeS"] {
        assert_eq!(parse_bool(v), Ok(true), "variant {v} should be true");
    }
}

#[test]
fn parse_bool_accepts_falsy_variants() {
    for v in ["0", "false", "FALSE", "off", "Off", "no", "No"] {
        assert_eq!(parse_bool(v), Ok(false), "variant {v} should be false");
    }
}

#[test]
fn parse_bool_rejects_unknown_strings() {
    for v in ["", "maybe", "truth", "2", "yep", "nah"] {
        assert!(parse_bool(v).is_err(), "variant {v} should be Err");
    }
}

#[test]
fn sanitize_filename_component_replaces_unsafe_chars() {
    assert_eq!(sanitize_filename_component("My Logo!.svg"), "My_Logo__svg");
    assert_eq!(
        sanitize_filename_component("weird/\\name?*"),
        "weird__name__"
    );
    assert_eq!(sanitize_filename_component("\u{fc}mlaut\u{1f480}"), "_mlaut_");
}

#[test]
fn set_from_field_only_updates_known_params() {
    let scad = "\nMODE = \"base\";\nCOASTER_D = 101.6;\nUSE_SPINNER = true;\n";
    let tmpl = ScadParamTemplate::from_corpus(scad);

    let mut p = tmpl.instantiate();
    p.set_from_field("mode", "preview").unwrap();
    p.set_from_field("use_spinner", "false").unwrap();
    p.set_from_field("unknown", "123").unwrap();

    assert_eq!(p.get_raw("MODE").unwrap(), "\"preview\"");
    assert_eq!(p.get_raw("USE_SPINNER").unwrap(), "false");
    assert!(p.get_raw("UNKNOWN").is_none());
}

#[test]
fn set_from_field_empty_text_is_noop() {
    let mut p = lib_params();
    p.set_from_field("mode", "").unwrap();
    p.set_from_field("coaster_d", "").unwrap();
    assert_eq!(p.get_raw("MODE").unwrap(), "\"base\"");
    assert_eq!(p.get_raw("COASTER_D").unwrap(), "101.6");
}

#[test]
fn set_from_field_updates_string_fields() {
    let mut p = lib_params();
    p.set_from_field("name", "hello").unwrap();
    p.set_from_field("mode", "preview").unwrap();
    p.set_from_field("shape", "circle").unwrap();
    assert_eq!(p.get_raw("NAME").unwrap(), "\"hello\"");
    assert_eq!(p.get_raw("MODE").unwrap(), "\"preview\"");
    assert_eq!(p.get_raw("SHAPE").unwrap(), "\"circle\"");
}

#[test]
fn set_from_field_updates_numeric_fields() {
    let mut p = lib_params();
    p.set_from_field("shape_rot", "30.5").unwrap();
    p.set_from_field("coaster_d", "111.1").unwrap();
    p.set_from_field("base_h", "6.25").unwrap();
    p.set_from_field("seg", "123").unwrap();
    p.set_from_field("edge_clear", "9.9").unwrap();
    p.set_from_field("spinner_d", "17.0").unwrap();

    assert_eq!(p.get_raw("SHAPE_ROT").unwrap(), "30.5");
    assert_eq!(p.get_raw("COASTER_D").unwrap(), "111.1");
    assert_eq!(p.get_raw("BASE_H").unwrap(), "6.25");
    assert_eq!(p.get_raw("SEG").unwrap(), "123");
    assert_eq!(p.get_raw("EDGE_CLEAR").unwrap(), "9.9");
    assert_eq!(p.get_raw("SPINNER_D").unwrap(), "17.0");
}

#[test]
fn set_from_field_updates_bool_fields() {
    let mut p = lib_params();
    p.set_from_field("interlock", "true").unwrap();
    p.set_from_field("use_spinner", "false").unwrap();
    assert_eq!(p.get_raw("INTERLOCK").unwrap(), "true");
    assert_eq!(p.get_raw("USE_SPINNER").unwrap(), "false");
}

#[test]
fn set_from_field_invalid_bool_errors() {
    let mut p = lib_params();
    assert!(p.set_from_field("interlock", "perhaps").is_err());
    assert!(p.set_from_field("use_spinner", "2").is_err());
}

#[test]
fn set_from_field_invalid_number_rejected_and_value_kept() {
    let mut p = lib_params();
    assert!(p.set_from_field("coaster_d", "nope").is_err());
    assert!(p.set_from_field("coaster_d", "1.2.3").is_err());
    assert!(p.set_from_field("coaster_d", "1e").is_err());
    assert_eq!(p.get_raw("COASTER_D").unwrap(), "101.6");
}

#[test]
fn set_from_field_accepts_number_literal_shapes() {
    let mut p = lib_params();
    for v in ["101.6", "-2.5E-3", ".5", "1e5", "+3.", "inf", "NaN", "200"] {
        assert!(p.set_from_field("coaster_d", v).is_ok(), "literal {v} should be accepted");
        assert_eq!(p.get_raw("COASTER_D").unwrap(), v);
    }
}

#[test]
fn set_from_field_unknown_field_does_not_error() {
    let mut p = lib_params();
    p.set_from_field("not_a_real_field", "123").unwrap();
    assert_eq!(p.get_raw("NAME").unwrap(), "\"output\"");
    assert_eq!(p.get_raw("SEG").unwrap(), "200");
}

#[test]
fn unicode_whitespace_submission_is_noop() {
    let mut p = lib_params();
    p.set_from_field("use_spinner", "\u{a0}\u{2003}").unwrap();
    assert_eq!(p.get_raw("USE_SPINNER").unwrap(), "true");
}

#[test]
fn string_values_are_escaped_and_quoted() {
    let mut p = lib_params();
    p.set_from_field("name", "a\\b\"c").unwrap();
    assert_eq!(p.get_raw("NAME").unwrap(), "\"a\\\\b\\\"c\"");
}

#[test]
fn bool_and_number_defaults_round_trip() {
    let mut p = lib_params();
    p.set_from_field("use_spinner", "true").unwrap();
    p.set_from_field("coaster_d", "101.6").unwrap();
    let frags = p.iter_defines();
    assert!(frags.contains(&"USE_SPINNER=true".to_string()));
    assert!(frags.contains(&"COASTER_D=101.6".to_string()));
}

#[test]
fn canonical_false_fragment_for_use_spinner() {
    let scad = "USE_SPINNER = true;\n";
    let mut p = ScadParamTemplate::from_corpus(scad).instantiate();
    p.set_from_field("use_spinner", "false").unwrap();
    let frags = p.iter_defines();
    assert_eq!(frags, vec!["USE_SPINNER=false"]);
}

#[test]
fn iter_defines_is_ascending_whatever_the_submission_order() {
    let scad = "ZULU = 1;\nALPHA = 2;\nMIKE = 3;\n";
    let mut p = ScadParamTemplate::from_corpus(scad).instantiate();
    p.set_from_field("zulu", "9").unwrap();
    p.set_from_field("mike", "8").unwrap();
    p.set_from_field("alpha", "7").unwrap();
    assert_eq!(p.iter_defines(), vec!["ALPHA=7", "MIKE=8", "ZULU=9"]);

    let mut q = ScadParamTemplate::from_corpus(scad).instantiate();
    q.set_from_field("alpha", "7").unwrap();
    q.set_from_field("zulu", "9").unwrap();
    q.set_from_field("mike", "8").unwrap();
    assert_eq!(q.iter_defines(), p.iter_defines());
}

#[test]
fn unknown_field_never_appears_in_defines() {
    let scad = "ALPHA = 1;\n";
    let mut p = ScadParamTemplate::from_corpus(scad).instantiate();
    p.set_from_field("bravo", "2").unwrap();
    assert_eq!(p.iter_defines(), vec!["ALPHA=1"]);
}

#[test]
fn user_param_names_lists_adjustable_in_ascending_order() {
    let scad = "ZULU = 1; // @param\nALPHA = 2;\nMIKE = 3; // @param\n";
    let tmpl = ScadParamTemplate::from_corpus(scad);
    assert_eq!(tmpl.user_param_names(), vec!["MIKE", "ZULU"]);
}

#[test]
fn field_names_are_upper_cased_to_declaration_names() {
    assert_eq!(openscad_part_maker::field_to_scad_name("use_spinner"), "USE_SPINNER");
    assert_eq!(openscad_part_maker::field_to_scad_name("Mode2"), "MODE2");
}
