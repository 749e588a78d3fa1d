use openscad_part_maker::extract_param_specs;
use openscad_part_maker::parse_options_from_comment;
use openscad_part_maker::ParamType;

#[test]
fn extract_finds_caps_assignments_and_types() {
    let scad = "\nMODE = \"base\";\nCOASTER_D = 101.6;\nUSE_SPINNER = true;\nFIT = CLEARANCE/2;\n$fn = 200;\n";

    let specs = extract_param_specs(scad);
    let names: Vec<&str> = specs.iter().map(|s| s.name.as_str()).collect();

    assert!(names.contains(&"MODE"));
    assert!(names.contains(&"COASTER_D"));
    assert!(names.contains(&"USE_SPINNER"));
    assert!(names.contains(&"FIT"));
    assert!(!names.contains(&"$fn"));

    let mode = specs.iter().find(|s| s.name == "MODE").unwrap();
    assert_eq!(mode.ty, ParamType::String);

    let d = specs.iter().find(|s| s.name == "COASTER_D").unwrap();
    assert_eq!(d.ty, ParamType::Number);

    let b = specs.iter().find(|s| s.name == "USE_SPINNER").unwrap();
    assert_eq!(b.ty, ParamType::Bool);
}

#[test]
fn marker_filtering_works() {
    let scad = "\nMODE = \"base\";  // @param\nCOASTER_D = 101.6; // @param\nFIT = CLEARANCE/2;\n";
    let specs = extract_param_specs(scad);
    let user: Vec<&str> = specs
        .iter()
        .filter(|s| s.is_user_param)
        .map(|s| s.name.as_str())
        .collect();

    assert_eq!(user, vec!["MODE", "COASTER_D"]);
}

#[test]
fn options_parse_from_comment() {
    let scad = "\nMODE=\"base\"; // @param options: base|inlay|magnet|preview\n";
    let specs = extract_param_specs(scad);
    let mode = specs.iter().find(|s| s.name == "MODE").unwrap();
    assert_eq!(mode.options, vec!["base", "inlay", "magnet", "preview"]);
}

#[test]
fn options_split_on_commas_and_trimmed() {
    let opts = parse_options_from_comment("@param options: octagon, circle ,  ,");
    assert_eq!(opts, vec!["octagon", "circle"]);
}

#[test]
fn options_token_is_case_insensitive() {
    let opts = parse_options_from_comment("Options: a|b");
    assert_eq!(opts, vec!["a", "b"]);
}

#[test]
fn no_options_token_means_no_options() {
    let opts = parse_options_from_comment("@param just a note");
    assert!(opts.is_empty());
}

#[test]
fn open_mode_without_markers_exposes_everything() {
    let scad = "MODE = \"base\";\nFIT = CLEARANCE/2;\n";
    let specs = extract_param_specs(scad);
    assert_eq!(specs.len(), 2);
    assert!(specs.iter().all(|s| s.is_user_param));
}

#[test]
fn corpus_case_two_user_params_one_hidden() {
    let scad = "MODE = \"base\"; // @param options: base|inlay\nCOASTER_D = 101.6; // @param\nFIT = CLEARANCE/2;\n";
    let specs = extract_param_specs(scad);
    assert_eq!(specs.len(), 3);

    let user: Vec<&str> = specs
        .iter()
        .filter(|s| s.is_user_param)
        .map(|s| s.name.as_str())
        .collect();
    assert_eq!(user, vec!["MODE", "COASTER_D"]);

    let mode = specs.iter().find(|s| s.name == "MODE").unwrap();
    assert_eq!(mode.ty, ParamType::String);
    assert_eq!(mode.options, vec!["base", "inlay"]);

    let d = specs.iter().find(|s| s.name == "COASTER_D").unwrap();
    assert_eq!(d.ty, ParamType::Number);
    assert_eq!(d.default, "101.6");

    let fit = specs.iter().find(|s| s.name == "FIT").unwrap();
    assert!(!fit.is_user_param);
}

#[test]
fn type_inference_is_syntactic() {
    let scad = "A = \"base\";\nB = 101.6;\nC = true;\nD = FALSE;\nE = CLEARANCE/2;\n";
    let specs = extract_param_specs(scad);
    let ty_of = |n: &str| specs.iter().find(|s| s.name == n).unwrap().ty;
    assert_eq!(ty_of("A"), ParamType::String);
    assert_eq!(ty_of("B"), ParamType::Number);
    assert_eq!(ty_of("C"), ParamType::Bool);
    assert_eq!(ty_of("D"), ParamType::Bool);
    assert_eq!(ty_of("E"), ParamType::Number);
}

#[test]
fn lower_case_and_sigil_names_are_not_declarations() {
    let scad = "mode = \"base\";\n$fa = 5;\n_X = 1;\n9Y = 2;\nAB9_C = 3;\n";
    let specs = extract_param_specs(scad);
    let names: Vec<&str> = specs.iter().map(|s| s.name.as_str()).collect();
    assert_eq!(names, vec!["AB9_C"]);
}

#[test]
fn trailing_garbage_after_terminator_rejects_the_line() {
    let scad = "A = 1; extra\nB = 2; // ok\n";
    let specs = extract_param_specs(scad);
    let names: Vec<&str> = specs.iter().map(|s| s.name.as_str()).collect();
    assert_eq!(names, vec!["B"]);
    assert_eq!(specs[0].comment, "ok");
}

#[test]
fn later_duplicate_overwrites_earlier_in_template() {
    let scad = "A = 1;\nA = 2;\n";
    let tmpl = openscad_part_maker::ScadParamTemplate::from_corpus(scad);
    assert_eq!(tmpl.specs.len(), 1);
    assert_eq!(tmpl.specs[0].default, "2");
    assert_eq!(tmpl.defaults[0].value, "2");
}
