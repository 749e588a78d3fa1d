use openscad_part_maker::build_openscad_args;
use openscad_part_maker::ScadParamTemplate;

fn corpus() -> &'static str {
    "NAME = \"output\";\n\
     MODE = \"base\";\n\
     SHAPE = \"octagon\";\n\
     SHAPE_ROT = 22.5;\n\
     COASTER_D = 101.6;\n\
     BASE_H = 5.0;\n\
     INLAY_DH = 1.2;\n\
     MARGIN = 27.5;\n\
     CLEARANCE = 0.10;\n\
     SEG = 200;\n\
     INTERLOCK = false;\n\
     EDGE_CLEAR = 15.0;\n\
     MAG_D = 15.5;\n\
     MAG_H = 3.0;\n\
     MAG_CLEAR = 0.5;\n\
     BOTTOM_SKIN = 0.4;\n\
     BOSS_CLEARANCE = 0.2;\n\
     BOSS_H = 0.8;\n\
     SPINNER_D = 15.0;\n\
     USE_SPINNER = true;\n"
}

#[test]
fn build_openscad_args_contains_expected_params_and_order() {
    let mut p = ScadParamTemplate::from_corpus(corpus()).instantiate();
    p.set_from_field("name", "My Logo").unwrap();
    p.set_from_field("mode", "preview").unwrap();
    p.set_from_field("shape", "circle").unwrap();
    p.set_from_field("interlock", "true").unwrap();
    p.set_from_field("use_spinner", "false").unwrap();

    let args = build_openscad_args(
        "0.25",
        "9.0",
        "123",
        &p,
        "/tmp/input.svg",
        "/tmp/output.stl",
        "/app/input.scad",
    );

    // head args
    assert_eq!(args[0], "--render");
    assert_eq!(args[1], "-D");
    assert_eq!(args[2], "fs=0.25");
    assert!(args.contains(&"fa=9".to_string()) || args.contains(&"fa=9.0".to_string()));
    assert!(args.contains(&"fn=123".to_string()));

    // some lib params
    assert!(args.contains(&"NAME=\"My Logo\"".to_string()));
    assert!(args.contains(&"MODE=\"preview\"".to_string()));
    assert!(args.contains(&"SHAPE=\"circle\"".to_string()));
    assert!(args.contains(&"INTERLOCK=true".to_string()));
    assert!(args.contains(&"USE_SPINNER=false".to_string()));

    // svg path override
    assert!(args.contains(&"SVG_PATH=\"/tmp/input.svg\"".to_string()));

    // tail order: -o stl main_scad
    let tail = &args[args.len() - 3..];
    assert_eq!(tail[0], "-o");
    assert_eq!(tail[1], "/tmp/output.stl");
    assert_eq!(tail[2], "/app/input.scad");
}

#[test]
fn overrides_stand_between_quality_and_output_ascending_by_name() {
    let mut p = ScadParamTemplate::from_corpus("B = 2;\nA = 1;\n").instantiate();
    p.set_from_field("b", "20").unwrap();

    let args = build_openscad_args("0.1", "5", "200", &p, "in.svg", "out.stl", "main.scad");
    let expect: Vec<&str> = vec![
        "--render", "-D", "fs=0.1", "-D", "fa=5", "-D", "fn=200", "-D", "A=1", "-D", "B=20", "-D",
        "SVG_PATH=\"in.svg\"", "-o", "out.stl", "main.scad",
    ];
    assert_eq!(args, expect);
}
