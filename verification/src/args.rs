//! The argument sequence for one external render invocation, in its fixed
//! order: the render switch, the caller's engine-quality overrides, every
//! parameter override ascending by name, the synthesized binary-input path
//! override last among overrides, then the output path and the entry
//! document path.

use vstd::prelude::*;

use crate::instance::{spec_defines, ScadParams};

verus! {

/// The option that precedes each override fragment.
pub open spec fn dash_d() -> Seq<char> {
    seq!['-', 'D']
}

/// The fixed head: render switch and the three quality overrides.
pub open spec fn head_args(fs: Seq<char>, fa: Seq<char>, fnq: Seq<char>) -> Seq<Seq<char>> {
    seq![
        "--render"@,
        dash_d(),
        "fs="@ + fs,
        dash_d(),
        "fa="@ + fa,
        dash_d(),
        "fn="@ + fnq,
    ]
}

/// Each override fragment preceded by the option.
pub open spec fn defines_args(ds: Seq<Seq<char>>) -> Seq<Seq<char>>
    decreases ds.len(),
{
    if ds.len() == 0 {
        Seq::empty()
    } else {
        seq![dash_d(), ds[0]] + defines_args(ds.skip(1))
    }
}

/// The synthesized override for the caller-supplied binary input.
pub open spec fn svg_path_arg(svg: Seq<char>) -> Seq<char> {
    "SVG_PATH=\""@ + svg + "\""@
}

/// The fixed tail: output path option, output path, entry document path.
pub open spec fn tail_args(svg: Seq<char>, stl: Seq<char>, input: Seq<char>) -> Seq<Seq<char>> {
    seq![dash_d(), svg_path_arg(svg), "-o"@, stl, input]
}

/// The whole argument sequence of one invocation.
pub open spec fn spec_args(
    fs: Seq<char>,
    fa: Seq<char>,
    fnq: Seq<char>,
    ds: Seq<Seq<char>>,
    svg: Seq<char>,
    stl: Seq<char>,
    input: Seq<char>,
) -> Seq<Seq<char>> {
    head_args(fs, fa, fnq) + defines_args(ds) + tail_args(svg, stl, input)
}

proof fn lemma_defines_args_concat(a: Seq<Seq<char>>, b: Seq<Seq<char>>)
    ensures
        defines_args(a + b) == defines_args(a) + defines_args(b),
    decreases a.len(),
{
    if a.len() == 0 {
        assert(a + b =~= b);
        assert(defines_args(a) + defines_args(b) =~= defines_args(b));
    } else {
        lemma_defines_args_concat(a.skip(1), b);
        assert((a + b).skip(1) =~= a.skip(1) + b);
        assert((a + b)[0] == a[0]);
        assert(defines_args(a + b) =~= seq![dash_d(), a[0]] + (defines_args(a.skip(1))
            + defines_args(b)));
        assert(seq![dash_d(), a[0]] + (defines_args(a.skip(1)) + defines_args(b)) =~= (seq![
            dash_d(),
            a[0],
        ] + defines_args(a.skip(1))) + defines_args(b));
    }
}

/// Builds the command-line argument list for one render: quality overrides
/// as validated numeric text, then every parameter override in ascending
/// name order, then the binary-input path override, the output path and
/// the entry document — so equal requests give byte-identical invocations.
pub fn build_openscad_args(
    fs: &str,
    fa: &str,
    fnq: &str,
    params: &ScadParams,
    svg_path: &str,
    stl_path: &str,
    input_scad_path: &str,
) -> (r: Vec<String>)
    ensures
        r.deep_view() == spec_args(
            fs@,
            fa@,
            fnq@,
            spec_defines(params.values.deep_view()),
            svg_path@,
            stl_path@,
            input_scad_path@,
        ),
{
    let ghost ds = spec_defines(params.values.deep_view());
    let mut args: Vec<String> = Vec::new();
    args.push("--render".to_owned());
    args.push("-D".to_owned());
    args.push("fs=".to_owned().concat(fs));
    args.push("-D".to_owned());
    args.push("fa=".to_owned().concat(fa));
    args.push("-D".to_owned());
    args.push("fn=".to_owned().concat(fnq));
    proof {
        reveal_strlit("--render");
        reveal_strlit("-D");
        reveal_strlit("fs=");
        reveal_strlit("fa=");
        reveal_strlit("fn=");
        assert("-D"@ =~= dash_d());
        assert(args.deep_view() =~~= head_args(fs@, fa@, fnq@));
    }
    let frags = params.iter_defines();
    let n = frags.len();
    let mut i: usize = 0;
    proof {
        assert(ds.take(0) =~= Seq::<Seq<char>>::empty());
        assert(args.deep_view() =~~= head_args(fs@, fa@, fnq@) + defines_args(ds.take(0)));
    }
    while i < n
        invariant
            i <= n == frags@.len(),
            frags.deep_view() == ds,
            args.deep_view() == head_args(fs@, fa@, fnq@) + defines_args(ds.take(i as int)),
        decreases n - i,
    {
        let ghost pre = args.deep_view();
        args.push("-D".to_owned());
        let frag = frags[i].clone();
        args.push(frag);
        proof {
            reveal_strlit("-D");
            assert(frags.deep_view()[i as int] == frags@[i as int]@);
            assert(args.deep_view() =~~= pre + seq![dash_d(), ds[i as int]]);
            lemma_defines_args_concat(ds.take(i as int), seq![ds[i as int]]);
            assert(ds.take(i + 1) =~= ds.take(i as int) + seq![ds[i as int]]);
            assert(seq![ds[i as int]].skip(1) =~= Seq::<Seq<char>>::empty());
            assert(defines_args(Seq::<Seq<char>>::empty()) == Seq::<Seq<char>>::empty());
            assert(defines_args(seq![ds[i as int]]) =~~= seq![dash_d(), ds[i as int]]);
            assert(args.deep_view() =~~= head_args(fs@, fa@, fnq@) + defines_args(
                ds.take(i + 1),
            ));
        }
        i = i + 1;
    }
    let ghost mid = args.deep_view();
    args.push("-D".to_owned());
    args.push("SVG_PATH=\"".to_owned().concat(svg_path).concat("\""));
    args.push("-o".to_owned());
    args.push(stl_path.to_owned());
    args.push(input_scad_path.to_owned());
    proof {
        reveal_strlit("-D");
        reveal_strlit("SVG_PATH=\"");
        reveal_strlit("\"");
        reveal_strlit("-o");
        assert(ds.take(n as int) =~= ds);
        assert(args.deep_view() =~~= mid + tail_args(svg_path@, stl_path@, input_scad_path@));
        assert(args.deep_view() =~~= spec_args(
            fs@,
            fa@,
            fnq@,
            ds,
            svg_path@,
            stl_path@,
            input_scad_path@,
        ));
    }
    args
}

} // verus!
