//! The library's laws: properties that hold of every corpus, template and
//! instance, stated over the same spec functions the public contracts use
//! and proved once and for all.

use vstd::prelude::*;

use crate::extract::{any_marked, is_marked, spec_extract, spec_of_decl};
use crate::instance::{
    bool_value, spec_defines, spec_index, spec_set_outcome, values_parallel,
    lemma_sorted_name_unique,
};
use crate::params::{infer_ty, lower_seq, spec_parse_bool, ParamType};
use crate::scan::spec_decls;
use crate::template::{has_spec, sorted_specs, BindingView};
use crate::text::{all_space, chars_lt, is_space, spec_upper_name, to_lower};

verus! {

/// Submitting blank text never changes the stored values, whatever the
/// specifications, the field and the prior state.
pub proof fn lemma_blank_override_is_noop(
    ss: Seq<crate::params::ParamSpecView>,
    vs: Seq<BindingView>,
    field: Seq<char>,
    text: Seq<char>,
)
    requires
        all_space(text),
    ensures
        spec_set_outcome(ss, vs, field, text) == Ok::<Seq<BindingView>, ()>(vs),
{
}

/// An unknown external field never fails and never appears in the override
/// fragments: the values keep exactly the known names.
pub proof fn lemma_unknown_field_ignored(
    ss: Seq<crate::params::ParamSpecView>,
    vs: Seq<BindingView>,
    field: Seq<char>,
    text: Seq<char>,
)
    requires
        values_parallel(ss, vs),
        !has_spec(ss, spec_upper_name(field)),
    ensures
        spec_set_outcome(ss, vs, field, text) == Ok::<Seq<BindingView>, ()>(vs),
        forall|k: int| 0 <= k < vs.len() ==> (#[trigger] vs[k]).name != spec_upper_name(field),
{
    assert forall|k: int| 0 <= k < vs.len() implies (#[trigger] vs[k]).name != spec_upper_name(
        field,
    ) by {
        if vs[k].name == spec_upper_name(field) {
            assert(ss[k].name == spec_upper_name(field));
            assert(has_spec(ss, spec_upper_name(field)));
        }
    }
}

/// The override fragments of a well-formed instance are strictly ascending
/// by name, whatever was submitted and in whatever order.
pub proof fn lemma_defines_ascending(ss: Seq<crate::params::ParamSpecView>, vs: Seq<BindingView>)
    requires
        sorted_specs(ss),
        values_parallel(ss, vs),
    ensures
        forall|i: int, j: int|
            0 <= i < j < vs.len() ==> chars_lt((#[trigger] vs[i]).name, (#[trigger] vs[j]).name),
        spec_defines(vs).len() == vs.len(),
{
}

/// A successful override never renames or reorders anything: the values
/// keep the same names in the same positions, so the fragment order never
/// depends on submission order.
pub proof fn lemma_override_preserves_names(
    ss: Seq<crate::params::ParamSpecView>,
    vs: Seq<BindingView>,
    field: Seq<char>,
    text: Seq<char>,
)
    requires
        sorted_specs(ss),
        values_parallel(ss, vs),
    ensures
        match spec_set_outcome(ss, vs, field, text) {
            Ok(vs2) => vs2.len() == vs.len() && forall|k: int|
                0 <= k < vs.len() ==> (#[trigger] vs2[k]).name == vs[k].name,
            Err(_) => true,
        },
{
    let name = spec_upper_name(field);
    if !all_space(text) && has_spec(ss, name) {
        let i = spec_index(ss, name);
        assert(0 <= i < ss.len() && ss[i].name == name);
    }
}

/// The two-mode visibility rule, over whole corpora: with no
/// marker-carrying declaration every discovered parameter is
/// user-adjustable; with at least one, exactly the marker-carrying ones
/// are.
pub proof fn lemma_marker_rule(text: Seq<char>)
    ensures
        !any_marked(spec_decls(text)) ==> forall|i: int|
            0 <= i < spec_extract(text).len() ==> (#[trigger] spec_extract(
                text,
            )[i]).is_user_param,
        any_marked(spec_decls(text)) ==> forall|i: int|
            0 <= i < spec_extract(text).len() ==> (#[trigger] spec_extract(
                text,
            )[i]).is_user_param == is_marked(spec_decls(text)[i]),
{
    let ds = spec_decls(text);
    assert forall|i: int| 0 <= i < spec_extract(text).len() implies (#[trigger] spec_extract(
        text,
    )[i]) == spec_of_decl(ds[i], any_marked(ds)) by {
    }
}

/// Type inference is purely syntactic: a discovered parameter's type is
/// exactly `infer_ty` of its unevaluated right-hand side.
pub proof fn lemma_types_are_syntactic(text: Seq<char>)
    ensures
        forall|i: int|
            0 <= i < spec_extract(text).len() ==> (#[trigger] spec_extract(text)[i]).ty
                == infer_ty(spec_extract(text)[i].default),
{
    let ds = spec_decls(text);
    assert forall|i: int| 0 <= i < spec_extract(text).len() implies (#[trigger] spec_extract(
        text,
    )[i]).ty == infer_ty(spec_extract(text)[i].default) by {
        assert(spec_extract(text)[i] == spec_of_decl(ds[i], any_marked(ds)));
    }
}

/// Round-tripping a `Bool` specification's default always succeeds and
/// stores the canonical token: the fragment reads `true` exactly when the
/// default spelt `true` in any case.
pub proof fn lemma_bool_default_round_trip(
    ss: Seq<crate::params::ParamSpecView>,
    vs: Seq<BindingView>,
    field: Seq<char>,
    i: int,
)
    requires
        sorted_specs(ss),
        values_parallel(ss, vs),
        0 <= i < ss.len(),
        spec_upper_name(field) == ss[i].name,
        ss[i].ty == ParamType::Bool,
        infer_ty(ss[i].default) == ParamType::Bool,
    ensures
        ({
            let b = lower_seq(ss[i].default) == seq!['t', 'r', 'u', 'e'];
            spec_set_outcome(ss, vs, field, ss[i].default) == Ok::<Seq<BindingView>, ()>(
                vs.update(i, BindingView { name: ss[i].name, value: bool_value(b) }),
            )
        }),
{
    let text = ss[i].default;
    let lower = lower_seq(text);
    assert(lower == seq!['t', 'r', 'u', 'e'] || lower == seq!['f', 'a', 'l', 's', 'e']);
    assert(lower[0] == to_lower(text[0]));
    assert(lower[0] == 't' || lower[0] == 'f');
    assert(!is_space(text[0])) by {
        if is_space(text[0]) {
            assert(to_lower(text[0]) == text[0]);
            assert(is_space('t') == false && is_space('f') == false);
        }
    }
    assert(!all_space(text));
    assert(has_spec(ss, ss[i].name));
    lemma_sorted_name_unique(ss, i, spec_index(ss, ss[i].name));
    assert(spec_parse_bool(text) == Ok::<bool, ()>(lower == seq!['t', 'r', 'u', 'e']));
}

/// Round-tripping a `Number` specification's default never changes its
/// fragment: a valid literal is stored back verbatim, and an invalid one
/// (a carried expression) is rejected with the stored default untouched.
pub proof fn lemma_number_default_round_trip(
    ss: Seq<crate::params::ParamSpecView>,
    vs: Seq<BindingView>,
    field: Seq<char>,
    i: int,
)
    requires
        sorted_specs(ss),
        values_parallel(ss, vs),
        0 <= i < ss.len(),
        spec_upper_name(field) == ss[i].name,
        ss[i].ty == ParamType::Number,
        vs[i].value == ss[i].default,
    ensures
        ({
            let frag = ss[i].name + seq!['='] + ss[i].default;
            match spec_set_outcome(ss, vs, field, ss[i].default) {
                Ok(vs2) => spec_defines(vs2)[i] == frag,
                Err(_) => spec_defines(vs)[i] == frag,
            }
        }),
{
    let text = ss[i].default;
    let name = spec_upper_name(field);
    assert(vs[i].name == ss[i].name);
    if all_space(text) {
        assert(spec_defines(vs)[i] == vs[i].name + seq!['='] + vs[i].value);
    } else {
        assert(has_spec(ss, ss[i].name));
        lemma_sorted_name_unique(ss, i, spec_index(ss, name));
        match spec_set_outcome(ss, vs, field, text) {
            Ok(vs2) => {
                assert(vs2 == vs.update(i, BindingView { name, value: text }));
                assert(spec_defines(vs2)[i] == vs2[i].name + seq!['='] + vs2[i].value);
            },
            Err(_) => {
                assert(spec_defines(vs)[i] == vs[i].name + seq!['='] + vs[i].value);
            },
        }
    }
}

} // verus!
