//! Per-request parameter instances. An instance starts as a copy of the
//! template's defaults and accepts untrusted text overrides, validating
//! each by the inferred type of its specification before storing it; it
//! re-serializes to `name=value` override fragments in ascending name
//! order, whatever order fields were submitted in.

use vstd::pervasive::VecAdditionalExecFns;
use vstd::prelude::*;

use crate::number::is_float_literal;
use crate::params::{quoted_escaped, spec_parse_bool, ParamSpec, ParamSpecView, ParamType};
use crate::template::{has_spec, sorted_specs, Binding, BindingView, ScadParamTemplate};
use crate::text::{all_space, chars_lt, lemma_chars_lt_trichotomy, spec_upper_name};

verus! {

/// Names of the user-adjustable specifications, in row order.
pub open spec fn user_names(ss: Seq<ParamSpecView>) -> Seq<Seq<char>>
    decreases ss.len(),
{
    if ss.len() == 0 {
        Seq::empty()
    } else {
        let rest = user_names(ss.skip(1));
        if ss[0].is_user_param {
            seq![ss[0].name] + rest
        } else {
            rest
        }
    }
}

/// The stored text of a canonical boolean.
pub open spec fn bool_value(b: bool) -> Seq<char> {
    if b {
        seq!['t', 'r', 'u', 'e']
    } else {
        seq!['f', 'a', 'l', 's', 'e']
    }
}

/// The values rows carry exactly the specification names, in order.
pub open spec fn values_parallel(ss: Seq<ParamSpecView>, vs: Seq<BindingView>) -> bool {
    vs.len() == ss.len() && forall|i: int|
        0 <= i < ss.len() ==> (#[trigger] vs[i]).name == ss[i].name
}

/// The index of the specification named `n` (meaningful when `has_spec`).
pub open spec fn spec_index(ss: Seq<ParamSpecView>, n: Seq<char>) -> int {
    choose|i: int| 0 <= i < ss.len() && (#[trigger] ss[i]).name == n
}

/// In sorted rows a name appears at most once.
pub proof fn lemma_sorted_name_unique(ss: Seq<ParamSpecView>, i: int, j: int)
    requires
        sorted_specs(ss),
        0 <= i < ss.len(),
        0 <= j < ss.len(),
        ss[i].name == ss[j].name,
    ensures
        i == j,
{
    if i < j {
        assert(chars_lt(ss[i].name, ss[j].name));
        lemma_chars_lt_trichotomy(ss[i].name, ss[j].name);
    } else if j < i {
        assert(chars_lt(ss[j].name, ss[i].name));
        lemma_chars_lt_trichotomy(ss[j].name, ss[i].name);
    }
}

/// What one `set_from_field` call does to the values rows: `Ok` with the
/// new rows, or `Err` for a validation failure (rows unchanged).
pub open spec fn spec_set_outcome(
    ss: Seq<ParamSpecView>,
    vs: Seq<BindingView>,
    field: Seq<char>,
    text: Seq<char>,
) -> Result<Seq<BindingView>, ()> {
    let name = spec_upper_name(field);
    if all_space(text) {
        Ok(vs)
    } else if !has_spec(ss, name) {
        Ok(vs)
    } else {
        let i = spec_index(ss, name);
        match ss[i].ty {
            ParamType::Bool => match spec_parse_bool(text) {
                Ok(b) => Ok(vs.update(i, BindingView { name, value: bool_value(b) })),
                Err(_) => Err(()),
            },
            ParamType::Number => if is_float_literal(text) {
                Ok(vs.update(i, BindingView { name, value: text }))
            } else {
                Err(())
            },
            ParamType::String => Ok(vs.update(i, BindingView { name, value: quoted_escaped(text) })),
        }
    }
}

/// One request's mutable working copy of a template's values.
pub struct ScadParams {
    /// The owning template's specifications (never mutated).
    pub specs: Vec<ParamSpec>,
    /// The current raw text of each parameter, mutated only through
    /// validated setters.
    pub values: Vec<Binding>,
}

impl ScadParams {
    /// Well-formedness: specification rows sorted strictly by name, and
    /// the values rows exactly parallel.
    pub open spec fn wf(&self) -> bool {
        &&& sorted_specs(self.specs.deep_view())
        &&& values_parallel(self.specs.deep_view(), self.values.deep_view())
    }

    /// Applies one submitted field. Blank text and unknown fields are
    /// accepted and change nothing; text for a known field is validated by
    /// the specification's type and stored in canonical form, or rejected
    /// without touching anything.
    ///
    /// Note that the user-adjustable flag governs only what is shown to
    /// the external form builder; an override aimed at a non-adjustable
    /// specification is still accepted here, as the source behavior has
    /// it. A stricter design would reject it.
    pub fn set_from_field(&mut self, field_name: &str, text: &str) -> (r: Result<(), ()>)
        requires
            old(self).wf(),
        ensures
            final(self).wf(),
            final(self).specs == old(self).specs,
            match spec_set_outcome(
                old(self).specs.deep_view(),
                old(self).values.deep_view(),
                field_name@,
                text@,
            ) {
                Ok(vs) => r == Ok::<(), ()>(()) && final(self).values.deep_view() == vs,
                Err(_) => r == Err::<(), ()>(()) && final(self).values == old(self).values,
            },
    {
        let ghost ss = self.specs.deep_view();
        let ghost vs = self.values.deep_view();
        let chars = crate::text::str_to_chars(text);
        let nall = chars.len();
        if crate::text::blank_range(&chars, 0, nall) {
            proof {
                assert(chars@.subrange(0, nall as int) =~= text@);
            }
            return Ok(());
        }
        proof {
            assert(chars@.subrange(0, nall as int) =~= text@);
        }
        let scad_name = crate::text::field_to_scad_name(field_name);
        let ghost name = spec_upper_name(field_name@);
        let n = self.specs.len();
        let mut i: usize = 0;
        while i < n && !(self.specs[i].name == scad_name)
            invariant
                i <= n == self.specs@.len(),
                ss == self.specs.deep_view(),
                scad_name@ == name,
                forall|j: int| 0 <= j < i ==> (#[trigger] ss[j]).name != name,
            decreases n - i,
        {
            proof {
                assert(ss[i as int] == self.specs@[i as int]@);
            }
            i = i + 1;
        }
        if i == n {
            proof {
                if has_spec(ss, name) {
                    let k = choose|k: int| 0 <= k < ss.len() && (#[trigger] ss[k]).name == name;
                    assert(ss[k].name != name);
                }
            }
            return Ok(());
        }
        proof {
            assert(ss[i as int] == self.specs@[i as int]@);
            assert(ss[i as int].name == name);
            assert(has_spec(ss, name));
            lemma_sorted_name_unique(ss, i as int, spec_index(ss, name));
        }
        let sp_ty = self.specs[i].ty;
        let value: String = match sp_ty {
            ParamType::Bool => {
                match crate::params::parse_bool(text) {
                    Ok(b) => {
                        let v: Vec<char> = if b {
                            vec!['t', 'r', 'u', 'e']
                        } else {
                            vec!['f', 'a', 'l', 's', 'e']
                        };
                        proof {
                            assert(v@ =~= bool_value(b));
                        }
                        crate::text::chars_to_string(&v)
                    },
                    Err(_) => {
                        return Err(());
                    },
                }
            },
            ParamType::Number => {
                if crate::number::number_literal_ok(&chars) {
                    crate::text::chars_to_string(&chars)
                } else {
                    return Err(());
                }
            },
            ParamType::String => {
                let escaped = crate::params::quote_and_escape(&chars);
                crate::text::chars_to_string(&escaped)
            },
        };
        let b = Binding { name: scad_name, value };
        let ghost bv = b@;
        self.values.set(i, b);
        proof {
            assert(self.values.deep_view() =~~= vs.update(i as int, bv));
            assert(values_parallel(ss, self.values.deep_view()));
        }
        Ok(())
    }

    /// The override fragments, one `name=value` per parameter, in
    /// ascending name order.
    pub fn iter_defines(&self) -> (r: Vec<String>)
        ensures
            r.deep_view() == spec_defines(self.values.deep_view()),
    {
        let ghost vs = self.values.deep_view();
        let n = self.values.len();
        let mut out: Vec<String> = Vec::new();
        let mut i: usize = 0;
        while i < n
            invariant
                i <= n == self.values@.len(),
                vs == self.values.deep_view(),
                out.deep_view() == spec_defines(vs).subrange(0, i as int),
            decreases n - i,
        {
            let ghost pre = out.deep_view();
            let row = &self.values[i];
            let mut frag = row.name.clone();
            frag.append("=");
            frag.append(row.value.as_str());
            proof {
                reveal_strlit("=");
                assert("="@ =~= seq!['=']);
                assert(vs[i as int] == self.values@[i as int]@);
                assert(frag@ =~= vs[i as int].name + seq!['='] + vs[i as int].value);
            }
            out.push(frag);
            proof {
                assert(out.deep_view() =~~= pre.push(frag@));
                assert(out.deep_view() =~~= spec_defines(vs).subrange(0, i + 1 as int));
            }
            i = i + 1;
        }
        proof {
            assert(out.deep_view() =~~= spec_defines(vs));
        }
        out
    }

    /// The current raw text stored under a declaration name, if the name
    /// is known.
    pub fn get_raw(&self, scad_name: &str) -> (r: Option<&String>)
        ensures
            match r {
                Some(v) => exists|i: int|
                    0 <= i < self.values.deep_view().len() && (#[trigger] self.values.deep_view()[i]).name
                        == scad_name@ && v@ == self.values.deep_view()[i].value,
                None => forall|i: int|
                    0 <= i < self.values.deep_view().len() ==> (#[trigger] self.values.deep_view()[i]).name
                        != scad_name@,
            },
    {
        let ghost vs = self.values.deep_view();
        let n = self.values.len();
        let mut i: usize = 0;
        while i < n
            invariant
                i <= n == self.values@.len(),
                vs == self.values.deep_view(),
                forall|j: int| 0 <= j < i ==> (#[trigger] vs[j]).name != scad_name@,
            decreases n - i,
        {
            proof {
                assert(vs[i as int] == self.values@[i as int]@);
            }
            if crate::text::str_eq(self.values[i].name.as_str(), scad_name) {
                return Some(&self.values[i].value);
            }
            i = i + 1;
        }
        None
    }
}

/// The fragment list of a values row list.
pub open spec fn spec_defines(vs: Seq<BindingView>) -> Seq<Seq<char>> {
    vs.map_values(|b: BindingView| b.name + seq!['='] + b.value)
}

impl ScadParamTemplate {
    /// Starts one request's instance: a fresh copy of the specifications
    /// and of the default values.
    pub fn instantiate(&self) -> (r: ScadParams)
        requires
            self.wf(),
        ensures
            r.wf(),
            r.specs.deep_view() == self.specs.deep_view(),
            r.values.deep_view() == self.defaults.deep_view(),
    {
        let specs = self.specs.clone();
        let values = self.defaults.clone();
        proof {
            assert forall|i: int| 0 <= i < specs@.len() implies (#[trigger] specs@[i])@
                == self.specs@[i]@ by {
                assert(cloned(self.specs@[i], specs@[i]));
            }
            assert(specs.deep_view() =~~= self.specs.deep_view());
            assert forall|i: int| 0 <= i < values@.len() implies (#[trigger] values@[i])@
                == self.defaults@[i]@ by {
                assert(cloned(self.defaults@[i], values@[i]));
            }
            assert(values.deep_view() =~~= self.defaults.deep_view());
        }
        ScadParams { specs, values }
    }

    /// The names of the user-adjustable specifications, in ascending name
    /// order, for an external form builder.
    pub fn user_param_names(&self) -> (r: Vec<String>)
        ensures
            r.deep_view() == user_names(self.specs.deep_view()),
    {
        let ghost ss = self.specs.deep_view();
        let n = self.specs.len();
        let mut out: Vec<String> = Vec::new();
        let mut i: usize = 0;
        proof {
            assert(ss.skip(0) =~= ss);
            assert(out.deep_view() + user_names(ss) =~= user_names(ss));
        }
        while i < n
            invariant
                i <= n == self.specs@.len(),
                ss == self.specs.deep_view(),
                user_names(ss) == out.deep_view() + user_names(ss.skip(i as int)),
            decreases n - i,
        {
            let ghost pre = out.deep_view();
            let ghost rest = ss.skip(i as int);
            proof {
                assert(rest[0] == ss[i as int]);
                assert(rest.skip(1) =~= ss.skip(i + 1 as int));
                assert(ss[i as int] == self.specs@[i as int]@);
            }
            if self.specs[i].is_user_param {
                let nm = self.specs[i].name.clone();
                out.push(nm);
                proof {
                    assert(out.deep_view() =~~= pre.push(ss[i as int].name));
                    assert(user_names(rest) == seq![rest[0].name] + user_names(rest.skip(1)));
                    assert(out.deep_view() + user_names(ss.skip(i + 1 as int)) =~~= pre + user_names(
                        rest,
                    ));
                }
            } else {
                proof {
                    assert(user_names(rest) == user_names(rest.skip(1)));
                }
            }
            i = i + 1;
        }
        proof {
            assert(ss.skip(n as int) =~= Seq::<ParamSpecView>::empty());
            assert(user_names(Seq::<ParamSpecView>::empty()) == Seq::<Seq<char>>::empty());
            assert(out.deep_view() =~~= user_names(ss));
        }
        out
    }
}

} // verus!
