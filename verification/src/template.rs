//! The immutable parameter template: every discovered specification and its
//! default, keyed by name. Built once from a corpus; duplicates of a name
//! resolve last-wins, matching the external tool's own override semantics.
//! The rows are kept strictly ascending by name, which makes lookup
//! unambiguous and iteration deterministic.

use vstd::pervasive::VecAdditionalExecFns;
use vstd::prelude::*;

use crate::extract::spec_extract;
use crate::params::{ParamSpec, ParamSpecView};
use crate::text::{chars_lt, lemma_chars_lt_trichotomy, lemma_chars_lt_trans};

verus! {

/// One name-to-value row of a template's defaults or an instance's values.
pub struct Binding {
    pub name: String,
    pub value: String,
}

/// The mathematical content of a `Binding`.
pub struct BindingView {
    pub name: Seq<char>,
    pub value: Seq<char>,
}

impl View for Binding {
    type V = BindingView;

    open spec fn view(&self) -> BindingView {
        BindingView { name: self.name@, value: self.value@ }
    }
}

impl DeepView for Binding {
    type V = BindingView;

    open spec fn deep_view(&self) -> BindingView {
        self@
    }
}

impl Clone for Binding {
    fn clone(&self) -> (r: Self)
        ensures
            r@ == self@,
    {
        Binding { name: self.name.clone(), value: self.value.clone() }
    }
}

/// Rows strictly ascending by name: sorted, and every name unique.
pub open spec fn sorted_specs(ss: Seq<ParamSpecView>) -> bool {
    forall|i: int, j: int|
        0 <= i < j < ss.len() ==> chars_lt((#[trigger] ss[i]).name, (#[trigger] ss[j]).name)
}

/// Some row carries this name.
pub open spec fn has_spec(ss: Seq<ParamSpecView>, n: Seq<char>) -> bool {
    exists|i: int| 0 <= i < ss.len() && (#[trigger] ss[i]).name == n
}

/// The defaults rows mirror the specification rows: same names in the
/// same order, each value the specification's default.
pub open spec fn parallel_defaults(ss: Seq<ParamSpecView>, ds: Seq<BindingView>) -> bool {
    ds.len() == ss.len() && forall|i: int|
        0 <= i < ss.len() ==> (#[trigger] ds[i]).name == ss[i].name && ds[i].value == ss[i].default
}

/// What inserting `s` leaves behind: rows with its name are exactly `s`,
/// every other row was already there, and no old name is lost.
pub open spec fn spec_upserted(od: Seq<ParamSpecView>, nd: Seq<ParamSpecView>, s: ParamSpecView) -> bool {
    &&& forall|i: int| 0 <= i < nd.len() ==> ((#[trigger] nd[i]).name == s.name ==> nd[i] == s)
    &&& forall|i: int|
        0 <= i < nd.len() ==> ((#[trigger] nd[i]).name != s.name ==> exists|j: int|
            0 <= j < od.len() && od[j] == nd[i])
    &&& forall|j: int| 0 <= j < od.len() ==> has_spec(nd, (#[trigger] od[j]).name)
}

/// `s` stands at `k` in `es` and no later entry reuses its name.
pub open spec fn last_spec_at(es: Seq<ParamSpecView>, k: int, s: ParamSpecView) -> bool {
    0 <= k < es.len() && es[k] == s && forall|l: int|
        k < l < es.len() ==> (#[trigger] es[l]).name != s.name
}

/// `s` is the last entry of `es` that carries its name.
pub open spec fn is_last_spec(es: Seq<ParamSpecView>, s: ParamSpecView) -> bool {
    exists|k: int| last_spec_at(es, k, s)
}

/// The immutable template: all discovered specifications and their default
/// values, built once per loaded corpus and shared read-only afterwards.
pub struct ScadParamTemplate {
    /// The discovered specifications, strictly ascending by name.
    pub specs: Vec<ParamSpec>,
    /// The default raw text of each specification, in the same order.
    pub defaults: Vec<Binding>,
}

impl ScadParamTemplate {
    /// Well-formedness: rows sorted strictly by name, and the defaults
    /// exactly parallel to the specifications.
    pub open spec fn wf(&self) -> bool {
        &&& sorted_specs(self.specs.deep_view())
        &&& parallel_defaults(self.specs.deep_view(), self.defaults.deep_view())
    }

    /// The template holds exactly the last-wins fold of the extraction
    /// list `es`: every row is the last entry with its name, and every
    /// extracted name has a row.
    pub open spec fn is_fold_of(&self, es: Seq<ParamSpecView>) -> bool {
        &&& forall|i: int|
            0 <= i < self.specs.deep_view().len() ==> is_last_spec(
                es,
                #[trigger] self.specs.deep_view()[i],
            )
        &&& forall|k: int| 0 <= k < es.len() ==> has_spec(self.specs.deep_view(), (#[trigger] es[k]).name)
    }
}

/// Inserts `s` into rows kept sorted by name, overwriting the row with the
/// same name if there is one.
fn upsert(specs: &mut Vec<ParamSpec>, defaults: &mut Vec<Binding>, s: ParamSpec)
    requires
        sorted_specs(old(specs).deep_view()),
        parallel_defaults(old(specs).deep_view(), old(defaults).deep_view()),
    ensures
        sorted_specs(final(specs).deep_view()),
        parallel_defaults(final(specs).deep_view(), final(defaults).deep_view()),
        has_spec(final(specs).deep_view(), s@.name),
        spec_upserted(old(specs).deep_view(), final(specs).deep_view(), s@),
{
    let ghost odv = specs.deep_view();
    let ghost oddv = defaults.deep_view();
    let n = specs.len();
    let mut idx: usize = 0;
    while idx < n && crate::text::str_lt(specs[idx].name.as_str(), s.name.as_str())
        invariant
            idx <= n == specs@.len(),
            specs.deep_view() == odv,
            forall|i: int| 0 <= i < idx ==> chars_lt((#[trigger] odv[i]).name, s@.name),
        decreases n - idx,
    {
        proof {
            assert(odv[idx as int] == specs@[idx as int]@);
        }
        idx = idx + 1;
    }
    proof {
        if idx < n {
            assert(odv[idx as int] == specs@[idx as int]@);
            assert(!chars_lt(odv[idx as int].name, s@.name));
        }
    }
    let b = Binding { name: s.name.clone(), value: s.default.clone() };
    proof {
        assert(b@.name == s@.name && b@.value == s@.default);
    }
    if idx < n && specs[idx].name == s.name {
        proof {
            assert(odv[idx as int].name == s@.name);
        }
        let ghost sv = s@;
        let ghost bv = b@;
        specs.set(idx, s);
        defaults.set(idx, b);
        proof {
            let ndv = specs.deep_view();
            let nddv = defaults.deep_view();
            assert(ndv =~~= odv.update(idx as int, sv));
            assert(nddv =~~= oddv.update(idx as int, bv));
            assert forall|i: int| 0 <= i < ndv.len() implies (#[trigger] ndv[i]).name
                == odv[i].name by {
                if i != idx {
                    assert(ndv[i] == odv[i]);
                }
            }
            assert forall|i: int, j: int| 0 <= i < j < ndv.len() implies chars_lt(
                (#[trigger] ndv[i]).name,
                (#[trigger] ndv[j]).name,
            ) by {
                assert(chars_lt(odv[i].name, odv[j].name));
            }
            assert(parallel_defaults(ndv, nddv));
            assert forall|j: int| 0 <= j < odv.len() implies has_spec(
                ndv,
                (#[trigger] odv[j]).name,
            ) by {
                assert(ndv[j].name == odv[j].name);
            }
            assert(ndv[idx as int] == sv);
            assert forall|i: int|
                0 <= i < ndv.len() && (#[trigger] ndv[i]).name == sv.name implies ndv[i]
                == sv by {
                if i != idx {
                    lemma_chars_lt_trichotomy(odv[i].name, odv[idx as int].name);
                    if i < idx {
                        assert(chars_lt(odv[i].name, odv[idx as int].name));
                    } else {
                        assert(chars_lt(odv[idx as int].name, odv[i].name));
                    }
                }
            }
            assert forall|i: int|
                0 <= i < ndv.len() && (#[trigger] ndv[i]).name != sv.name implies exists|j: int|
                0 <= j < odv.len() && odv[j] == ndv[i] by {
                assert(odv[i] == ndv[i]);
            }
        }
    } else {
        proof {
            // everything at and after idx is strictly greater than the new name
            if idx < n {
                lemma_chars_lt_trichotomy(odv[idx as int].name, s@.name);
                assert(odv[idx as int] == specs@[idx as int]@);
                assert(odv[idx as int].name != s@.name);
                assert(chars_lt(s@.name, odv[idx as int].name));
            }
            assert forall|j: int| idx <= j < odv.len() implies chars_lt(
                s@.name,
                (#[trigger] odv[j]).name,
            ) by {
                if j > idx {
                    lemma_chars_lt_trans(s@.name, odv[idx as int].name, odv[j].name);
                }
            }
        }
        let ghost sv = s@;
        let ghost bv = b@;
        specs.insert(idx, s);
        defaults.insert(idx, b);
        proof {
            let ndv = specs.deep_view();
            let nddv = defaults.deep_view();
            assert(ndv =~~= odv.insert(idx as int, sv));
            assert(nddv =~~= oddv.insert(idx as int, bv));
            assert forall|i: int| 0 <= i < ndv.len() implies (#[trigger] nddv[i]).name
                == ndv[i].name && nddv[i].value == ndv[i].default by {
                if i < idx {
                    assert(ndv[i] == odv[i] && nddv[i] == oddv[i]);
                } else if i == idx {
                } else {
                    assert(ndv[i] == odv[i - 1] && nddv[i] == oddv[i - 1]);
                }
            }
            assert(parallel_defaults(ndv, nddv));
            assert forall|i: int|
                0 <= i < ndv.len() && (#[trigger] ndv[i]).name == sv.name implies ndv[i]
                == sv by {
                if i < idx {
                    assert(ndv[i] == odv[i]);
                    lemma_chars_lt_trichotomy(odv[i].name, sv.name);
                } else if i > idx {
                    assert(ndv[i] == odv[i - 1]);
                    lemma_chars_lt_trichotomy(sv.name, odv[i - 1].name);
                }
            }
            assert forall|i: int, j: int| 0 <= i < j < ndv.len() implies chars_lt(
                (#[trigger] ndv[i]).name,
                (#[trigger] ndv[j]).name,
            ) by {
                assert(ndv[i] == if i < idx {
                    odv[i]
                } else if i == idx {
                    sv
                } else {
                    odv[i - 1]
                });
                assert(ndv[j] == if j < idx {
                    odv[j]
                } else if j == idx {
                    sv
                } else {
                    odv[j - 1]
                });
                if i < idx && j == idx {
                } else if i == idx && j > idx {
                } else if i < idx && j > idx {
                    assert(chars_lt(odv[i].name, sv.name));
                    assert(chars_lt(sv.name, odv[j - 1].name));
                    lemma_chars_lt_trans(odv[i].name, sv.name, odv[j - 1].name);
                }
            }
            assert(ndv[idx as int] == sv);
            assert forall|j: int| 0 <= j < odv.len() implies has_spec(
                ndv,
                (#[trigger] odv[j]).name,
            ) by {
                if j < idx {
                    assert(ndv[j] == odv[j]);
                } else {
                    assert(ndv[j + 1] == odv[j]);
                }
            }
            assert forall|i: int|
                0 <= i < ndv.len() && (#[trigger] ndv[i]).name != sv.name implies exists|j: int|
                0 <= j < odv.len() && odv[j] == ndv[i] by {
                if i < idx {
                    assert(odv[i] == ndv[i]);
                } else if i > idx {
                    assert(odv[i - 1] == ndv[i]);
                }
            }
        }
    }
}

impl ScadParamTemplate {
    /// Builds the template from an already-loaded corpus: extracts every
    /// declaration and folds the list into the two parallel row vectors,
    /// later duplicates of a name overwriting earlier ones.
    pub fn from_corpus(corpus: &str) -> (r: Self)
        ensures
            r.wf(),
            r.is_fold_of(spec_extract(corpus@)),
    {
        let es = crate::extract::extract_param_specs(corpus);
        let ghost e = spec_extract(corpus@);
        let n = es.len();
        let mut specs: Vec<ParamSpec> = Vec::new();
        let mut defaults: Vec<Binding> = Vec::new();
        let mut i: usize = 0;
        while i < n
            invariant
                i <= n == es@.len(),
                es.deep_view() == e,
                sorted_specs(specs.deep_view()),
                parallel_defaults(specs.deep_view(), defaults.deep_view()),
                forall|k: int|
                    0 <= k < specs.deep_view().len() ==> is_last_spec(
                        e.take(i as int),
                        #[trigger] specs.deep_view()[k],
                    ),
                forall|k: int|
                    0 <= k < i ==> has_spec(specs.deep_view(), (#[trigger] e[k]).name),
            decreases n - i,
        {
            let ghost pre = specs.deep_view();
            let s = es[i].clone();
            proof {
                assert(es.deep_view()[i as int] == es@[i as int]@);
                assert(s@ == e[i as int]);
            }
            upsert(&mut specs, &mut defaults, s);
            proof {
                let ndv = specs.deep_view();
                let ghost ei = e[i as int];
                assert forall|k: int| 0 <= k < ndv.len() implies is_last_spec(
                    e.take(i + 1),
                    #[trigger] ndv[k],
                ) by {
                    if ndv[k].name == ei.name {
                        assert(ndv[k] == ei);
                        assert(e.take(i + 1)[i as int] == ei);
                        assert(last_spec_at(e.take(i + 1), i as int, ndv[k]));
                    } else {
                        let j = choose|j: int| 0 <= j < pre.len() && pre[j] == ndv[k];
                        assert(is_last_spec(e.take(i as int), pre[j]));
                        let m = choose|m: int| last_spec_at(e.take(i as int), m, pre[j]);
                        assert(e.take(i + 1)[m] == e.take(i as int)[m]);
                        assert forall|l: int| m < l < i + 1 implies (#[trigger] e.take(i + 1)[l]).name
                            != ndv[k].name by {
                            if l < i {
                                assert(e.take(i + 1)[l] == e.take(i as int)[l]);
                            } else {
                                assert(e.take(i + 1)[l] == ei);
                            }
                        }
                        assert(last_spec_at(e.take(i + 1), m, ndv[k]));
                    }
                }
                assert forall|k: int| 0 <= k < i + 1 implies has_spec(
                    ndv,
                    (#[trigger] e[k]).name,
                ) by {
                    if k < i {
                        let j = choose|j: int|
                            0 <= j < pre.len() && (#[trigger] pre[j]).name == e[k].name;
                        assert(has_spec(ndv, pre[j].name));
                    } else {
                        assert(has_spec(ndv, s@.name));
                    }
                }
            }
            i = i + 1;
        }
        proof {
            assert(e.take(n as int) =~= e);
        }
        ScadParamTemplate { specs, defaults }
    }
}

} // verus!
