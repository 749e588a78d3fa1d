//! From declarations to parameter specifications: the adjustable-marker
//! rule, the options list in a trailing comment, and the public extractor.
//!
//! The visibility rule is a property of the whole corpus, decided in a
//! first full pass: if any declaration's comment carries the marker token,
//! only marked declarations are user-adjustable (allow-list mode); if none
//! does, every declaration is (open mode).

use vstd::prelude::*;

use crate::params::{infer_ty, lower_seq, ParamSpec, ParamSpecView};
use crate::scan::{spec_decls, DeclView, RawDecl};
use crate::text::{
    contains_sub, find_char, find_sub, lemma_find_char_bounds, lemma_find_char_offset,
    lemma_find_sub_bounds, lemma_find_sub_contains, trim,
};

verus! {

/// The token that opts a declaration into the allow-list.
pub open spec fn marker() -> Seq<char> {
    seq!['@', 'p', 'a', 'r', 'a', 'm']
}

/// Whether one declaration carries the marker.
pub open spec fn is_marked(d: DeclView) -> bool {
    contains_sub(d.comment, marker())
}

/// Whether any declaration of the list carries the marker.
pub open spec fn any_marked(ds: Seq<DeclView>) -> bool {
    exists|i: int| 0 <= i < ds.len() && is_marked(#[trigger] ds[i])
}

/// The comment token that introduces an options list.
pub open spec fn options_key() -> Seq<char> {
    seq!['o', 'p', 't', 'i', 'o', 'n', 's', ':']
}

/// First index of an option separator (`s.len()` if there is none).
pub open spec fn sep_at(s: Seq<char>) -> int {
    let a = find_char(s, 0, '|');
    let b = find_char(s, 0, ',');
    if a <= b {
        a
    } else {
        b
    }
}

/// Splits an options tail on `|` or `,`, trimming each piece and dropping
/// empty pieces.
pub open spec fn split_opts(s: Seq<char>) -> Seq<Seq<char>>
    decreases s.len(),
{
    let j = sep_at(s);
    if 0 <= j && j < s.len() {
        let t = trim(s.take(j));
        let rest = split_opts(s.skip(j + 1));
        if t.len() == 0 {
            rest
        } else {
            seq![t] + rest
        }
    } else {
        let t = trim(s);
        if t.len() == 0 {
            Seq::empty()
        } else {
            seq![t]
        }
    }
}

/// The options of a comment: everything after the first (case-insensitive)
/// options token, split on `|` or `,`; empty when the token is absent.
pub open spec fn spec_options(comment: Seq<char>) -> Seq<Seq<char>> {
    let l = lower_seq(comment);
    let i = find_sub(l, options_key(), 0);
    if i < l.len() {
        split_opts(comment.skip(i + options_key().len()))
    } else {
        Seq::empty()
    }
}

/// The specification built from one declaration, given the corpus-wide
/// marker mode.
pub open spec fn spec_of_decl(d: DeclView, any: bool) -> ParamSpecView {
    ParamSpecView {
        name: d.name,
        default: d.rhs,
        ty: infer_ty(d.rhs),
        is_user_param: if any {
            is_marked(d)
        } else {
            true
        },
        comment: d.comment,
        options: spec_options(d.comment),
    }
}

/// Everything `extract_param_specs` discovers in a corpus, in declaration
/// order.
pub open spec fn spec_extract(text: Seq<char>) -> Seq<ParamSpecView> {
    let ds = spec_decls(text);
    ds.map_values(|d: DeclView| spec_of_decl(d, any_marked(ds)))
}

/// Whether the comment carries the marker token.
fn is_marked_exec(comment: &Vec<char>) -> (r: bool)
    ensures
        r == contains_sub(comment@, marker()),
{
    let pat: Vec<char> = vec!['@', 'p', 'a', 'r', 'a', 'm'];
    proof {
        assert(pat@ =~= marker());
    }
    let i = crate::text::find_pattern(comment, &pat, 0);
    proof {
        lemma_find_sub_contains(comment@, marker());
    }
    i < comment.len()
}

/// Splits an options tail (already cut after the options token).
fn split_opts_exec(s: &Vec<char>) -> (r: Vec<String>)
    ensures
        r.deep_view() == split_opts(s@),
{
    let n = s.len();
    let mut out: Vec<String> = Vec::new();
    let mut pos: usize = 0;
    proof {
        assert(s@.skip(0) =~= s@);
        assert(out.deep_view() + split_opts(s@) =~= split_opts(s@));
    }
    loop
        invariant_except_break
            pos <= n == s@.len(),
            split_opts(s@) == out.deep_view() + split_opts(s@.skip(pos as int)),
        ensures
            out.deep_view() == split_opts(s@),
        decreases n - pos,
    {
        let ja = crate::text::find_char_from(s, pos, '|');
        let jb = crate::text::find_char_from(s, pos, ',');
        let j: usize = if ja <= jb {
            ja
        } else {
            jb
        };
        let ghost rest = s@.skip(pos as int);
        proof {
            lemma_find_char_bounds(s@, pos as int, '|');
            lemma_find_char_bounds(s@, pos as int, ',');
            lemma_find_char_offset(s@, pos as int, pos as int, '|');
            lemma_find_char_offset(s@, pos as int, pos as int, ',');
            assert(sep_at(rest) == j - pos);
        }
        let ghost pre = out.deep_view();
        let piece = crate::text::trim_range(s, pos, j);
        if piece.len() > 0 {
            let ps = crate::text::chars_to_string(&piece);
            out.push(ps);
            proof {
                assert(out.deep_view() =~~= pre.push(piece@));
            }
        }
        if j == n {
            proof {
                assert(j - pos == rest.len());
                assert(rest =~= s@.subrange(pos as int, j as int));
                assert(split_opts(rest) == if trim(rest).len() == 0 {
                    Seq::<Seq<char>>::empty()
                } else {
                    seq![trim(rest)]
                });
                assert(out.deep_view() =~~= pre + split_opts(rest));
                assert(out.deep_view() =~~= split_opts(s@));
            }
            break ;
        }
        proof {
            assert(rest.take(j - pos) =~= s@.subrange(pos as int, j as int));
            assert(rest.skip(j - pos + 1) =~= s@.skip(j + 1 as int));
            assert(split_opts(rest) == if trim(rest.take(j - pos)).len() == 0 {
                split_opts(rest.skip(j - pos + 1))
            } else {
                seq![trim(rest.take(j - pos))] + split_opts(rest.skip(j - pos + 1))
            });
            assert(out.deep_view() + split_opts(s@.skip(j + 1 as int)) =~~= pre + split_opts(rest));
        }
        pos = j + 1;
    }
    out
}

/// The options of a comment, executable form.
fn options_of_comment(comment: &Vec<char>) -> (r: Vec<String>)
    ensures
        r.deep_view() == spec_options(comment@),
{
    let lower = crate::text::lower_chars(comment);
    let key: Vec<char> = vec!['o', 'p', 't', 'i', 'o', 'n', 's', ':'];
    proof {
        assert(key@ =~= options_key());
        assert(lower@ == lower_seq(comment@));
    }
    let i = crate::text::find_pattern(&lower, &key, 0);
    let n = comment.len();
    proof {
        lemma_find_sub_bounds(lower@, options_key(), 0);
        assert(lower@.len() == comment@.len());
    }
    if i < n {
        proof {
            assert(i + 8 <= n);
        }
        let tail = crate::text::sub_chars(comment, i + 8, n);
        proof {
            assert(tail@ =~= comment@.skip(i + options_key().len()));
        }
        split_opts_exec(&tail)
    } else {
        let r: Vec<String> = Vec::new();
        proof {
            assert(r.deep_view() =~~= Seq::<Seq<char>>::empty());
        }
        r
    }
}

/// Lists the options named in a declaration's trailing comment: the text
/// after a case-insensitive `options:` token, split on `|` or `,`, each
/// piece trimmed and empty pieces dropped. Without the token the list is
/// empty.
pub fn parse_options_from_comment(comment: &str) -> (r: Vec<String>)
    ensures
        r.deep_view() == spec_options(comment@),
{
    let chars = crate::text::str_to_chars(comment);
    options_of_comment(&chars)
}

/// Whether any parsed declaration carries the marker.
fn any_marked_exec(raws: &Vec<RawDecl>) -> (r: bool)
    ensures
        r == any_marked(raws.deep_view()),
{
    let n = raws.len();
    let mut i: usize = 0;
    while i < n
        invariant
            i <= n == raws@.len(),
            forall|j: int| 0 <= j < i ==> !is_marked(#[trigger] raws.deep_view()[j]),
        decreases n - i,
    {
        if is_marked_exec(&raws[i].comment) {
            proof {
                assert(raws.deep_view()[i as int] == raws@[i as int]@);
                assert(is_marked(raws.deep_view()[i as int]));
            }
            return true;
        }
        proof {
            assert(raws.deep_view()[i as int] == raws@[i as int]@);
        }
        i = i + 1;
    }
    proof {
        if any_marked(raws.deep_view()) {
            let k = choose|k: int| 0 <= k < raws.deep_view().len() && is_marked(
                #[trigger] raws.deep_view()[k],
            );
            assert(!is_marked(raws.deep_view()[k]));
        }
    }
    false
}

/// Scans a corpus for declarations and produces their specifications, in
/// declaration order. Later duplicates of a name are kept; folding them
/// into a template resolves duplicates last-wins.
pub fn extract_param_specs(text: &str) -> (r: Vec<ParamSpec>)
    ensures
        r.deep_view() == spec_extract(text@),
{
    let chars = crate::text::str_to_chars(text);
    let lines = crate::scan::split_lines(&chars);
    let raws = crate::scan::parse_lines(&lines);
    proof {
        assert(raws.deep_view() == spec_decls(text@));
    }
    let any = any_marked_exec(&raws);
    let ghost ds = spec_decls(text@);
    let n = raws.len();
    let mut out: Vec<ParamSpec> = Vec::new();
    let mut i: usize = 0;
    while i < n
        invariant
            i <= n == raws@.len(),
            raws.deep_view() == ds,
            ds == spec_decls(text@),
            any == any_marked(ds),
            out.deep_view() == spec_extract(text@).subrange(0, i as int),
        decreases n - i,
    {
        let ghost pre = out.deep_view();
        let rd = &raws[i];
        proof {
            assert(raws.deep_view()[i as int] == raws@[i as int]@);
            assert(ds[i as int] == rd@);
        }
        let name = crate::text::chars_to_string(&rd.name);
        let default = crate::text::chars_to_string(&rd.rhs);
        let ty = crate::params::infer_type(&rd.rhs);
        let is_user_param = if any {
            is_marked_exec(&rd.comment)
        } else {
            true
        };
        let comment = crate::text::chars_to_string(&rd.comment);
        let options = options_of_comment(&rd.comment);
        let spec = ParamSpec { name, default, ty, is_user_param, comment, options };
        proof {
            assert(spec@ == spec_of_decl(ds[i as int], any));
            assert(spec_extract(text@)[i as int] == spec_of_decl(ds[i as int], any_marked(ds)));
        }
        out.push(spec);
        proof {
            assert(out.deep_view() =~~= pre.push(spec@));
            assert(out.deep_view() =~~= spec_extract(text@).subrange(0, i + 1 as int));
        }
        i = i + 1;
    }
    proof {
        assert(out.deep_view() =~~= spec_extract(text@));
    }
    out
}

} // verus!
