//! The declaration scanner. The corpus is line-oriented: a declaration is
//! one line of the form
//!
//! ```text
//! NAME = RHS ;            // optional trailing comment
//! ```
//!
//! where `NAME` matches `[A-Z][A-Z0-9_]*`, `RHS` is any non-empty text
//! without `;`, and after the terminator only whitespace or a `//` comment
//! may follow. A line of any other shape declares nothing.

use vstd::prelude::*;

use crate::text::{
    find_char, is_digit, is_upper, lemma_find_char_bounds, lemma_find_char_offset, skip_ws, trim,
};

verus! {

/// A character that may continue a declaration name.
pub open spec fn is_name_char(c: char) -> bool {
    is_upper(c) || is_digit(c) || c == '_'
}

/// End of the run of name characters starting at `i`.
pub open spec fn name_end(s: Seq<char>, i: int) -> int
    decreases s.len() - i,
{
    if 0 <= i && i < s.len() && is_name_char(s[i]) {
        name_end(s, i + 1)
    } else {
        i
    }
}

pub proof fn lemma_name_end_bounds(s: Seq<char>, i: int)
    requires
        0 <= i <= s.len(),
    ensures
        i <= name_end(s, i) <= s.len(),
        forall|j: int| i <= j < name_end(s, i) ==> is_name_char(s[j]),
        name_end(s, i) < s.len() ==> !is_name_char(s[name_end(s, i)]),
    decreases s.len() - i,
{
    if i < s.len() && is_name_char(s[i]) {
        lemma_name_end_bounds(s, i + 1);
    }
}

/// One parsed declaration line: the name, the trimmed right-hand side and
/// the trimmed trailing comment (empty if there was none).
pub struct DeclView {
    pub name: Seq<char>,
    pub rhs: Seq<char>,
    pub comment: Seq<char>,
}

/// Parses one line. `None` means the line declares nothing.
pub open spec fn parse_decl_line(line: Seq<char>) -> Option<DeclView> {
    let i = skip_ws(line, 0);
    if i >= line.len() || !is_upper(line[i]) {
        None
    } else {
        let j = name_end(line, i);
        let k = skip_ws(line, j);
        if k >= line.len() || line[k] != '=' {
            None
        } else {
            let m = find_char(line, k + 1, ';');
            if m >= line.len() || m == k + 1 {
                None
            } else {
                let name = line.subrange(i, j);
                let rhs = trim(line.subrange(k + 1, m));
                let t = skip_ws(line, m + 1);
                if t == line.len() {
                    Some(DeclView { name, rhs, comment: Seq::empty() })
                } else if t + 1 < line.len() && line[t] == '/' && line[t + 1] == '/' {
                    Some(
                        DeclView {
                            name,
                            rhs,
                            comment: trim(line.subrange(t + 2, line.len() as int)),
                        },
                    )
                } else {
                    None
                }
            }
        }
    }
}

/// The corpus split at line feeds (the final fragment counts even when
/// empty).
pub open spec fn spec_lines(s: Seq<char>) -> Seq<Seq<char>>
    decreases s.len(),
{
    let j = find_char(s, 0, '\n');
    if 0 <= j && j < s.len() {
        seq![s.take(j)] + spec_lines(s.skip(j + 1))
    } else {
        seq![s]
    }
}

/// The declarations of a line list, in order.
pub open spec fn decls_of_lines(ls: Seq<Seq<char>>) -> Seq<DeclView>
    decreases ls.len(),
{
    if ls.len() == 0 {
        Seq::empty()
    } else {
        let rest = decls_of_lines(ls.skip(1));
        match parse_decl_line(ls[0]) {
            Some(d) => seq![d] + rest,
            None => rest,
        }
    }
}

/// Every declaration of the corpus, in line order.
pub open spec fn spec_decls(text: Seq<char>) -> Seq<DeclView> {
    decls_of_lines(spec_lines(text))
}

/// Exec counterpart of `skip_ws`.
pub fn skip_ws_exec(v: &Vec<char>, from: usize) -> (r: usize)
    requires
        from <= v@.len(),
    ensures
        r == skip_ws(v@, from as int),
        from <= r <= v@.len(),
{
    let n = v.len();
    let mut i: usize = from;
    while i < n && crate::text::space_char(v[i])
        invariant
            from <= i <= n == v@.len(),
            skip_ws(v@, from as int) == skip_ws(v@, i as int),
        decreases n - i,
    {
        proof {
            assert(skip_ws(v@, i as int) == skip_ws(v@, i + 1 as int));
        }
        i = i + 1;
    }
    proof {
        assert(skip_ws(v@, i as int) == i as int);
    }
    i
}

/// Exec counterpart of `name_end`.
pub fn name_end_exec(v: &Vec<char>, from: usize) -> (r: usize)
    requires
        from <= v@.len(),
    ensures
        r == name_end(v@, from as int),
        from <= r <= v@.len(),
{
    let n = v.len();
    let mut i: usize = from;
    loop
        invariant
            from <= i <= n == v@.len(),
            name_end(v@, from as int) == name_end(v@, i as int),
        ensures
            i == name_end(v@, from as int),
        decreases n - i,
    {
        if i >= n {
            proof {
                assert(name_end(v@, i as int) == i as int);
            }
            break ;
        }
        let c = v[i];
        let namey = ('A' <= c && c <= 'Z') || ('0' <= c && c <= '9') || c == '_';
        if !namey {
            proof {
                assert(name_end(v@, i as int) == i as int);
            }
            break ;
        }
        proof {
            assert(name_end(v@, i as int) == name_end(v@, i + 1 as int));
        }
        i = i + 1;
    }
    i
}

/// One parsed declaration line, executable form.
pub struct RawDecl {
    pub name: Vec<char>,
    pub rhs: Vec<char>,
    pub comment: Vec<char>,
}

impl View for RawDecl {
    type V = DeclView;

    open spec fn view(&self) -> DeclView {
        DeclView { name: self.name@, rhs: self.rhs@, comment: self.comment@ }
    }
}

impl DeepView for RawDecl {
    type V = DeclView;

    open spec fn deep_view(&self) -> DeclView {
        self@
    }
}

/// Parses one line of the corpus.
pub fn parse_line(line: &Vec<char>) -> (r: Option<RawDecl>)
    ensures
        match r {
            Some(d) => parse_decl_line(line@) == Some(d@),
            None => parse_decl_line(line@) is None,
        },
{
    let n = line.len();
    let i = skip_ws_exec(line, 0);
    if i >= n {
        return None;
    }
    let c0 = line[i];
    if !('A' <= c0 && c0 <= 'Z') {
        return None;
    }
    let j = name_end_exec(line, i);
    let k = skip_ws_exec(line, j);
    if k >= n || line[k] != '=' {
        return None;
    }
    let m = crate::text::find_char_from(line, k + 1, ';');
    proof {
        lemma_find_char_bounds(line@, k + 1 as int, ';');
    }
    if m >= n || m == k + 1 {
        return None;
    }
    let name = crate::text::sub_chars(line, i, j);
    let rhs = crate::text::trim_range(line, k + 1, m);
    let t = skip_ws_exec(line, m + 1);
    if t == n {
        let comment: Vec<char> = Vec::new();
        proof {
            assert(comment@ =~= Seq::<char>::empty());
        }
        return Some(RawDecl { name, rhs, comment });
    }
    if t + 1 < n && line[t] == '/' && line[t + 1] == '/' {
        let comment = crate::text::trim_range(line, t + 2, n);
        return Some(RawDecl { name, rhs, comment });
    }
    None
}

/// Splits the corpus into its lines.
pub fn split_lines(v: &Vec<char>) -> (r: Vec<Vec<char>>)
    ensures
        r.deep_view() == spec_lines(v@),
{
    let n = v.len();
    let mut out: Vec<Vec<char>> = Vec::new();
    let mut pos: usize = 0;
    proof {
        assert(v@.skip(0) =~= v@);
        assert(out.deep_view() + spec_lines(v@) =~= spec_lines(v@));
    }
    loop
        invariant_except_break
            pos <= n == v@.len(),
            spec_lines(v@) == out.deep_view() + spec_lines(v@.skip(pos as int)),
        ensures
            out.deep_view() == spec_lines(v@),
        decreases n - pos,
    {
        let j = crate::text::find_char_from(v, pos, '\n');
        proof {
            lemma_find_char_bounds(v@, pos as int, '\n');
            lemma_find_char_offset(v@, pos as int, pos as int, '\n');
        }
        let ghost pre = out.deep_view();
        let piece = crate::text::sub_chars(v, pos, j);
        out.push(piece);
        let ghost rest = v@.skip(pos as int);
        proof {
            assert(out.deep_view() =~~= pre.push(piece@));
            assert(find_char(rest, 0, '\n') == j - pos);
        }
        if j == n {
            proof {
                assert(j - pos == rest.len());
                assert(spec_lines(rest) =~~= seq![rest]);
                assert(v@.subrange(pos as int, j as int) =~= rest);
                assert(out.deep_view() =~~= pre + seq![rest]);
                assert(out.deep_view() =~~= spec_lines(v@));
            }
            break ;
        }
        proof {
            assert(spec_lines(rest) == seq![rest.take(j - pos)] + spec_lines(
                rest.skip(j - pos + 1),
            ));
            assert(rest.take(j - pos) =~= v@.subrange(pos as int, j as int));
            assert(rest.skip(j - pos + 1) =~= v@.skip(j + 1 as int));
            assert(out.deep_view() + spec_lines(v@.skip(j + 1 as int)) =~~= pre + spec_lines(rest));
        }
        pos = j + 1;
    }
    out
}

/// Parses every line, keeping the declarations in order.
pub fn parse_lines(lines: &Vec<Vec<char>>) -> (r: Vec<RawDecl>)
    ensures
        r.deep_view() == decls_of_lines(lines.deep_view()),
{
    let n = lines.len();
    let mut out: Vec<RawDecl> = Vec::new();
    let mut i: usize = 0;
    proof {
        assert(lines.deep_view().skip(0) =~= lines.deep_view());
        assert(out.deep_view() + decls_of_lines(lines.deep_view()) =~= decls_of_lines(
            lines.deep_view(),
        ));
    }
    while i < n
        invariant
            i <= n == lines@.len(),
            decls_of_lines(lines.deep_view()) == out.deep_view() + decls_of_lines(
                lines.deep_view().skip(i as int),
            ),
        decreases n - i,
    {
        let ghost pre = out.deep_view();
        let ghost rest = lines.deep_view().skip(i as int);
        proof {
            assert(rest[0] == lines.deep_view()[i as int]);
            assert(rest.skip(1) =~= lines.deep_view().skip(i + 1 as int));
            assert(lines.deep_view()[i as int] == lines@[i as int]@);
        }
        match parse_line(&lines[i]) {
            Some(d) => {
                out.push(d);
                proof {
                    assert(out.deep_view() =~= pre + seq![d@]);
                    assert(decls_of_lines(rest) == seq![d@] + decls_of_lines(rest.skip(1)));
                    assert(out.deep_view() + decls_of_lines(rest.skip(1)) =~= pre + decls_of_lines(
                        rest,
                    ));
                }
            },
            None => {
                proof {
                    assert(decls_of_lines(rest) == decls_of_lines(rest.skip(1)));
                }
            },
        }
        i = i + 1;
    }
    proof {
        assert(lines.deep_view().skip(n as int) =~= Seq::<Seq<char>>::empty());
        assert(decls_of_lines(Seq::<Seq<char>>::empty()) == Seq::<DeclView>::empty());
        assert(out.deep_view() =~= decls_of_lines(lines.deep_view()));
    }
    out
}

} // verus!
