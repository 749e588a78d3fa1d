//! The source tree loader's logic. A document pulls another one in with a
//! directive line: one of two keywords, an angle-bracket-delimited relative
//! path, and a `;` terminator. The loader visits each canonical document at
//! most once (so reference cycles are harmless), concatenates the visited
//! texts separated by line feeds in depth-first, directive-occurrence
//! order, and silently skips paths that do not resolve.
//!
//! Reading from disk is the caller's side of the split: `CorpusBuilder` is
//! the decision state (the visited set and the growing corpus), and
//! `resolve_corpus` is the same traversal run to completion over an
//! in-memory document table.

use vstd::prelude::*;

use crate::scan::spec_lines;
use crate::text::{find_char, lemma_find_char_bounds, match_at, skip_ws, trim};

verus! {

/// The primary directive keyword.
pub open spec fn kw_primary() -> Seq<char> {
    seq!['i', 'n', 'c', 'l', 'u', 'd', 'e']
}

/// The synonymous directive keyword, treated identically.
pub open spec fn kw_synonym() -> Seq<char> {
    seq!['u', 's', 'e']
}

/// The referenced path of a directive line, trimmed; `None` when the line
/// is no directive.
pub open spec fn directive_path(line: Seq<char>) -> Option<Seq<char>> {
    let i = skip_ws(line, 0);
    let k = if match_at(line, kw_primary(), i) {
        i + kw_primary().len()
    } else if match_at(line, kw_synonym(), i) {
        i + kw_synonym().len()
    } else {
        line.len() as int + 1
    };
    if k > line.len() {
        None
    } else {
        let j = skip_ws(line, k);
        if j >= line.len() || line[j] != '<' {
            None
        } else {
            let e = find_char(line, j + 1, '>');
            if e >= line.len() || e == j + 1 {
                None
            } else {
                let t = skip_ws(line, e + 1);
                if t < line.len() && line[t] == ';' {
                    Some(trim(line.subrange(j + 1, e)))
                } else {
                    None
                }
            }
        }
    }
}

/// The referenced paths of a line list, in order.
pub open spec fn paths_of_lines(ls: Seq<Seq<char>>) -> Seq<Seq<char>>
    decreases ls.len(),
{
    if ls.len() == 0 {
        Seq::empty()
    } else {
        let rest = paths_of_lines(ls.skip(1));
        match directive_path(ls[0]) {
            Some(p) => seq![p] + rest,
            None => rest,
        }
    }
}

/// Every directive path of a document, in occurrence order.
pub open spec fn directive_paths(text: Seq<char>) -> Seq<Seq<char>> {
    paths_of_lines(spec_lines(text))
}

/// Scans one line for a directive.
fn directive_of_line(line: &Vec<char>) -> (r: Option<Vec<char>>)
    ensures
        match r {
            Some(p) => directive_path(line@) == Some(p@),
            None => directive_path(line@) is None,
        },
{
    let n = line.len();
    let i = crate::scan::skip_ws_exec(line, 0);
    let kwp: Vec<char> = vec!['i', 'n', 'c', 'l', 'u', 'd', 'e'];
    let kws: Vec<char> = vec!['u', 's', 'e'];
    proof {
        assert(kwp@ =~= kw_primary());
        assert(kws@ =~= kw_synonym());
    }
    let k: usize = if n >= 7 && i <= n - 7 && crate::text::match_range(line, &kwp, i) {
        i + 7
    } else if n >= 3 && i <= n - 3 && crate::text::match_range(line, &kws, i) {
        i + 3
    } else {
        proof {
            assert(!match_at(line@, kw_primary(), i as int));
            assert(!match_at(line@, kw_synonym(), i as int));
        }
        return None;
    };
    let j = crate::scan::skip_ws_exec(line, k);
    if j >= n || line[j] != '<' {
        return None;
    }
    let e = crate::text::find_char_from(line, j + 1, '>');
    proof {
        lemma_find_char_bounds(line@, j + 1 as int, '>');
    }
    if e >= n || e == j + 1 {
        return None;
    }
    let t = crate::scan::skip_ws_exec(line, e + 1);
    if t < n && line[t] == ';' {
        Some(crate::text::trim_range(line, j + 1, e))
    } else {
        None
    }
}

/// Scans a document's text for directive paths, in occurrence order.
pub fn scan_directive_paths(text: &str) -> (r: Vec<String>)
    ensures
        r.deep_view() == directive_paths(text@),
{
    let chars = crate::text::str_to_chars(text);
    let lines = crate::scan::split_lines(&chars);
    let n = lines.len();
    let mut out: Vec<String> = Vec::new();
    let mut i: usize = 0;
    proof {
        assert(lines.deep_view().skip(0) =~= lines.deep_view());
        assert(out.deep_view() + paths_of_lines(lines.deep_view()) =~= paths_of_lines(
            lines.deep_view(),
        ));
    }
    while i < n
        invariant
            i <= n == lines@.len(),
            lines.deep_view() == spec_lines(text@),
            paths_of_lines(lines.deep_view()) == out.deep_view() + paths_of_lines(
                lines.deep_view().skip(i as int),
            ),
        decreases n - i,
    {
        let ghost pre = out.deep_view();
        let ghost rest = lines.deep_view().skip(i as int);
        proof {
            assert(rest[0] == lines.deep_view()[i as int]);
            assert(rest.skip(1) =~= lines.deep_view().skip(i + 1 as int));
            assert(lines.deep_view()[i as int] == lines@[i as int]@);
        }
        match directive_of_line(&lines[i]) {
            Some(p) => {
                let ps = crate::text::chars_to_string(&p);
                out.push(ps);
                proof {
                    assert(out.deep_view() =~~= pre.push(p@));
                    assert(paths_of_lines(rest) == seq![p@] + paths_of_lines(rest.skip(1)));
                    assert(out.deep_view() + paths_of_lines(rest.skip(1)) =~~= pre + paths_of_lines(
                        rest,
                    ));
                }
            },
            None => {
                proof {
                    assert(paths_of_lines(rest) == paths_of_lines(rest.skip(1)));
                }
            },
        }
        i = i + 1;
    }
    proof {
        assert(lines.deep_view().skip(n as int) =~= Seq::<Seq<char>>::empty());
        assert(out.deep_view() =~~= paths_of_lines(lines.deep_view()));
    }
    out
}

/// The loader's decision state while a caller walks a document tree: the
/// canonical paths already taken in, and the corpus text gathered so far.
pub struct CorpusBuilder {
    /// Canonical paths of the documents already taken in, in visit order.
    pub visited: Vec<String>,
    /// The concatenated corpus, one line feed after each document.
    pub corpus: String,
}

impl CorpusBuilder {
    /// An empty corpus: nothing visited yet.
    pub fn new() -> (r: Self)
        ensures
            r.visited.deep_view() == Seq::<Seq<char>>::empty(),
            r.corpus@ == Seq::<char>::empty(),
    {
        let r = CorpusBuilder { visited: Vec::new(), corpus: String::new() };
        proof {
            assert(r.visited.deep_view() =~~= Seq::<Seq<char>>::empty());
        }
        r
    }

    /// Claims a canonical path before its document is read. Returns true
    /// and records the path when it is new; returns false and changes
    /// nothing when the path was already taken in — so a document
    /// contributes text at most once, and a cyclic walk runs out of new
    /// paths.
    pub fn begin_document(&mut self, canon: &str) -> (r: bool)
        ensures
            r == !old(self).visited.deep_view().contains(canon@),
            r ==> final(self).visited.deep_view() == old(self).visited.deep_view().push(canon@),
            !r ==> final(self).visited == old(self).visited,
            final(self).corpus == old(self).corpus,
    {
        let ghost vv = self.visited.deep_view();
        let n = self.visited.len();
        let mut i: usize = 0;
        while i < n
            invariant
                i <= n == self.visited@.len(),
                vv == self.visited.deep_view(),
                forall|j: int| 0 <= j < i ==> (#[trigger] vv[j]) != canon@,
            decreases n - i,
        {
            proof {
                assert(vv[i as int] == self.visited@[i as int]@);
            }
            if crate::text::str_eq(self.visited[i].as_str(), canon) {
                proof {
                    assert(vv.contains(canon@));
                }
                return false;
            }
            i = i + 1;
        }
        proof {
            if vv.contains(canon@) {
                let k = choose|k: int| 0 <= k < vv.len() && vv[k] == canon@;
                assert(vv[k] != canon@);
            }
        }
        let ghost pre = self.visited.deep_view();
        let owned = canon.to_owned();
        self.visited.push(owned);
        proof {
            assert(self.visited.deep_view() =~~= pre.push(canon@));
        }
        true
    }

    /// Takes in one document's text: appends it (and a separating line
    /// feed) to the corpus and hands back the directive paths the caller
    /// should try next, in occurrence order.
    pub fn add_document_text(&mut self, text: &str) -> (r: Vec<String>)
        ensures
            final(self).corpus@ == old(self).corpus@ + text@ + seq!['\n'],
            final(self).visited == old(self).visited,
            r.deep_view() == directive_paths(text@),
    {
        let ghost pre = self.corpus@;
        self.corpus.append(text);
        let nl: Vec<char> = vec!['\n'];
        let nls = crate::text::chars_to_string(&nl);
        self.corpus.append(nls.as_str());
        proof {
            assert(nl@ =~= seq!['\n']);
            assert(self.corpus@ =~= pre + text@ + seq!['\n']);
        }
        scan_directive_paths(text)
    }

    /// Hands the finished corpus over.
    pub fn into_corpus(self) -> (r: String)
        ensures
            r@ == self.corpus@,
    {
        self.corpus
    }
}

/// One in-memory document of a tree: its canonical name and its text.
pub struct ScadDoc {
    pub name: String,
    pub text: String,
}

/// The mathematical content of a `ScadDoc`.
pub struct DocView {
    pub name: Seq<char>,
    pub text: Seq<char>,
}

impl View for ScadDoc {
    type V = DocView;

    open spec fn view(&self) -> DocView {
        DocView { name: self.name@, text: self.text@ }
    }
}

impl DeepView for ScadDoc {
    type V = DocView;

    open spec fn deep_view(&self) -> DocView {
        self@
    }
}

/// How many documents are still unvisited.
pub open spec fn count_false(s: Seq<bool>) -> nat
    decreases s.len(),
{
    if s.len() == 0 {
        0
    } else {
        (if s[0] {
            0nat
        } else {
            1nat
        }) + count_false(s.skip(1))
    }
}

proof fn lemma_count_false_le(a: Seq<bool>, b: Seq<bool>)
    requires
        a.len() == b.len(),
        forall|k: int| 0 <= k < a.len() ==> (a[k] ==> b[k]),
    ensures
        count_false(b) <= count_false(a),
    decreases a.len(),
{
    if a.len() > 0 {
        assert forall|k: int| 0 <= k < a.skip(1).len() implies (a.skip(1)[k] ==> b.skip(1)[k]) by {
            assert(a.skip(1)[k] == a[k + 1]);
            assert(b.skip(1)[k] == b[k + 1]);
        }
        lemma_count_false_le(a.skip(1), b.skip(1));
    }
}

proof fn lemma_count_false_update(s: Seq<bool>, i: int)
    requires
        0 <= i < s.len(),
        !s[i],
    ensures
        count_false(s.update(i, true)) + 1 == count_false(s),
    decreases s.len(),
{
    let t = s.update(i, true);
    if i == 0 {
        assert(t.skip(1) =~= s.skip(1));
    } else {
        lemma_count_false_update(s.skip(1), i - 1);
        assert(t.skip(1) =~= s.skip(1).update(i - 1, true));
        assert(t[0] == s[0]);
    }
}

/// The visit order is sound: indices in range, each visited, none twice.
pub open spec fn order_ok(order: Seq<usize>, visited: Seq<bool>, n: int) -> bool {
    &&& order.no_duplicates()
    &&& forall|k: int| 0 <= k < order.len() ==> (#[trigger] order[k]) < n && visited[order[k] as int]
}

/// Finds the first document with this name, if any.
fn doc_index(docs: &Vec<ScadDoc>, name: &str) -> (r: Option<usize>)
    ensures
        match r {
            Some(i) => i < docs@.len() && docs.deep_view()[i as int].name == name@,
            None => forall|j: int|
                0 <= j < docs@.len() ==> (#[trigger] docs.deep_view()[j]).name != name@,
        },
{
    let n = docs.len();
    let mut i: usize = 0;
    while i < n
        invariant
            i <= n == docs@.len(),
            forall|j: int| 0 <= j < i ==> (#[trigger] docs.deep_view()[j]).name != name@,
        decreases n - i,
    {
        proof {
            assert(docs.deep_view()[i as int] == docs@[i as int]@);
        }
        if crate::text::str_eq(docs[i].name.as_str(), name) {
            return Some(i);
        }
        i = i + 1;
    }
    None
}

/// Visits `idx` and, depth-first in directive-occurrence order, every
/// still-unvisited document it references. Verified total: the visited
/// set only grows, so even a cyclic tree runs out of new documents.
fn resolve_rec(docs: &Vec<ScadDoc>, idx: usize, visited: Vec<bool>, order: Vec<usize>) -> (r: (
    Vec<bool>,
    Vec<usize>,
))
    requires
        visited@.len() == docs@.len(),
        idx < docs@.len(),
        !visited@[idx as int],
        order_ok(order@, visited@, docs@.len() as int),
    ensures
        r.0@.len() == docs@.len(),
        forall|k: int| 0 <= k < docs@.len() ==> (visited@[k] ==> r.0@[k]),
        r.0@[idx as int],
        order_ok(r.1@, r.0@, docs@.len() as int),
        r.1@.len() > order@.len(),
        r.1@.subrange(0, order@.len() as int) == order@,
        r.1@[order@.len() as int] == idx,
    decreases count_false(visited@),
{
    let ghost c_in = count_false(visited@);
    let ghost v_in = visited@;
    let ghost n = docs@.len() as int;
    let mut vis = visited;
    let mut ord = order;
    let ghost order0 = ord@;
    proof {
        lemma_count_false_update(vis@, idx as int);
        if ord@.contains(idx) {
            let k = choose|k: int| 0 <= k < ord@.len() && ord@[k] == idx;
            assert(vis@[idx as int]);
        }
    }
    vis.set(idx, true);
    ord.push(idx);
    let ghost base = vis@;
    proof {
        assert(count_false(base) + 1 == c_in);
        assert(ord@ =~= order0.push(idx));
        assert(ord@.no_duplicates());
    }
    let paths = scan_directive_paths(docs[idx].text.as_str());
    let m = paths.len();
    proof {
        assert(base[idx as int]);
    }
    let mut p: usize = 0;
    while p < m
        invariant
            m == paths@.len(),
            p <= m,
            c_in == count_false(visited@),
            docs@.len() == n,
            vis@.len() == n,
            forall|k: int| 0 <= k < n ==> (base[k] ==> vis@[k]),
            base.len() == n,
            base[idx as int],
            count_false(base) + 1 == c_in,
            order_ok(ord@, vis@, n),
            ord@.len() > order0.len(),
            ord@.subrange(0, order0.len() as int) == order0,
            ord@[order0.len() as int] == idx,
        decreases m - p,
    {
        let target = doc_index(docs, paths[p].as_str());
        match target {
            Some(child) => {
                if !vis[child] {
                    proof {
                        lemma_count_false_le(base, vis@);
                        assert(count_false(vis@) < c_in);
                    }
                    let ghost order_in = ord@;
                    let (v2, o2) = resolve_rec(docs, child, vis, ord);
                    vis = v2;
                    ord = o2;
                    proof {
                        assert forall|k: int| 0 <= k < n implies (base[k] ==> vis@[k]) by {}
                        assert(ord@.subrange(0, order0.len() as int) =~= order0) by {
                            assert forall|k: int| 0 <= k < order0.len() implies ord@[k]
                                == order0[k] by {
                                assert(ord@.subrange(0, order_in.len() as int)[k] == ord@[k]);
                                assert(order_in.subrange(0, order0.len() as int)[k] == order_in[k]);
                            }
                        }
                        assert(ord@[order0.len() as int] == order_in[order0.len() as int]) by {
                            assert(ord@.subrange(0, order_in.len() as int)[order0.len() as int]
                                == ord@[order0.len() as int]);
                        }
                    }
                }
            },
            None => {
            },
        }
        p = p + 1;
    }
    proof {
        assert forall|k: int| 0 <= k < docs@.len() implies (v_in[k] ==> vis@[k]) by {
            assert(v_in[k] ==> base[k]);
        }
        assert(vis@[idx as int]);
    }
    (vis, ord)
}

/// Resolves an in-memory document tree from its entry document: the order
/// in which the loader takes documents in, depth-first by directive
/// occurrence, each document at most once, cycles and all.
pub fn resolve_order(docs: &Vec<ScadDoc>, entry: usize) -> (r: Vec<usize>)
    requires
        entry < docs@.len(),
    ensures
        r@.no_duplicates(),
        forall|k: int| 0 <= k < r@.len() ==> (#[trigger] r@[k]) < docs@.len(),
        r@.len() >= 1,
        r@[0] == entry,
{
    let n = docs.len();
    let mut visited: Vec<bool> = Vec::new();
    let mut i: usize = 0;
    while i < n
        invariant
            i <= n == docs@.len(),
            visited@.len() == i,
            forall|k: int| 0 <= k < i ==> !(#[trigger] visited@[k]),
        decreases n - i,
    {
        visited.push(false);
        i = i + 1;
    }
    let order: Vec<usize> = Vec::new();
    let (_v, o) = resolve_rec(docs, entry, visited, order);
    proof {
        assert(o@[0] == entry);
    }
    o
}

/// The corpus of a visit order: each document's text followed by one line
/// feed, concatenated.
pub open spec fn corpus_of_order(ds: Seq<DocView>, order: Seq<usize>) -> Seq<char>
    decreases order.len(),
{
    if order.len() == 0 {
        Seq::empty()
    } else {
        ds[order[0] as int].text + seq!['\n'] + corpus_of_order(ds, order.skip(1))
    }
}

/// Concatenates the documents of a visit order into one corpus.
pub fn corpus_of(docs: &Vec<ScadDoc>, order: &Vec<usize>) -> (r: String)
    requires
        forall|k: int| 0 <= k < order@.len() ==> (#[trigger] order@[k]) < docs@.len(),
    ensures
        r@ == corpus_of_order(docs.deep_view(), order@),
{
    let ghost ds = docs.deep_view();
    let n = order.len();
    let mut out = String::new();
    let mut i: usize = 0;
    proof {
        assert(order@.skip(0) =~= order@);
        assert(out@ + corpus_of_order(ds, order@) =~= corpus_of_order(ds, order@));
    }
    while i < n
        invariant
            i <= n == order@.len(),
            ds == docs.deep_view(),
            forall|k: int| 0 <= k < n ==> (#[trigger] order@[k]) < docs@.len(),
            corpus_of_order(ds, order@) == out@ + corpus_of_order(ds, order@.skip(i as int)),
        decreases n - i,
    {
        let ghost pre = out@;
        let ghost rest = order@.skip(i as int);
        let j = order[i];
        proof {
            assert(rest[0] == order@[i as int]);
            assert(rest.skip(1) =~= order@.skip(i + 1 as int));
            assert(ds[j as int] == docs@[j as int]@);
        }
        out.append(docs[j].text.as_str());
        let nl: Vec<char> = vec!['\n'];
        let nls = crate::text::chars_to_string(&nl);
        out.append(nls.as_str());
        proof {
            assert(nl@ =~= seq!['\n']);
            assert(out@ =~= pre + ds[j as int].text + seq!['\n']);
            assert(corpus_of_order(ds, rest) == ds[j as int].text + seq!['\n'] + corpus_of_order(
                ds,
                rest.skip(1),
            ));
            assert(out@ + corpus_of_order(ds, order@.skip(i + 1 as int)) =~= pre + corpus_of_order(
                ds,
                rest,
            ));
        }
        i = i + 1;
    }
    proof {
        assert(order@.skip(n as int) =~= Seq::<usize>::empty());
        assert(out@ =~= corpus_of_order(ds, order@));
    }
    out
}

} // verus!
