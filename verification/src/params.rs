//! Parameter specifications: the type of one discovered declaration, the
//! inference of its type from its right-hand side, and the small pure
//! utilities around override values (boolean tokens, string escaping,
//! filename sanitizing).

use vstd::prelude::*;

use crate::text::{is_alnum, to_lower};

verus! {

/// The inferred type of a declaration, decided once from the syntax of its
/// right-hand side.
#[derive(Debug, Clone, Copy, PartialEq, Eq, Structural)]
pub enum ParamType {
    Number,
    Bool,
    String,
}

/// One discovered declaration.
pub struct ParamSpec {
    /// The declared identifier, e.g. `COASTER_D`.
    pub name: std::string::String,
    /// The right-hand-side text exactly as it appeared, unevaluated.
    pub default: std::string::String,
    /// The inferred type.
    pub ty: ParamType,
    /// Whether the declaration is exposed to the external override surface.
    pub is_user_param: bool,
    /// The trailing same-line comment, trimmed; empty if there was none.
    pub comment: std::string::String,
    /// Allowed values listed in the comment, in order; possibly empty.
    pub options: Vec<std::string::String>,
}

/// The mathematical content of a `ParamSpec`.
pub struct ParamSpecView {
    pub name: Seq<char>,
    pub default: Seq<char>,
    pub ty: ParamType,
    pub is_user_param: bool,
    pub comment: Seq<char>,
    pub options: Seq<Seq<char>>,
}

impl View for ParamSpec {
    type V = ParamSpecView;

    open spec fn view(&self) -> ParamSpecView {
        ParamSpecView {
            name: self.name@,
            default: self.default@,
            ty: self.ty,
            is_user_param: self.is_user_param,
            comment: self.comment@,
            options: self.options.deep_view(),
        }
    }
}

impl DeepView for ParamSpec {
    type V = ParamSpecView;

    open spec fn deep_view(&self) -> ParamSpecView {
        self@
    }
}

impl Clone for ParamSpec {
    fn clone(&self) -> (r: Self)
        ensures
            r@ == self@,
    {
        let mut options: Vec<std::string::String> = Vec::new();
        let n = self.options.len();
        let mut i: usize = 0;
        while i < n
            invariant
                n == self.options@.len(),
                i <= n,
                options@ == self.options@.subrange(0, i as int),
            decreases n - i,
        {
            options.push(self.options[i].clone());
            proof {
                assert(options@ =~= self.options@.subrange(0, i + 1 as int));
            }
            i = i + 1;
        }
        proof {
            assert(options@ =~= self.options@);
        }
        let r = ParamSpec {
            name: self.name.clone(),
            default: self.default.clone(),
            ty: self.ty,
            is_user_param: self.is_user_param,
            comment: self.comment.clone(),
            options,
        };
        r
    }
}

/// ASCII lower-casing of a sequence.
pub open spec fn lower_seq(s: Seq<char>) -> Seq<char> {
    s.map_values(|c: char| to_lower(c))
}

/// The tokens an external form may submit for "true".
pub open spec fn truthy_token(s: Seq<char>) -> bool {
    let l = lower_seq(s);
    l == seq!['1'] || l == seq!['t', 'r', 'u', 'e'] || l == seq!['o', 'n'] || l == seq![
        'y',
        'e',
        's',
    ]
}

/// The tokens an external form may submit for "false".
pub open spec fn falsy_token(s: Seq<char>) -> bool {
    let l = lower_seq(s);
    l == seq!['0'] || l == seq!['f', 'a', 'l', 's', 'e'] || l == seq!['o', 'f', 'f'] || l == seq![
        'n',
        'o',
    ]
}

/// What `parse_bool` returns for any submitted text.
pub open spec fn spec_parse_bool(s: Seq<char>) -> Result<bool, ()> {
    if truthy_token(s) {
        Ok(true)
    } else if falsy_token(s) {
        Ok(false)
    } else {
        Err(())
    }
}

/// Parses the boolean tokens external forms commonly submit,
/// case-insensitively: `1`, `true`, `on`, `yes` are true; `0`, `false`,
/// `off`, `no` are false; anything else is rejected.
pub fn parse_bool(value: &str) -> (r: Result<bool, ()>)
    ensures
        r == spec_parse_bool(value@),
{
    let chars = crate::text::str_to_chars(value);
    let lower = crate::text::lower_chars(&chars);
    let one: Vec<char> = vec!['1'];
    let tru: Vec<char> = vec!['t', 'r', 'u', 'e'];
    let on: Vec<char> = vec!['o', 'n'];
    let yes: Vec<char> = vec!['y', 'e', 's'];
    let zero: Vec<char> = vec!['0'];
    let fal: Vec<char> = vec!['f', 'a', 'l', 's', 'e'];
    let off: Vec<char> = vec!['o', 'f', 'f'];
    let no: Vec<char> = vec!['n', 'o'];
    proof {
        assert(one@ =~= seq!['1']);
        assert(tru@ =~= seq!['t', 'r', 'u', 'e']);
        assert(on@ =~= seq!['o', 'n']);
        assert(yes@ =~= seq!['y', 'e', 's']);
        assert(zero@ =~= seq!['0']);
        assert(fal@ =~= seq!['f', 'a', 'l', 's', 'e']);
        assert(off@ =~= seq!['o', 'f', 'f']);
        assert(no@ =~= seq!['n', 'o']);
    }
    if crate::text::chars_eq(&lower, &one) || crate::text::chars_eq(&lower, &tru)
        || crate::text::chars_eq(&lower, &on) || crate::text::chars_eq(&lower, &yes) {
        Ok(true)
    } else if crate::text::chars_eq(&lower, &zero) || crate::text::chars_eq(&lower, &fal)
        || crate::text::chars_eq(&lower, &off) || crate::text::chars_eq(&lower, &no) {
        Ok(false)
    } else {
        Err(())
    }
}

/// A character that may stay in a derived output artifact name.
pub open spec fn is_safe_char(c: char) -> bool {
    is_alnum(c) || c == '-' || c == '_'
}

/// The sanitizing map: safe characters stay, everything else becomes `_`.
pub open spec fn sanitize_char(c: char) -> char {
    if is_safe_char(c) {
        c
    } else {
        '_'
    }
}

/// The sanitized form of a whole name.
pub open spec fn spec_sanitize(s: Seq<char>) -> Seq<char> {
    s.map_values(|c: char| sanitize_char(c))
}

/// Replaces every character that is not an ASCII letter, digit, `-` or `_`
/// with `_`, so any text becomes a safe output artifact name. Total: never
/// fails, never changes the length in characters.
pub fn sanitize_filename_component(raw: &str) -> (r: String)
    ensures
        r@ == spec_sanitize(raw@),
{
    let chars = crate::text::str_to_chars(raw);
    let n = chars.len();
    let mut out: Vec<char> = Vec::new();
    let mut i: usize = 0;
    while i < n
        invariant
            n == chars@.len(),
            chars@ == raw@,
            i <= n,
            out@ == spec_sanitize(raw@).subrange(0, i as int),
        decreases n - i,
    {
        let c = chars[i];
        let safe = ('A' <= c && c <= 'Z') || ('a' <= c && c <= 'z') || ('0' <= c && c <= '9') || c
            == '-' || c == '_';
        out.push(if safe { c } else { '_' });
        proof {
            assert(out@ =~= spec_sanitize(raw@).subrange(0, i + 1 as int));
        }
        i = i + 1;
    }
    proof {
        assert(out@ =~= spec_sanitize(raw@));
    }
    crate::text::chars_to_string(&out)
}

/// How one character is escaped inside a stored string literal.
pub open spec fn escape_char(c: char) -> Seq<char> {
    if c == '\\' {
        seq!['\\', '\\']
    } else if c == '"' {
        seq!['\\', '"']
    } else {
        seq![c]
    }
}

/// The escaped body of a stored string literal.
pub open spec fn spec_escape(s: Seq<char>) -> Seq<char>
    decreases s.len(),
{
    if s.len() == 0 {
        Seq::empty()
    } else {
        escape_char(s[0]) + spec_escape(s.skip(1))
    }
}

/// A submitted string value as it is stored: escaped and wrapped in double
/// quotes, matching the external tool's string-literal syntax.
pub open spec fn quoted_escaped(s: Seq<char>) -> Seq<char> {
    seq!['"'] + spec_escape(s) + seq!['"']
}

pub proof fn lemma_escape_concat(a: Seq<char>, b: Seq<char>)
    ensures
        spec_escape(a + b) == spec_escape(a) + spec_escape(b),
    decreases a.len(),
{
    if a.len() == 0 {
        assert(a + b =~= b);
        assert(spec_escape(a) + spec_escape(b) =~= spec_escape(b));
    } else {
        lemma_escape_concat(a.skip(1), b);
        assert((a + b).skip(1) =~= a.skip(1) + b);
        assert((a + b)[0] == a[0]);
        assert(spec_escape(a + b) =~= escape_char(a[0]) + (spec_escape(a.skip(1)) + spec_escape(b)));
        assert(escape_char(a[0]) + (spec_escape(a.skip(1)) + spec_escape(b)) =~= (escape_char(a[0])
            + spec_escape(a.skip(1))) + spec_escape(b));
    }
}

/// Builds the stored form of a submitted string value.
pub fn quote_and_escape(text: &Vec<char>) -> (r: Vec<char>)
    ensures
        r@ == quoted_escaped(text@),
{
    let n = text.len();
    let mut out: Vec<char> = Vec::new();
    out.push('"');
    proof {
        assert(out@ =~= seq!['"'] + spec_escape(text@.take(0)));
    }
    let mut i: usize = 0;
    while i < n
        invariant
            n == text@.len(),
            i <= n,
            out@ == seq!['"'] + spec_escape(text@.take(i as int)),
        decreases n - i,
    {
        let c = text[i];
        if c == '\\' {
            out.push('\\');
            out.push('\\');
        } else if c == '"' {
            out.push('\\');
            out.push('"');
        } else {
            out.push(c);
        }
        proof {
            lemma_escape_concat(text@.take(i as int), seq![text@[i as int]]);
            assert(text@.take(i + 1 as int) =~= text@.take(i as int) + seq![text@[i as int]]);
            assert(seq![text@[i as int]].skip(1) =~= Seq::<char>::empty());
            assert(spec_escape(Seq::<char>::empty()) =~= Seq::<char>::empty());
            assert(spec_escape(seq![text@[i as int]]) =~= escape_char(text@[i as int]));
            assert(out@ =~= seq!['"'] + spec_escape(text@.take(i + 1 as int)));
        }
        i = i + 1;
    }
    out.push('"');
    proof {
        assert(text@.take(n as int) =~= text@);
        assert(out@ =~= quoted_escaped(text@));
    }
    out
}

/// Syntactic type inference over a trimmed right-hand side: a leading
/// double quote means `String`, the words `true`/`false` (any case) mean
/// `Bool`, and anything else is `Number` — even a non-literal expression,
/// which is carried as text and never evaluated.
pub open spec fn infer_ty(rhs: Seq<char>) -> ParamType {
    if rhs.len() > 0 && rhs[0] == '"' {
        ParamType::String
    } else if lower_seq(rhs) == seq!['t', 'r', 'u', 'e'] || lower_seq(rhs) == seq![
        'f',
        'a',
        'l',
        's',
        'e',
    ] {
        ParamType::Bool
    } else {
        ParamType::Number
    }
}

/// Infers the type of a right-hand side (already trimmed).
pub fn infer_type(rhs: &Vec<char>) -> (r: ParamType)
    ensures
        r == infer_ty(rhs@),
{
    if rhs.len() > 0 {
        let c0 = rhs[0];
        if c0 == '"' {
            return ParamType::String;
        }
    }
    let lower = crate::text::lower_chars(rhs);
    let tru: Vec<char> = vec!['t', 'r', 'u', 'e'];
    let fal: Vec<char> = vec!['f', 'a', 'l', 's', 'e'];
    proof {
        assert(tru@ =~= seq!['t', 'r', 'u', 'e']);
        assert(fal@ =~= seq!['f', 'a', 'l', 's', 'e']);
    }
    if crate::text::chars_eq(&lower, &tru) || crate::text::chars_eq(&lower, &fal) {
        ParamType::Bool
    } else {
        ParamType::Number
    }
}

} // verus!
