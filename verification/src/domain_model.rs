use vstd::prelude::*;
use vstd::string::*;

use crate::json::precedes;
use crate::source_text::{
    after_last, after_last_of, before_char, chars_of, concat_chars, contains, count_of, find, find_in, first_at, has_prefix,
    inner_of, inner_part, joined, lemma_strip_suffix_chars_len, repeated, utf8_len, lemma_trimmed_len, slice, starts_with, string_of,
    strip_all_suffix_chars, strip_prefix, trim, trim_end_matches, trimmed, without_prefix,
};

verus! {

/// The views of optional character vectors.
pub open spec fn opt_chars(o: Option<Vec<char>>) -> Option<Seq<char>> {
    match o {
        Some(v) => Some(v@),
        None => None,
    }
}

/// A type as the domain model shows it: `Vec<..>`, `Option<..>` and `Mutex<..>` with their
/// inner type simplified, `Box<dyn ..>` as it is, any `HashMap<..>` as `HashMap`, a path as its
/// last segment. `None` where a wrapper's inner type cannot be sliced out (see `inner_part`).
pub open spec fn simplified(ty0: Seq<char>) -> Option<Seq<char>>
    decreases ty0.len(),
{
    let ty = strip_all_suffix_chars(trimmed(ty0), ';');
    proof {
        lemma_trimmed_len(ty0);
        lemma_strip_suffix_chars_len(trimmed(ty0), ';');
    }
    if has_prefix(ty, "Vec<"@) {
        match inner_part(ty, 4) {
            Some(inner) => match simplified(inner) {
                Some(x) => Some("Vec<"@ + x + ">"@),
                None => None,
            },
            None => None,
        }
    } else if has_prefix(ty, "Option<"@) {
        match inner_part(ty, 7) {
            Some(inner) => match simplified(inner) {
                Some(x) => Some("Option<"@ + x + ">"@),
                None => None,
            },
            None => None,
        }
    } else if has_prefix(ty, "Box<dyn "@) {
        match inner_part(ty, 8) {
            Some(inner) => Some("Box<dyn "@ + inner + ">"@),
            None => None,
        }
    } else if has_prefix(ty, "HashMap<"@) {
        Some("HashMap"@)
    } else if has_prefix(ty, "Mutex<"@) {
        match inner_part(ty, 6) {
            Some(inner) => match simplified(inner) {
                Some(x) => Some("Mutex<"@ + x + ">"@),
                None => None,
            },
            None => None,
        }
    } else if find_in(ty, "::"@) is Some {
        Some(after_last(ty, "::"@))
    } else {
        Some(ty)
    }
}

/// The name of the type a field's (simplified) type refers to. `None` where an inner type
/// cannot be sliced out (see `inner_part`).
pub open spec fn type_target(ty0: Seq<char>) -> Option<Seq<char>>
    decreases ty0.len(),
{
    let ty = trimmed(ty0);
    proof {
        lemma_trimmed_len(ty0);
    }
    if has_prefix(ty, "Vec<"@) || has_prefix(ty, "Option<"@) {
        match inner_part(ty, 1) {
            Some(inner) => type_target(inner),
            None => None,
        }
    } else if has_prefix(ty, "Box<dyn "@) {
        inner_part(ty, 8)
    } else if has_prefix(ty, "Mutex<"@) {
        match inner_part(ty, 6) {
            Some(inner) => type_target(inner),
            None => None,
        }
    } else if find_in(ty, "::"@) is Some {
        Some(after_last(ty, "::"@))
    } else {
        Some(ty)
    }
}

fn wrap(pre: &str, inner: &Vec<char>, post: &str) -> (r: Vec<char>)
    ensures
        r@ == pre@ + inner@ + post@,
{
    let a = chars_of(pre);
    let b = chars_of(post);
    concat_chars(&concat_chars(&a, inner), &b)
}

fn simplify_chars(ty0: &Vec<char>) -> (r: Option<Vec<char>>)
    ensures
        opt_chars(r) == simplified(ty0@),
    decreases ty0@.len(),
{
    proof {
        lemma_trimmed_len(ty0@);
        lemma_strip_suffix_chars_len(trimmed(ty0@), ';');
        reveal_strlit("Vec<");
        reveal_strlit("Option<");
        reveal_strlit("Box<dyn ");
        reveal_strlit("Mutex<");
    }
    let ty = trim_end_matches(&trim(ty0), ';');
    if starts_with(&ty, "Vec<") {
        match inner_of(&ty, 4) {
            Some(inner) => match simplify_chars(&inner) {
                Some(x) => Some(wrap("Vec<", &x, ">")),
                None => None,
            },
            None => None,
        }
    } else if starts_with(&ty, "Option<") {
        match inner_of(&ty, 7) {
            Some(inner) => match simplify_chars(&inner) {
                Some(x) => Some(wrap("Option<", &x, ">")),
                None => None,
            },
            None => None,
        }
    } else if starts_with(&ty, "Box<dyn ") {
        match inner_of(&ty, 8) {
            Some(inner) => Some(wrap("Box<dyn ", &inner, ">")),
            None => None,
        }
    } else if starts_with(&ty, "HashMap<") {
        Some(chars_of("HashMap"))
    } else if starts_with(&ty, "Mutex<") {
        match inner_of(&ty, 6) {
            Some(inner) => match simplify_chars(&inner) {
                Some(x) => Some(wrap("Mutex<", &x, ">")),
                None => None,
            },
            None => None,
        }
    } else if contains(&ty, "::") {
        Some(after_last_of(&ty, "::"))
    } else {
        Some(ty)
    }
}

/// A type as the domain model shows it; `None` for a type whose inner part cannot be sliced
/// out (nothing between the wrapper and its end, or a last character of more than one byte).
pub fn simplify_type(ty: &str) -> (r: Option<String>)
    ensures
        match simplified(ty@) {
            Some(x) => r is Some && r->Some_0@ == x,
            None => r is None,
        },
{
    match simplify_chars(&chars_of(ty)) {
        Some(x) => Some(string_of(&x)),
        None => None,
    }
}

fn type_target_of(ty0: &Vec<char>) -> (r: Option<Vec<char>>)
    ensures
        opt_chars(r) == type_target(ty0@),
    decreases ty0@.len(),
{
    proof {
        lemma_trimmed_len(ty0@);
        reveal_strlit("Vec<");
        reveal_strlit("Option<");
        reveal_strlit("Box<dyn ");
        reveal_strlit("Mutex<");
    }
    let ty = trim(ty0);
    if starts_with(&ty, "Vec<") || starts_with(&ty, "Option<") {
        match inner_of(&ty, 1) {
            Some(inner) => type_target_of(&inner),
            None => None,
        }
    } else if starts_with(&ty, "Box<dyn ") {
        inner_of(&ty, 8)
    } else if starts_with(&ty, "Mutex<") {
        match inner_of(&ty, 6) {
            Some(inner) => type_target_of(&inner),
            None => None,
        }
    } else if contains(&ty, "::") {
        Some(after_last_of(&ty, "::"))
    } else {
        Some(ty)
    }
}

/// The name of the type a field's type refers to; `None` where slicing it fails.
pub fn extract_type_name(ty: &str) -> (r: Option<String>)
    ensures
        match type_target(ty@) {
            Some(x) => r is Some && r->Some_0@ == x,
            None => r is None,
        },
{
    match type_target_of(&chars_of(ty)) {
        Some(x) => Some(string_of(&x)),
        None => None,
    }
}

/// The part of `s` before its first space or `{`.
pub open spec fn before_space_or_brace(s: Seq<char>) -> Seq<char>
    decreases s.len(),
{
    if s.len() == 0 || s[0] == ' ' || s[0] == '{' {
        Seq::empty()
    } else {
        seq![s[0]] + before_space_or_brace(s.drop_first())
    }
}

/// The name a (trimmed) line declares after the keyword prefix `kw`, if it is not empty.
pub open spec fn declared_name(line: Seq<char>, kw: Seq<char>) -> Option<Seq<char>> {
    match without_prefix(line, kw) {
        None => None,
        Some(rest) => {
            let name = trimmed(before_space_or_brace(rest));
            if name.len() == 0 {
                None
            } else {
                Some(name)
            }
        },
    }
}

/// The trait and the type of an `impl Trait for Type` line.
pub open spec fn impl_for(line: Seq<char>) -> Option<(Seq<char>, Seq<char>)> {
    match without_prefix(line, "impl "@) {
        None => None,
        Some(rest) => match find_in(rest, " for "@) {
            None => None,
            Some(k) => {
                let trait_name = trimmed(rest.subrange(0, k));
                let target_name = trimmed(before_space_or_brace(trimmed(rest.subrange(k + 5, rest.len() as int))));
                if trait_name.len() == 0 || target_name.len() == 0 {
                    None
                } else {
                    Some((trait_name, target_name))
                }
            },
        },
    }
}

fn before_space_or_brace_of(s: &Vec<char>) -> (r: Vec<char>)
    ensures
        r@ == before_space_or_brace(s@),
{
    let n = s.len();
    let mut i: usize = 0;
    assert(s@.subrange(0, n as int) =~= s@);
    while i < n && s[i] != ' ' && s[i] != '{'
        invariant
            n == s@.len(),
            0 <= i <= n,
            before_space_or_brace(s@) == s@.subrange(0, i as int) + before_space_or_brace(s@.subrange(i as int, n as int)),
        decreases n - i,
    {
        let ghost rest = s@.subrange(i as int, n as int);
        assert(rest.drop_first() =~= s@.subrange(i + 1, n as int));
        assert(s@.subrange(0, i + 1) =~= s@.subrange(0, i as int) + seq![s@[i as int]]);
        i = i + 1;
    }
    let r = slice(s, 0, i);
    assert(r@ + Seq::<char>::empty() =~= r@);
    r
}

fn declared_name_of(line: &Vec<char>, kw: &str) -> (r: Option<String>)
    ensures
        match declared_name(line@, kw@) {
            Some(n) => r is Some && r->Some_0@ == n,
            None => r is None,
        },
{
    match strip_prefix(line, kw) {
        None => None,
        Some(rest) => {
            let name = trim(&before_space_or_brace_of(&rest));
            if name.len() == 0 {
                None
            } else {
                Some(string_of(&name))
            }
        },
    }
}

/// The name of the public struct a (trimmed) line declares.
pub fn parse_pub_struct(line: &str) -> (r: Option<String>)
    ensures
        match declared_name(line@, "pub struct "@) {
            Some(n) => r is Some && r->Some_0@ == n,
            None => r is None,
        },
{
    declared_name_of(&chars_of(line), "pub struct ")
}

/// The name of the public enum a (trimmed) line declares.
pub fn parse_pub_enum(line: &str) -> (r: Option<String>)
    ensures
        match declared_name(line@, "pub enum "@) {
            Some(n) => r is Some && r->Some_0@ == n,
            None => r is None,
        },
{
    declared_name_of(&chars_of(line), "pub enum ")
}

/// The name of the public trait a (trimmed) line declares.
pub fn parse_pub_trait(line: &str) -> (r: Option<String>)
    ensures
        match declared_name(line@, "pub trait "@) {
            Some(n) => r is Some && r->Some_0@ == n,
            None => r is None,
        },
{
    declared_name_of(&chars_of(line), "pub trait ")
}

fn impl_for_of(line: &Vec<char>) -> (r: Option<(String, String)>)
    ensures
        match impl_for(line@) {
            Some((t, n)) => r is Some && r->Some_0.0@ == t && r->Some_0.1@ == n,
            None => r is None,
        },
{
    proof {
        reveal_strlit(" for ");
    }
    let rest = match strip_prefix(line, "impl ") {
        None => {
            return None;
        },
        Some(r) => r,
    };
    let n = rest.len();
    let k = match find(&rest, " for ") {
        None => {
            return None;
        },
        Some(k) => k,
    };
    assert(k + 5 <= n);
    let trait_name = trim(&slice(&rest, 0, k));
    let target_name = trim(&before_space_or_brace_of(&trim(&slice(&rest, k + 5, n))));
    if trait_name.len() == 0 || target_name.len() == 0 {
        None
    } else {
        Some((string_of(&trait_name), string_of(&target_name)))
    }
}

/// The trait and the type of an `impl Trait for Type` line.
pub fn parse_impl_for(line: &str) -> (r: Option<(String, String)>)
    ensures
        match impl_for(line@) {
            Some((t, n)) => r is Some && r->Some_0.0@ == t && r->Some_0.1@ == n,
            None => r is None,
        },
{
    impl_for_of(&chars_of(line))
}

/// A field of a domain type (or a method of a trait): its name and its simplified type.
pub struct ModelField {
    pub name: String,
    pub ty: String,
}

impl ModelField {
    pub open spec fn view(&self) -> (Seq<char>, Seq<char>) {
        (self.name@, self.ty@)
    }
}

/// The field a line in a struct's body declares: `Some(None)` for a line that declares none,
/// `None` where simplifying its type panics.
pub open spec fn model_field(line0: Seq<char>) -> Option<Option<(Seq<char>, Seq<char>)>> {
    let line = strip_all_suffix_chars(trimmed(line0), ',');
    if line.len() == 0 || has_prefix(line, "#"@) || has_prefix(line, "//"@) || has_prefix(line, "fn "@) {
        Some(None)
    } else {
        let l2 = match without_prefix(line, "pub "@) {
            Some(r) => r,
            None => line,
        };
        match find_in(l2, ":"@) {
            None => Some(None),
            Some(c) => {
                let name = trimmed(l2.subrange(0, c));
                let ty = trimmed(l2.subrange(c + 1, l2.len() as int));
                if name.len() == 0 || ty.len() == 0 || find_in(name, "("@) is Some {
                    Some(None)
                } else {
                    match simplified(ty) {
                        Some(t) => Some(Some((name, t))),
                        None => None,
                    }
                }
            },
        }
    }
}

/// Whether `r` is what `model_field` says of a line: the field, no field, or an error where
/// its type cannot be simplified.
pub open spec fn field_outcome(r: Result<Option<ModelField>, String>, m: Option<Option<(Seq<char>, Seq<char>)>>) -> bool {
    match m {
        None => r is Err,
        Some(None) => r is Ok && r->Ok_0 is None,
        Some(Some(f)) => r is Ok && r->Ok_0 is Some && r->Ok_0->Some_0.view() == f,
    }
}

fn model_field_of(line0: &Vec<char>) -> (r: Result<Option<ModelField>, String>)
    ensures
        field_outcome(r, model_field(line0@)),
{
    proof {
        reveal_strlit(":");
    }
    let line = trim_end_matches(&trim(line0), ',');
    if line.len() == 0 || starts_with(&line, "#") || starts_with(&line, "//") || starts_with(&line, "fn ") {
        return Ok(None);
    }
    let l2 = match strip_prefix(&line, "pub ") {
        Some(r) => r,
        None => line,
    };
    let n = l2.len();
    let c = match find(&l2, ":") {
        None => {
            return Ok(None);
        },
        Some(c) => c,
    };
    assert(c + 1 <= n);
    let name = trim(&slice(&l2, 0, c));
    let ty = trim(&slice(&l2, c + 1, n));
    if name.len() == 0 || ty.len() == 0 || contains(&name, "(") {
        return Ok(None);
    }
    match simplify_chars(&ty) {
        Some(t) => Ok(Some(ModelField { name: string_of(&name), ty: string_of(&t) })),
        None => Err(String::from_str("type cannot be sliced: ").concat(string_of(&ty).as_str())),
    }
}

/// The field that a (trimmed) line of a struct's body declares, if any; an error for a line
/// whose type cannot be simplified.
pub fn parse_field(line: &str) -> (r: Result<Option<ModelField>, String>)
    ensures
        field_outcome(r, model_field(line@)),
{
    model_field_of(&chars_of(line))
}

/// The views of strings.
pub open spec fn strings_view(v: Seq<String>) -> Seq<Seq<char>> {
    v.map_values(|x: String| x@)
}

/// Whether a derived trait is worth showing (not one that every type derives).
pub open spec fn shown_derive(tok: Seq<char>) -> bool {
    tok.len() > 0 && tok != "Debug"@ && tok != "Clone"@ && tok != "PartialEq"@
}

/// The shown traits of a comma-separated derive list, in order.
pub open spec fn derive_tokens(s: Seq<char>) -> Seq<Seq<char>>
    decreases s.len(),
{
    let piece = before_char(s, ',');
    let tok = trimmed(piece);
    let head = if shown_derive(tok) {
        seq![tok]
    } else {
        Seq::empty()
    };
    if piece.len() < s.len() {
        head + derive_tokens(s.subrange(piece.len() as int + 1, s.len() as int))
    } else {
        head
    }
}

/// The shown traits that a `#[derive(..)]` line names.
pub open spec fn derive_traits(l: Seq<char>) -> Seq<Seq<char>> {
    if find_in(l, "#[derive("@) is None {
        Seq::empty()
    } else {
        let inner = trimmed(l);
        match find_in(inner, "derive("@) {
            None => Seq::empty(),
            Some(st) => {
                let rest = inner.subrange(st + 7, inner.len() as int);
                match find_in(rest, ")"@) {
                    None => Seq::empty(),
                    Some(e) => derive_tokens(rest.subrange(0, e)),
                }
            },
        }
    }
}

proof fn lemma_before_char_len(s: Seq<char>, c: char)
    ensures
        before_char(s, c).len() <= s.len(),
        before_char(s, c).len() < s.len() ==> s[before_char(s, c).len() as int] == c,
        before_char(s, c) == s.subrange(0, before_char(s, c).len() as int),
    decreases s.len(),
{
    if s.len() > 0 && s[0] != c {
        lemma_before_char_len(s.drop_first(), c);
        assert(before_char(s, c) =~= seq![s[0]] + before_char(s.drop_first(), c));
        assert(s.subrange(0, before_char(s, c).len() as int) =~= seq![s[0]] + s.drop_first().subrange(
            0,
            before_char(s.drop_first(), c).len() as int,
        ));
    } else {
        assert(s.subrange(0, 0) =~= Seq::<char>::empty());
    }
}

fn derive_tokens_of(s: &Vec<char>) -> (r: Vec<String>)
    ensures
        strings_view(r@) == derive_tokens(s@),
    decreases s@.len(),
{
    let piece = crate::source_text::before(s, ',');
    proof {
        lemma_before_char_len(s@, ',');
    }
    let tok = trim(&piece);
    let mut out: Vec<String> = Vec::new();
    let keep = tok.len() > 0 && !crate::text::str_eq(string_of(&tok).as_str(), "Debug") && !crate::text::str_eq(
        string_of(&tok).as_str(),
        "Clone",
    ) && !crate::text::str_eq(string_of(&tok).as_str(), "PartialEq");
    if keep {
        out.push(string_of(&tok));
    }
    let ghost head = strings_view(out@);
    assert(head =~= (if shown_derive(tok@) {
        seq![tok@]
    } else {
        Seq::<Seq<char>>::empty()
    }));
    if piece.len() < s.len() {
        let rest = slice(s, piece.len() + 1, s.len());
        let more = derive_tokens_of(&rest);
        let mut k: usize = 0;
        while k < more.len()
            invariant
                strings_view(out@) == head + strings_view(more@).subrange(0, k as int),
                0 <= k <= more@.len(),
            decreases more@.len() - k,
        {
            let ghost before = out@;
            let x = more[k].clone();
            assert(x@ == more@[k as int]@);
            out.push(x);
            assert(strings_view(out@) =~= strings_view(before).push(x@));
            assert(strings_view(more@).subrange(0, k + 1) =~= strings_view(more@).subrange(0, k as int).push(more@[k as int]@));
            assert(strings_view(out@) =~= head + strings_view(more@).subrange(0, k + 1));
            k = k + 1;
        }
        assert(strings_view(more@).subrange(0, more@.len() as int) =~= strings_view(more@));
    }
    out
}

fn derive_traits_of(l: &Vec<char>) -> (r: Vec<String>)
    ensures
        strings_view(r@) == derive_traits(l@),
{
    proof {
        reveal_strlit("derive(");
        reveal_strlit(")");
    }
    if !contains(l, "#[derive(") {
        let r: Vec<String> = Vec::new();
        assert(strings_view(r@) =~= Seq::<Seq<char>>::empty());
        return r;
    }
    let inner = trim(l);
    let n = inner.len();
    match find(&inner, "derive(") {
        None => {
            let r: Vec<String> = Vec::new();
            assert(strings_view(r@) =~= Seq::<Seq<char>>::empty());
            r
        },
        Some(st) => {
            assert(st + 7 <= n);
            let rest = slice(&inner, st + 7, n);
            match find(&rest, ")") {
                None => {
                    let r: Vec<String> = Vec::new();
                    assert(strings_view(r@) =~= Seq::<Seq<char>>::empty());
                    r
                },
                Some(e) => {
                    assert(e <= rest@.len());
                    derive_tokens_of(&slice(&rest, 0, e))
                },
            }
        },
    }
}

/// The method a line of a trait's body declares: its name (up to its closing parenthesis) and
/// its simplified return type, `()` when it has none; `Some(None)` for a line that declares
/// none, `None` where simplifying the type panics.
pub open spec fn method_sig(l: Seq<char>) -> Option<Option<(Seq<char>, Seq<char>)>> {
    let t = trimmed(l);
    match find_in(t, "fn "@) {
        None => Some(None),
        Some(m) => {
            let rest = t.subrange(m + 3, t.len() as int);
            match find_in(rest, ")"@) {
                None => Some(None),
                Some(p) => {
                    let name = trimmed(rest.subrange(0, p));
                    let after = trimmed(rest.subrange(p + 1, rest.len() as int));
                    match find_in(after, "->"@) {
                        Some(a) => match simplified(
                            strip_all_suffix_chars(trimmed(after.subrange(a + 2, after.len() as int)), ';'),
                        ) {
                            Some(ty) => Some(Some((name, ty))),
                            None => None,
                        },
                        None => Some(Some((name, "()"@))),
                    }
                },
            }
        },
    }
}

fn method_sig_of(l: &Vec<char>) -> (r: Result<Option<ModelField>, String>)
    ensures
        field_outcome(r, method_sig(l@)),
{
    proof {
        reveal_strlit("fn ");
        reveal_strlit(")");
        reveal_strlit("->");
    }
    let t = trim(l);
    let tn = t.len();
    let m = match find(&t, "fn ") {
        None => {
            return Ok(None);
        },
        Some(m) => m,
    };
    assert(m + 3 <= tn);
    let rest = slice(&t, m + 3, tn);
    let rn = rest.len();
    let p = match find(&rest, ")") {
        None => {
            return Ok(None);
        },
        Some(p) => p,
    };
    assert(p + 1 <= rn);
    let name = trim(&slice(&rest, 0, p));
    let after = trim(&slice(&rest, p + 1, rn));
    let an = after.len();
    match find(&after, "->") {
        Some(a) => {
            assert(a + 2 <= an);
            let ret = trim_end_matches(&trim(&slice(&after, a + 2, an)), ';');
            match simplify_chars(&ret) {
                Some(ty) => Ok(Some(ModelField { name: string_of(&name), ty: string_of(&ty) })),
                None => Err(String::from_str("type cannot be sliced: ").concat(string_of(&ret).as_str())),
            }
        },
        None => Ok(Some(ModelField { name: string_of(&name), ty: String::from_str("()") })),
    }
}

/// The text of an enum variant line: trimmed, without trailing commas.
pub open spec fn variant_text(l: Seq<char>) -> Seq<char> {
    strip_all_suffix_chars(trimmed(l), ',')
}

/// Whether a variant line is shown: not empty, not an attribute, not a comment.
pub open spec fn shown_variant(v: Seq<char>) -> bool {
    v.len() > 0 && !has_prefix(v, "#"@) && !has_prefix(v, "//"@)
}

/// The kind of a domain type.
#[derive(Debug, Clone, Copy, PartialEq, Eq, Structural)]
pub enum TypeKind {
    Struct,
    Enum,
    Trait,
}

/// A domain type read from the sources: its name, kind and module, its fields (or a trait's
/// methods), its variants and the traits it implements.
pub struct DomainType {
    pub name: String,
    pub kind: TypeKind,
    pub module: String,
    pub fields: Vec<ModelField>,
    pub variants: Vec<String>,
    pub implements: Vec<String>,
}

/// A domain type as plain values.
pub struct DomainTypeView {
    pub name: Seq<char>,
    pub kind: TypeKind,
    pub module: Seq<char>,
    pub fields: Seq<(Seq<char>, Seq<char>)>,
    pub variants: Seq<Seq<char>>,
    pub implements: Seq<Seq<char>>,
}

/// The views of fields.
pub open spec fn model_fields_view(v: Seq<ModelField>) -> Seq<(Seq<char>, Seq<char>)> {
    v.map_values(|f: ModelField| f.view())
}

impl DomainType {
    pub open spec fn view(&self) -> DomainTypeView {
        DomainTypeView {
            name: self.name@,
            kind: self.kind,
            module: self.module@,
            fields: model_fields_view(self.fields@),
            variants: strings_view(self.variants@),
            implements: strings_view(self.implements@),
        }
    }
}

/// The views of domain types.
pub open spec fn types_view(v: Seq<DomainType>) -> Seq<DomainTypeView> {
    v.map_values(|t: DomainType| t.view())
}

/// `s` with `t` stored under its name: replacing the type of that name, or inserted before the
/// first type whose name comes after it (what a map ordered by name does).
pub open spec fn insert_type(s: Seq<DomainTypeView>, t: DomainTypeView) -> Seq<DomainTypeView>
    decreases s.len(),
{
    if s.len() == 0 {
        seq![t]
    } else if s[0].name == t.name {
        seq![t] + s.drop_first()
    } else if precedes(t.name, s[0].name) {
        seq![t] + s
    } else {
        seq![s[0]] + insert_type(s.drop_first(), t)
    }
}

/// `s` with the trait `tr` added to what the type named `target` implements, when there is one.
pub open spec fn add_impl(s: Seq<DomainTypeView>, target: Seq<char>, tr: Seq<char>) -> Seq<DomainTypeView>
    decreases s.len(),
{
    if s.len() == 0 {
        s
    } else if s[0].name == target {
        seq![DomainTypeView { implements: s[0].implements.push(tr), ..s[0] }] + s.drop_first()
    } else {
        seq![s[0]] + add_impl(s.drop_first(), target, tr)
    }
}

/// Whether some type is named `name`.
pub open spec fn has_type(s: Seq<DomainTypeView>, name: Seq<char>) -> bool {
    exists|k: int| 0 <= k < s.len() && #[trigger] s[k].name == name
}

/// The domain types read so far, ordered by name.
pub struct TypeMap {
    types: Vec<DomainType>,
}

impl TypeMap {
    /// The stored types, in order.
    pub closed spec fn view(&self) -> Seq<DomainTypeView> {
        types_view(self.types@)
    }

    /// An empty map.
    pub fn new() -> (r: Self)
        ensures
            r.view() == Seq::<DomainTypeView>::empty(),
    {
        let r = TypeMap { types: Vec::new() };
        assert(r.view() =~= Seq::<DomainTypeView>::empty());
        r
    }

    /// The stored types, in order.
    pub fn types(&self) -> (r: &Vec<DomainType>)
        ensures
            types_view(r@) == self.view(),
    {
        &self.types
    }

    /// Stores `t` under its name.
    pub fn insert(&mut self, t: DomainType)
        ensures
            final(self).view() == insert_type(old(self).view(), t.view()),
    {
        let ghost v = self.view();
        let ghost tv = t.view();
        let n = self.types.len();
        let mut j: usize = 0;
        assert(v.subrange(0, n as int) =~= v);
        assert(v.subrange(0, 0) + insert_type(v.subrange(0, n as int), tv) =~= insert_type(v, tv));
        while j < n && !crate::text::str_eq(self.types[j].name.as_str(), t.name.as_str()) && !crate::domain_language::name_precedes(
            &t.name,
            &self.types[j].name,
        )
            invariant
                n == self.types@.len(),
                v == types_view(self.types@),
                tv == t.view(),
                0 <= j <= n,
                insert_type(v, tv) == v.subrange(0, j as int) + insert_type(v.subrange(j as int, n as int), tv),
            decreases n - j,
        {
            let ghost tail = v.subrange(j as int, n as int);
            assert(tail[0] == self.types@[j as int].view());
            assert(tail.drop_first() =~= v.subrange(j + 1, n as int));
            assert(v.subrange(0, j as int) + (seq![tail[0]] + insert_type(tail.drop_first(), tv)) =~= v.subrange(0, j + 1)
                + insert_type(v.subrange(j + 1, n as int), tv));
            j = j + 1;
        }
        if j < n && crate::text::str_eq(self.types[j].name.as_str(), t.name.as_str()) {
            let ghost tail = v.subrange(j as int, n as int);
            assert(tail[0] == self.types@[j as int].view());
            assert(tail.drop_first() =~= v.subrange(j + 1, n as int));
            self.types.set(j, t);
            assert(self.view() =~= v.subrange(0, j as int) + (seq![tv] + tail.drop_first()));
        } else {
            self.types.insert(j, t);
            assert(self.view() =~= v.subrange(0, j as int) + (seq![tv] + v.subrange(j as int, n as int)));
        }
    }

    /// Adds `tr` to what the type named `target` implements, when there is one.
    pub fn add_implements(&mut self, target: &String, tr: String)
        ensures
            final(self).view() == add_impl(old(self).view(), target@, tr@),
    {
        let ghost v = self.view();
        let n = self.types.len();
        let mut j: usize = 0;
        assert(v.subrange(0, n as int) =~= v);
        assert(v.subrange(0, 0) + add_impl(v.subrange(0, n as int), target@, tr@) =~= add_impl(v, target@, tr@));
        while j < n && !crate::text::str_eq(self.types[j].name.as_str(), target.as_str())
            invariant
                n == self.types@.len(),
                v == types_view(self.types@),
                0 <= j <= n,
                add_impl(v, target@, tr@) == v.subrange(0, j as int) + add_impl(v.subrange(j as int, n as int), target@, tr@),
            decreases n - j,
        {
            let ghost tail = v.subrange(j as int, n as int);
            assert(tail[0] == self.types@[j as int].view());
            assert(tail.drop_first() =~= v.subrange(j + 1, n as int));
            assert(v.subrange(0, j as int) + (seq![tail[0]] + add_impl(tail.drop_first(), target@, tr@)) =~= v.subrange(
                0,
                j + 1,
            ) + add_impl(v.subrange(j + 1, n as int), target@, tr@));
            j = j + 1;
        }
        if j < n {
            let ghost tail = v.subrange(j as int, n as int);
            assert(tail[0] == self.types@[j as int].view());
            assert(tail.drop_first() =~= v.subrange(j + 1, n as int));
            let mut t = self.types.remove(j);
            let ghost before = t.implements@;
            t.implements.push(tr);
            assert(strings_view(t.implements@) =~= strings_view(before).push(tr@));
            let ghost tv = t.view();
            self.types.insert(j, t);
            assert(self.view() =~= v.subrange(0, j as int) + (seq![tv] + tail.drop_first()));
        } else {
            assert(v.subrange(n as int, n as int) =~= Seq::<DomainTypeView>::empty());
            assert(v =~= v.subrange(0, n as int) + Seq::<DomainTypeView>::empty());
        }
    }

    /// Whether a type named `name` is stored.
    pub fn contains(&self, name: &String) -> (r: bool)
        ensures
            r == has_type(self.view(), name@),
    {
        let n = self.types.len();
        let mut k: usize = 0;
        while k < n
            invariant
                n == self.types@.len(),
                0 <= k <= n,
                forall|j: int| 0 <= j < k ==> self.types@[j].name@ != name@,
            decreases n - k,
        {
            if crate::text::str_eq(self.types[k].name.as_str(), name.as_str()) {
                assert(self.view()[k as int].name == name@);
                return true;
            }
            k = k + 1;
        }
        assert forall|j: int| 0 <= j < self.view().len() implies #[trigger] self.view()[j].name != name@ by {
            assert(self.view()[j] == self.types@[j].view());
        }
        false
    }
}

/// Where the reading of a source file stands: between declarations, or inside the body of a
/// struct, an enum or a trait.
pub enum ModelState {
    Scan,
    StructBody { name: Seq<char>, depth: int, fields: Seq<(Seq<char>, Seq<char>)> },
    EnumBody { name: Seq<char>, depth: int, variants: Seq<Seq<char>> },
    TraitBody { name: Seq<char>, depth: int, opened: bool, fields: Seq<(Seq<char>, Seq<char>)> },
}

/// Reading a trait's body can end without consuming a line; it ranks above scanning.
pub open spec fn state_rank(st: ModelState) -> int {
    match st {
        ModelState::TraitBody { .. } => 1,
        _ => 0,
    }
}

/// The traits derived on the line two above position `p`.
pub open spec fn derive_above(lines: Seq<Seq<char>>, p: int) -> Seq<Seq<char>> {
    if 2 <= p && p - 2 < lines.len() {
        derive_traits(lines[p - 2])
    } else {
        Seq::empty()
    }
}

/// The type that a body ending at position `p` declares.
pub open spec fn finished_type(lines: Seq<Seq<char>>, module: Seq<char>, p: int, st: ModelState) -> Option<
    DomainTypeView,
> {
    match st {
        ModelState::Scan => None,
        ModelState::StructBody { name, fields, .. } => Some(
            DomainTypeView {
                name,
                kind: TypeKind::Struct,
                module,
                fields,
                variants: Seq::empty(),
                implements: derive_above(lines, p),
            },
        ),
        ModelState::EnumBody { name, variants, .. } => Some(
            DomainTypeView {
                name,
                kind: TypeKind::Enum,
                module,
                fields: Seq::empty(),
                variants,
                implements: derive_above(lines, p),
            },
        ),
        ModelState::TraitBody { name, fields, .. } => Some(
            DomainTypeView {
                name,
                kind: TypeKind::Trait,
                module,
                fields,
                variants: Seq::empty(),
                implements: Seq::empty(),
            },
        ),
    }
}

/// `types` with the type of a body ending at `p` stored, if there is one.
pub open spec fn store_finished(types: Seq<DomainTypeView>, lines: Seq<Seq<char>>, module: Seq<char>, p: int, st: ModelState) -> Seq<
    DomainTypeView,
> {
    match finished_type(lines, module, p, st) {
        Some(t) => insert_type(types, t),
        None => types,
    }
}

/// The element of an optional value as a sequence of zero or one elements.
pub open spec fn opt_seq<A>(o: Option<A>) -> Seq<A> {
    match o {
        Some(x) => seq![x],
        None => Seq::empty(),
    }
}

/// The types after reading lines `i..` of a file of module `module` in state `st`, from
/// `types`; `None` where a field's type cannot be simplified.
pub open spec fn model_run(lines: Seq<Seq<char>>, module: Seq<char>, i: int, st: ModelState, types: Seq<DomainTypeView>) -> Option<
    Seq<DomainTypeView>,
>
    decreases lines.len() - i, state_rank(st),
{
    if i >= lines.len() || i < 0 {
        Some(store_finished(types, lines, module, lines.len() as int, st))
    } else {
        let l = lines[i];
        let t = trimmed(l);
        match st {
            ModelState::Scan => match declared_name(t, "pub struct "@) {
                Some(n) => model_run(
                    lines,
                    module,
                    i + 1,
                    ModelState::StructBody { name: n, depth: 1, fields: Seq::empty() },
                    types,
                ),
                None => match declared_name(t, "pub enum "@) {
                    Some(n) => model_run(
                        lines,
                        module,
                        i + 1,
                        ModelState::EnumBody { name: n, depth: 1, variants: Seq::empty() },
                        types,
                    ),
                    None => match declared_name(t, "pub trait "@) {
                        Some(n) => model_run(
                            lines,
                            module,
                            i + 1,
                            ModelState::TraitBody { name: n, depth: 0, opened: false, fields: Seq::empty() },
                            types,
                        ),
                        None => match impl_for(t) {
                            Some((tr, target)) => model_run(lines, module, i + 1, ModelState::Scan, add_impl(types, target, tr)),
                            None => model_run(lines, module, i + 1, ModelState::Scan, types),
                        },
                    },
                },
            },
            ModelState::StructBody { name, depth, fields } => {
                let d = depth + count_of(l, '{') - count_of(l, '}');
                if d > 0 {
                    match model_field(t) {
                        None => None,
                        Some(f) => model_run(
                            lines,
                            module,
                            i + 1,
                            ModelState::StructBody { name, depth: d, fields: fields + opt_seq(f) },
                            types,
                        ),
                    }
                } else {
                    model_run(lines, module, i + 1, ModelState::Scan, store_finished(types, lines, module, i + 1, st))
                }
            },
            ModelState::EnumBody { name, depth, variants } => {
                let d = depth + count_of(l, '{') - count_of(l, '}');
                if d > 0 {
                    let v = variant_text(l);
                    let vs = if shown_variant(v) {
                        variants.push(v)
                    } else {
                        variants
                    };
                    model_run(lines, module, i + 1, ModelState::EnumBody { name, depth: d, variants: vs }, types)
                } else {
                    model_run(lines, module, i + 1, ModelState::Scan, store_finished(types, lines, module, i + 1, st))
                }
            },
            ModelState::TraitBody { name, depth, opened, fields } => {
                let d = depth + count_of(l, '{') - count_of(l, '}');
                let o = opened || count_of(l, '{') > 0;
                if o && d > 0 {
                    match method_sig(l) {
                        None => None,
                        Some(m) => model_run(
                            lines,
                            module,
                            i + 1,
                            ModelState::TraitBody { name, depth: d, opened: o, fields: fields + opt_seq(m) },
                            types,
                        ),
                    }
                } else if o {
                    model_run(lines, module, i, ModelState::Scan, store_finished(types, lines, module, i, st))
                } else {
                    model_run(lines, module, i + 1, ModelState::TraitBody { name, depth: d, opened: o, fields }, types)
                }
            },
        }
    }
}

/// The state that the variables of the reading loop stand for.
pub open spec fn model_state(
    tag: u8,
    name: Seq<char>,
    depth: int,
    opened: bool,
    fields: Seq<(Seq<char>, Seq<char>)>,
    variants: Seq<Seq<char>>,
) -> ModelState {
    if tag == 1 {
        ModelState::StructBody { name, depth, fields }
    } else if tag == 2 {
        ModelState::EnumBody { name, depth, variants }
    } else if tag == 3 {
        ModelState::TraitBody { name, depth, opened, fields }
    } else {
        ModelState::Scan
    }
}

/// The views of source lines.
pub open spec fn lines_view(lines: Seq<String>) -> Seq<Seq<char>> {
    lines.map_values(|l: String| l@)
}

fn derive_above_of(lines: &Vec<String>, p: usize) -> (r: Vec<String>)
    ensures
        strings_view(r@) == derive_above(lines_view(lines@), p as int),
{
    if p >= 2 && p - 2 < lines.len() {
        let l = chars_of(lines[p - 2].as_str());
        derive_traits_of(&l)
    } else {
        let r: Vec<String> = Vec::new();
        assert(strings_view(r@) =~= Seq::<Seq<char>>::empty());
        r
    }
}

fn no_strings() -> (r: Vec<String>)
    ensures
        strings_view(r@) == Seq::<Seq<char>>::empty(),
{
    let r: Vec<String> = Vec::new();
    assert(strings_view(r@) =~= Seq::<Seq<char>>::empty());
    r
}

fn no_fields() -> (r: Vec<ModelField>)
    ensures
        model_fields_view(r@) == Seq::<(Seq<char>, Seq<char>)>::empty(),
{
    let r: Vec<ModelField> = Vec::new();
    assert(model_fields_view(r@) =~= Seq::<(Seq<char>, Seq<char>)>::empty());
    r
}

/// Reads the domain types that a source file of module `module` declares into `types`: each
/// public struct with its fields (and the derives found two lines above its last line),
/// each public enum with its variants, each public trait with its methods, and each
/// `impl Trait for Type` of a type already read. An error where a field's type cannot be
/// simplified.
pub fn parse_file(lines: &Vec<String>, module: &str, types: &mut TypeMap) -> (r: Result<(), String>)
    requires
        crate::source_text::total_len(lines_view(lines@)) < 0x7fff_ffff,
    ensures
        match model_run(lines_view(lines@), module@, 0, ModelState::Scan, old(types).view()) {
            Some(v) => r is Ok && final(types).view() == v,
            None => r is Err,
        },
{
    let ghost ls = lines_view(lines@);
    let ghost goal = model_run(ls, module@, 0, ModelState::Scan, types.view());
    let n = lines.len();
    let mut i: usize = 0;
    let mut tag: u8 = 0;
    let mut name = String::new();
    let mut depth: i64 = 0;
    let mut opened = false;
    let mut fields: Vec<ModelField> = Vec::new();
    let mut variants: Vec<String> = Vec::new();
    loop
        invariant
            n == lines@.len(),
            ls == lines_view(lines@),
            crate::source_text::total_len(ls) < 0x7fff_ffff,
            0 <= i <= n,
            tag <= 3,
            -crate::source_text::total_len(ls.subrange(0, i as int)) - 1 <= depth <= crate::source_text::total_len(
                ls.subrange(0, i as int),
            ) + 1,
            goal == model_run(ls, module@, 0, ModelState::Scan, old(types).view()),
            goal == model_run(
                ls,
                module@,
                i as int,
                model_state(tag, name@, depth as int, opened, model_fields_view(fields@), strings_view(variants@)),
                types.view(),
            ),
        ensures
            i == n,
            tag <= 3,
            ls == lines_view(lines@),
            goal == model_run(ls, module@, 0, ModelState::Scan, old(types).view()),
            goal == model_run(
                ls,
                module@,
                i as int,
                model_state(tag, name@, depth as int, opened, model_fields_view(fields@), strings_view(variants@)),
                types.view(),
            ),
        decreases 2 * (n - i) + (if tag == 3 { 1int } else { 0int }),
    {
        let ghost st = model_state(tag, name@, depth as int, opened, model_fields_view(fields@), strings_view(variants@));
        if i == n {
            break;
        }
        let l = chars_of(lines[i].as_str());
        proof {
            assert(ls[i as int] == lines@[i as int]@);
            crate::source_text::lemma_total_len_step(ls, i as int);
        }
        let t = trim(&l);
        let opens = crate::source_text::count_char(&l, '{');
        let closes = crate::source_text::count_char(&l, '}');
        let change: i64 = opens as i64 - closes as i64;
        if tag == 0 {
            if let Some(nm) = declared_name_of(&t, "pub struct ") {
                tag = 1;
                name = nm;
                depth = 1;
                fields = Vec::new();
                assert(model_fields_view(fields@) =~= Seq::<(Seq<char>, Seq<char>)>::empty());
            } else if let Some(nm) = declared_name_of(&t, "pub enum ") {
                tag = 2;
                name = nm;
                depth = 1;
                variants = Vec::new();
                assert(strings_view(variants@) =~= Seq::<Seq<char>>::empty());
            } else if let Some(nm) = declared_name_of(&t, "pub trait ") {
                tag = 3;
                name = nm;
                depth = 0;
                opened = false;
                fields = Vec::new();
                assert(model_fields_view(fields@) =~= Seq::<(Seq<char>, Seq<char>)>::empty());
            } else if let Some((tr, target)) = impl_for_of(&t) {
                types.add_implements(&target, tr);
            }
            i = i + 1;
        } else if tag == 1 || tag == 2 {
            let d = depth + change;
            if d > 0 {
                if tag == 1 {
                    match model_field_of(&t) {
                        Err(e) => {
                            return Err(e);
                        },
                        Ok(f) => {
                            let ghost before = model_fields_view(fields@);
                            match f {
                                Some(x) => {
                                    fields.push(x);
                                    assert(model_fields_view(fields@) =~= before + seq![x.view()]);
                                },
                                None => {
                                    assert(before =~= before + Seq::<(Seq<char>, Seq<char>)>::empty());
                                },
                            }
                        },
                    }
                } else {
                    let v = trim_end_matches(&t, ',');
                    if v.len() > 0 && !starts_with(&v, "#") && !starts_with(&v, "//") {
                        let ghost before = strings_view(variants@);
                        variants.push(string_of(&v));
                        assert(strings_view(variants@) =~= before.push(v@));
                    }
                }
                depth = d;
                i = i + 1;
            } else {
                let implements = derive_above_of(lines, i + 1);
                let nm = name;
                name = String::new();
                let fs = fields;
                fields = Vec::new();
                let vs = variants;
                variants = Vec::new();
                let t = if tag == 1 {
                    DomainType {
                        name: nm,
                        kind: TypeKind::Struct,
                        module: String::from_str(module),
                        fields: fs,
                        variants: no_strings(),
                        implements,
                    }
                } else {
                    DomainType {
                        name: nm,
                        kind: TypeKind::Enum,
                        module: String::from_str(module),
                        fields: no_fields(),
                        variants: vs,
                        implements,
                    }
                };
                assert(finished_type(ls, module@, i + 1, st) == Some(t.view()));
                types.insert(t);
                tag = 0;
                i = i + 1;
            }
        } else {
            let d = depth + change;
            let o = opened || opens > 0;
            if o && d > 0 {
                match method_sig_of(&l) {
                    Err(e) => {
                        return Err(e);
                    },
                    Ok(f) => {
                        let ghost before = model_fields_view(fields@);
                        match f {
                            Some(x) => {
                                fields.push(x);
                                assert(model_fields_view(fields@) =~= before + seq![x.view()]);
                            },
                            None => {
                                assert(before =~= before + Seq::<(Seq<char>, Seq<char>)>::empty());
                            },
                        }
                    },
                }
                depth = d;
                opened = o;
                i = i + 1;
            } else if o {
                let nm = name;
                name = String::new();
                let fs = fields;
                fields = Vec::new();
                let t = DomainType {
                    name: nm,
                    kind: TypeKind::Trait,
                    module: String::from_str(module),
                    fields: fs,
                    variants: no_strings(),
                    implements: no_strings(),
                };
                assert(finished_type(ls, module@, i as int, st) == Some(t.view()));
                types.insert(t);
                tag = 0;
            } else {
                depth = d;
                opened = o;
                i = i + 1;
            }
        }
    }
    let ghost st = model_state(tag, name@, depth as int, opened, model_fields_view(fields@), strings_view(variants@));
    if tag == 1 || tag == 2 {
        let implements = derive_above_of(lines, n);
        let t = if tag == 1 {
            DomainType {
                name,
                kind: TypeKind::Struct,
                module: String::from_str(module),
                fields,
                variants: no_strings(),
                implements,
            }
        } else {
            DomainType {
                name,
                kind: TypeKind::Enum,
                module: String::from_str(module),
                fields: no_fields(),
                variants,
                implements,
            }
        };
        assert(finished_type(ls, module@, n as int, st) == Some(t.view()));
        types.insert(t);
    } else if tag == 3 {
        let t = DomainType {
            name,
            kind: TypeKind::Trait,
            module: String::from_str(module),
            fields,
            variants: no_strings(),
            implements: no_strings(),
        };
        assert(finished_type(ls, module@, n as int, st) == Some(t.view()));
        types.insert(t);
    }
    Ok(())
}

/// Whether the pair `a` comes before the pair `b`: by their first parts, then their second.
pub open spec fn pair_precedes(a: (Seq<char>, Seq<char>), b: (Seq<char>, Seq<char>)) -> bool {
    precedes(a.0, b.0) || (a.0 == b.0 && precedes(a.1, b.1))
}

/// `s` with `p` added as an ordered set does: nothing when it holds `p`, else `p` before the
/// first pair that comes after it.
pub open spec fn insert_pair(s: Seq<(Seq<char>, Seq<char>)>, p: (Seq<char>, Seq<char>)) -> Seq<(Seq<char>, Seq<char>)>
    decreases s.len(),
{
    if s.len() == 0 {
        seq![p]
    } else if s[0] == p {
        s
    } else if pair_precedes(p, s[0]) {
        seq![p] + s
    } else {
        seq![s[0]] + insert_pair(s.drop_first(), p)
    }
}

/// The relationships after one more field: to the type its type refers to, and to the trait
/// of a `Box<dyn ..>`, when those are known types. `None` where an inner type cannot be sliced out.
pub open spec fn field_rel_step(all: Seq<DomainTypeView>, acc: Option<Seq<(Seq<char>, Seq<char>)>>, f: (Seq<char>, Seq<char>)) -> Option<
    Seq<(Seq<char>, Seq<char>)>,
> {
    match acc {
        None => None,
        Some(a) => match type_target(f.1) {
            None => None,
            Some(target) => {
                let a1 = if has_type(all, target) {
                    insert_pair(a, (target, f.0))
                } else {
                    a
                };
                if has_prefix(f.1, "Box<dyn "@) {
                    match inner_part(f.1, 8) {
                        None => None,
                        Some(tn) => Some(
                            if has_type(all, tn) {
                                insert_pair(a1, (tn, f.0))
                            } else {
                                a1
                            },
                        ),
                    }
                } else {
                    Some(a1)
                }
            },
        },
    }
}

/// The relationships of a struct's fields, in order.
pub open spec fn field_rels(all: Seq<DomainTypeView>, fs: Seq<(Seq<char>, Seq<char>)>) -> Option<Seq<(Seq<char>, Seq<char>)>>
    decreases fs.len(),
{
    if fs.len() == 0 {
        Some(Seq::empty())
    } else {
        field_rel_step(all, field_rels(all, fs.drop_last()), fs.last())
    }
}

/// The relationships after the implemented traits that are known types.
pub open spec fn impl_rels(all: Seq<DomainTypeView>, impls: Seq<Seq<char>>, acc: Seq<(Seq<char>, Seq<char>)>) -> Seq<(Seq<char>, Seq<char>)>
    decreases impls.len(),
{
    if impls.len() == 0 {
        acc
    } else {
        let a = impl_rels(all, impls.drop_last(), acc);
        if has_type(all, impls.last()) {
            insert_pair(a, (impls.last(), "implements"@))
        } else {
            a
        }
    }
}

/// The relationships of a type: for a struct, its fields' and its traits' (as an ordered set of
/// target and field name); none for an enum or a trait.
pub open spec fn type_rels(all: Seq<DomainTypeView>, t: DomainTypeView) -> Option<Seq<(Seq<char>, Seq<char>)>> {
    if t.kind != TypeKind::Struct {
        Some(Seq::empty())
    } else {
        match field_rels(all, t.fields) {
            None => None,
            Some(a) => Some(impl_rels(all, t.implements, a)),
        }
    }
}

proof fn lemma_field_rels_stuck(all: Seq<DomainTypeView>, fs: Seq<(Seq<char>, Seq<char>)>, k: int)
    requires
        0 <= k <= fs.len(),
        field_rels(all, fs.subrange(0, k)) is None,
    ensures
        field_rels(all, fs) is None,
    decreases fs.len() - k,
{
    if k == fs.len() {
        assert(fs.subrange(0, k) =~= fs);
    } else {
        assert(fs.subrange(0, k + 1).drop_last() =~= fs.subrange(0, k));
        lemma_field_rels_stuck(all, fs, k + 1);
    }
}

proof fn lemma_all_rels_stuck(all: Seq<DomainTypeView>, ts: Seq<DomainTypeView>, k: int)
    requires
        0 <= k <= ts.len(),
        all_rels(all, ts.subrange(0, k)) is None,
    ensures
        all_rels(all, ts) is None,
    decreases ts.len() - k,
{
    if k == ts.len() {
        assert(ts.subrange(0, k) =~= ts);
    } else {
        assert(ts.subrange(0, k + 1).drop_last() =~= ts.subrange(0, k));
        lemma_all_rels_stuck(all, ts, k + 1);
    }
}

fn has_type_exec(all: &Vec<DomainType>, name: &String) -> (r: bool)
    ensures
        r == has_type(types_view(all@), name@),
{
    let n = all.len();
    let mut k: usize = 0;
    while k < n
        invariant
            n == all@.len(),
            0 <= k <= n,
            forall|j: int| 0 <= j < k ==> all@[j].name@ != name@,
        decreases n - k,
    {
        if crate::text::str_eq(all[k].name.as_str(), name.as_str()) {
            assert(types_view(all@)[k as int].name == name@);
            return true;
        }
        k = k + 1;
    }
    assert forall|j: int| 0 <= j < types_view(all@).len() implies #[trigger] types_view(all@)[j].name != name@ by {
        assert(types_view(all@)[j] == all@[j].view());
    }
    false
}

/// The views of pairs of strings.
pub open spec fn pairs_view(v: Seq<(String, String)>) -> Seq<(Seq<char>, Seq<char>)> {
    v.map_values(|p: (String, String)| (p.0@, p.1@))
}

fn insert_pair_exec(set: &mut Vec<(String, String)>, a: String, b: String)
    ensures
        pairs_view(final(set)@) == insert_pair(pairs_view(old(set)@), (a@, b@)),
{
    let ghost v = pairs_view(set@);
    let ghost p = (a@, b@);
    let n = set.len();
    let mut j: usize = 0;
    assert(v.subrange(0, n as int) =~= v);
    assert(v.subrange(0, 0) + insert_pair(v.subrange(0, n as int), p) =~= insert_pair(v, p));
    while j < n && !(crate::text::str_eq(set[j].0.as_str(), a.as_str()) && crate::text::str_eq(set[j].1.as_str(), b.as_str()))
        && !(crate::domain_language::name_precedes(&a, &set[j].0) || (crate::text::str_eq(set[j].0.as_str(), a.as_str())
        && crate::domain_language::name_precedes(&b, &set[j].1)))
        invariant
            n == set@.len(),
            v == pairs_view(set@),
            p == (a@, b@),
            0 <= j <= n,
            insert_pair(v, p) == v.subrange(0, j as int) + insert_pair(v.subrange(j as int, n as int), p),
        decreases n - j,
    {
        let ghost tail = v.subrange(j as int, n as int);
        assert(tail[0] == (set@[j as int].0@, set@[j as int].1@));
        assert(tail.drop_first() =~= v.subrange(j + 1, n as int));
        assert(v.subrange(0, j as int) + (seq![tail[0]] + insert_pair(tail.drop_first(), p)) =~= v.subrange(0, j + 1)
            + insert_pair(v.subrange(j + 1, n as int), p));
        j = j + 1;
    }
    if j < n && crate::text::str_eq(set[j].0.as_str(), a.as_str()) && crate::text::str_eq(set[j].1.as_str(), b.as_str()) {
        let ghost tail = v.subrange(j as int, n as int);
        assert(tail[0] == p);
        assert(v.subrange(0, j as int) + tail =~= v);
    } else {
        set.insert(j, (a, b));
        assert(pairs_view(set@) =~= v.subrange(0, j as int) + (seq![p] + v.subrange(j as int, n as int)));
    }
}

fn type_rels_exec(all: &Vec<DomainType>, t: &DomainType) -> (r: Result<Vec<(String, String)>, String>)
    ensures
        match type_rels(types_view(all@), t.view()) {
            Some(x) => r is Ok && pairs_view(r->Ok_0@) == x,
            None => r is Err,
        },
{
    proof {
        reveal_strlit("Box<dyn ");
    }
    let ghost av = types_view(all@);
    let mut set: Vec<(String, String)> = Vec::new();
    assert(pairs_view(set@) =~= Seq::<(Seq<char>, Seq<char>)>::empty());
    if t.kind != TypeKind::Struct {
        return Ok(set);
    }
    let n = t.fields.len();
    let mut i: usize = 0;
    assert(model_fields_view(t.fields@).subrange(0, 0) =~= Seq::<(Seq<char>, Seq<char>)>::empty());
    while i < n
        invariant
            n == t.fields@.len(),
            av == types_view(all@),
            0 <= i <= n,
            field_rels(av, model_fields_view(t.fields@).subrange(0, i as int)) == Some(pairs_view(set@)),
            t.kind == TypeKind::Struct,
        decreases n - i,
    {
        let f = &t.fields[i];
        proof {
            let fs = model_fields_view(t.fields@).subrange(0, i + 1);
            assert(fs.drop_last() =~= model_fields_view(t.fields@).subrange(0, i as int));
            assert(fs.last() == f.view());
        }
        let ty = chars_of(f.ty.as_str());
        let target = match type_target_of(&ty) {
            None => {
                proof {
                    let fs = model_fields_view(t.fields@).subrange(0, i + 1);
                    assert(type_target(fs.last().1) is None);
                    assert(field_rels(av, fs) == field_rel_step(av, field_rels(av, fs.drop_last()), fs.last()));
                    assert(field_rels(av, fs) is None);
                    lemma_field_rels_stuck(av, model_fields_view(t.fields@), i + 1);
                    assert(t.view().kind == TypeKind::Struct);
                }
                return Err(String::from_str("type cannot be sliced: ").concat(f.ty.as_str()));
            },
            Some(x) => string_of(&x),
        };
        if has_type_exec(all, &target) {
            insert_pair_exec(&mut set, target, f.name.clone());
        }
        if starts_with(&ty, "Box<dyn ") {
            match inner_of(&ty, 8) {
                None => {
                    proof {
                        let fs = model_fields_view(t.fields@).subrange(0, i + 1);
                        assert(inner_part(fs.last().1, 8) is None);
                        assert(field_rels(av, fs) == field_rel_step(av, field_rels(av, fs.drop_last()), fs.last()));
                        assert(field_rels(av, fs) is None);
                        lemma_field_rels_stuck(av, model_fields_view(t.fields@), i + 1);
                    }
                    return Err(String::from_str("type cannot be sliced: ").concat(f.ty.as_str()));
                },
                Some(tn) => {
                    let tn = string_of(&tn);
                    if has_type_exec(all, &tn) {
                        insert_pair_exec(&mut set, tn, f.name.clone());
                    }
                },
            }
        }
        i = i + 1;
    }
    assert(model_fields_view(t.fields@).subrange(0, n as int) =~= model_fields_view(t.fields@));
    let ghost after_fields = pairs_view(set@);
    let m = t.implements.len();
    let mut k: usize = 0;
    assert(strings_view(t.implements@).subrange(0, 0) =~= Seq::<Seq<char>>::empty());
    while k < m
        invariant
            m == t.implements@.len(),
            av == types_view(all@),
            0 <= k <= m,
            impl_rels(av, strings_view(t.implements@).subrange(0, k as int), after_fields) == pairs_view(set@),
        decreases m - k,
    {
        proof {
            let is = strings_view(t.implements@).subrange(0, k + 1);
            assert(is.drop_last() =~= strings_view(t.implements@).subrange(0, k as int));
            assert(is.last() == t.implements@[k as int]@);
        }
        let tr = t.implements[k].clone();
        if has_type_exec(all, &tr) {
            insert_pair_exec(&mut set, tr, String::from_str("implements"));
        }
        k = k + 1;
    }
    assert(strings_view(t.implements@).subrange(0, m as int) =~= strings_view(t.implements@));
    Ok(set)
}

/// The relationships of all types, in the map's order: each struct with at least one, and its
/// ordered set of target and field name. `None` where an inner type cannot be sliced out.
pub open spec fn all_rels(all: Seq<DomainTypeView>, ts: Seq<DomainTypeView>) -> Option<Seq<(Seq<char>, Seq<(Seq<char>, Seq<char>)>)>>
    decreases ts.len(),
{
    if ts.len() == 0 {
        Some(Seq::empty())
    } else {
        match all_rels(all, ts.drop_last()) {
            None => None,
            Some(acc) => match type_rels(all, ts.last()) {
                None => None,
                Some(set) => Some(
                    if set.len() > 0 {
                        acc.push((ts.last().name, set))
                    } else {
                        acc
                    },
                ),
            },
        }
    }
}

/// The relationships of a struct: its name and its ordered set of target and field name.
pub struct Relationships {
    pub owner: String,
    pub targets: Vec<(String, String)>,
}

/// The views of relationships.
pub open spec fn rels_view(v: Seq<Relationships>) -> Seq<(Seq<char>, Seq<(Seq<char>, Seq<char>)>)> {
    v.map_values(|r: Relationships| (r.owner@, pairs_view(r.targets@)))
}

/// The relationships between the types: for each struct, the known types its fields refer to
/// (and the traits of its `Box<dyn ..>` fields) with the field's name, and the known traits it
/// implements. An error where a field's inner type cannot be sliced out.
pub fn extract_relationships(types: &TypeMap) -> (r: Result<Vec<Relationships>, String>)
    ensures
        match all_rels(types.view(), types.view()) {
            Some(x) => r is Ok && rels_view(r->Ok_0@) == x,
            None => r is Err,
        },
{
    let all = types.types();
    let ghost av = types_view(all@);
    let n = all.len();
    let mut out: Vec<Relationships> = Vec::new();
    let mut i: usize = 0;
    assert(av.subrange(0, 0) =~= Seq::<DomainTypeView>::empty());
    assert(rels_view(out@) =~= Seq::<(Seq<char>, Seq<(Seq<char>, Seq<char>)>)>::empty());
    while i < n
        invariant
            n == all@.len(),
            av == types_view(all@),
            av == types.view(),
            0 <= i <= n,
            all_rels(av, av.subrange(0, i as int)) == Some(rels_view(out@)),
        decreases n - i,
    {
        proof {
            let ts = av.subrange(0, i + 1);
            assert(ts.drop_last() =~= av.subrange(0, i as int));
            assert(ts.last() == all@[i as int].view());
        }
        match type_rels_exec(all, &all[i]) {
            Err(e) => {
                proof {
                    lemma_all_rels_stuck(av, av, i + 1);
                }
                return Err(e);
            },
            Ok(set) => {
                if set.len() > 0 {
                    let ghost before = rels_view(out@);
                    let rel = Relationships { owner: all[i].name.clone(), targets: set };
                    let ghost rv = (rel.owner@, pairs_view(rel.targets@));
                    out.push(rel);
                    assert(rels_view(out@) =~= before.push(rv));
                }
            },
        }
        i = i + 1;
    }
    assert(av.subrange(0, n as int) =~= av);
    Ok(out)
}

/// The member lines of a struct's class: each field's type, then its name.
pub open spec fn struct_members(fs: Seq<(Seq<char>, Seq<char>)>) -> Seq<char>
    decreases fs.len(),
{
    if fs.len() == 0 {
        Seq::empty()
    } else {
        struct_members(fs.drop_last()) + "    "@ + fs.last().1 + " : "@ + fs.last().0 + "\n"@
    }
}

/// The member lines of an enum's class: each variant as a stereotype.
pub open spec fn variant_members(vs: Seq<Seq<char>>) -> Seq<char>
    decreases vs.len(),
{
    if vs.len() == 0 {
        Seq::empty()
    } else {
        variant_members(vs.drop_last()) + "    <<"@ + vs.last() + ">>\n"@
    }
}

/// The member lines of a trait's class: each method's name, then its return type.
pub open spec fn trait_members(fs: Seq<(Seq<char>, Seq<char>)>) -> Seq<char>
    decreases fs.len(),
{
    if fs.len() == 0 {
        Seq::empty()
    } else {
        trait_members(fs.drop_last()) + "    "@ + fs.last().0 + " "@ + fs.last().1 + "\n"@
    }
}

/// The class of a type in the diagram.
pub open spec fn model_class(t: DomainTypeView) -> Seq<char> {
    "  class "@ + t.name + " {\n"@ + match t.kind {
        TypeKind::Struct => struct_members(t.fields),
        TypeKind::Enum => variant_members(t.variants),
        TypeKind::Trait => "    <<trait>>\n"@ + trait_members(t.fields),
    } + "  }\n\n"@
}

/// The classes of types, in order.
pub open spec fn model_classes(ts: Seq<DomainTypeView>) -> Seq<char>
    decreases ts.len(),
{
    if ts.len() == 0 {
        Seq::empty()
    } else {
        model_classes(ts.drop_last()) + model_class(ts.last())
    }
}

/// The arrow of a field's relationship: realization for a `Box<dyn ..>`, dependency for an
/// `Option<..>`, association otherwise.
pub open spec fn arrow_of(ty: Seq<char>) -> Seq<char> {
    if has_prefix(ty, "Box<dyn"@) {
        "..|>"@
    } else if has_prefix(ty, "Option<"@) {
        "..>"@
    } else {
        "-->"@
    }
}

/// The arrow lines of a struct's fields whose types refer to known types; `None` where an
/// inner type cannot be sliced out.
pub open spec fn field_arrows(all: Seq<DomainTypeView>, owner: Seq<char>, fs: Seq<(Seq<char>, Seq<char>)>) -> Option<Seq<char>>
    decreases fs.len(),
{
    if fs.len() == 0 {
        Some(Seq::empty())
    } else {
        match field_arrows(all, owner, fs.drop_last()) {
            None => None,
            Some(a) => match type_target(fs.last().1) {
                None => None,
                Some(target) => Some(
                    a + if has_type(all, target) {
                        "  "@ + owner + " "@ + arrow_of(fs.last().1) + " \""@ + fs.last().0 + "\" : "@ + target + "\n"@
                    } else {
                        Seq::empty()
                    },
                ),
            },
        }
    }
}

/// The arrow lines of a struct's implemented traits that are known types.
pub open spec fn impl_arrows(all: Seq<DomainTypeView>, owner: Seq<char>, impls: Seq<Seq<char>>) -> Seq<char>
    decreases impls.len(),
{
    if impls.len() == 0 {
        Seq::empty()
    } else {
        impl_arrows(all, owner, impls.drop_last()) + if has_type(all, impls.last()) {
            "  "@ + owner + " ..|> "@ + impls.last() + "\n"@
        } else {
            Seq::empty()
        }
    }
}

/// The arrow lines of a type: a struct's fields' and traits'; none for an enum or a trait.
pub open spec fn type_arrows(all: Seq<DomainTypeView>, t: DomainTypeView) -> Option<Seq<char>> {
    if t.kind != TypeKind::Struct {
        Some(Seq::empty())
    } else {
        match field_arrows(all, t.name, t.fields) {
            None => None,
            Some(a) => Some(a + impl_arrows(all, t.name, t.implements)),
        }
    }
}

/// The arrow lines of types, in order.
pub open spec fn all_arrows(all: Seq<DomainTypeView>, ts: Seq<DomainTypeView>) -> Option<Seq<char>>
    decreases ts.len(),
{
    if ts.len() == 0 {
        Some(Seq::empty())
    } else {
        match all_arrows(all, ts.drop_last()) {
            None => None,
            Some(a) => match type_arrows(all, ts.last()) {
                None => None,
                Some(b) => Some(a + b),
            },
        }
    }
}

/// The head of the domain model's class diagram.
pub open spec fn model_mermaid_head() -> Seq<char> {
    "%% Domain Model \u{2014} local-agent\nclassDiagram\n\n"@
}

/// The class diagram of the domain model: a class per type, then the arrows between them.
pub open spec fn model_mermaid(all: Seq<DomainTypeView>) -> Option<Seq<char>> {
    match all_arrows(all, all) {
        None => None,
        Some(a) => Some(model_mermaid_head() + model_classes(all) + a),
    }
}

fn model_class_of(t: &DomainType) -> (r: String)
    ensures
        r@ == model_class(t.view()),
{
    let mut out = String::from_str("  class ").concat(t.name.as_str()).concat(" {\n");
    let ghost head = out@;
    match t.kind {
        TypeKind::Struct => {
            let n = t.fields.len();
            let mut i: usize = 0;
            assert(model_fields_view(t.fields@).subrange(0, 0) =~= Seq::<(Seq<char>, Seq<char>)>::empty());
            assert(out@ =~= head + struct_members(Seq::<(Seq<char>, Seq<char>)>::empty()));
            while i < n
                invariant
                    n == t.fields@.len(),
                    0 <= i <= n,
                    out@ == head + struct_members(model_fields_view(t.fields@).subrange(0, i as int)),
                decreases n - i,
            {
                let f = &t.fields[i];
                let ghost before = out@;
                out = out.concat("    ").concat(f.ty.as_str()).concat(" : ").concat(f.name.as_str()).concat("\n");
                proof {
                    let fs = model_fields_view(t.fields@).subrange(0, i + 1);
                    assert(fs.drop_last() =~= model_fields_view(t.fields@).subrange(0, i as int));
                    assert(fs.last() == f.view());
                    assert(out@ =~= before + ("    "@ + f.ty@ + " : "@ + f.name@ + "\n"@));
                }
                i = i + 1;
            }
            assert(model_fields_view(t.fields@).subrange(0, n as int) =~= model_fields_view(t.fields@));
        },
        TypeKind::Enum => {
            let n = t.variants.len();
            let mut i: usize = 0;
            assert(strings_view(t.variants@).subrange(0, 0) =~= Seq::<Seq<char>>::empty());
            assert(out@ =~= head + variant_members(Seq::<Seq<char>>::empty()));
            while i < n
                invariant
                    n == t.variants@.len(),
                    0 <= i <= n,
                    out@ == head + variant_members(strings_view(t.variants@).subrange(0, i as int)),
                decreases n - i,
            {
                let ghost before = out@;
                out = out.concat("    <<").concat(t.variants[i].as_str()).concat(">>\n");
                proof {
                    let vs = strings_view(t.variants@).subrange(0, i + 1);
                    assert(vs.drop_last() =~= strings_view(t.variants@).subrange(0, i as int));
                    assert(vs.last() == t.variants@[i as int]@);
                    assert(out@ =~= before + ("    <<"@ + t.variants@[i as int]@ + ">>\n"@));
                }
                i = i + 1;
            }
            assert(strings_view(t.variants@).subrange(0, n as int) =~= strings_view(t.variants@));
        },
        TypeKind::Trait => {
            out = out.concat("    <<trait>>\n");
            let ghost head2 = out@;
            let n = t.fields.len();
            let mut i: usize = 0;
            assert(model_fields_view(t.fields@).subrange(0, 0) =~= Seq::<(Seq<char>, Seq<char>)>::empty());
            assert(out@ =~= head2 + trait_members(Seq::<(Seq<char>, Seq<char>)>::empty()));
            while i < n
                invariant
                    n == t.fields@.len(),
                    0 <= i <= n,
                    out@ == head2 + trait_members(model_fields_view(t.fields@).subrange(0, i as int)),
                decreases n - i,
            {
                let f = &t.fields[i];
                let ghost before = out@;
                out = out.concat("    ").concat(f.name.as_str()).concat(" ").concat(f.ty.as_str()).concat("\n");
                proof {
                    let fs = model_fields_view(t.fields@).subrange(0, i + 1);
                    assert(fs.drop_last() =~= model_fields_view(t.fields@).subrange(0, i as int));
                    assert(fs.last() == f.view());
                    assert(out@ =~= before + ("    "@ + f.name@ + " "@ + f.ty@ + "\n"@));
                }
                i = i + 1;
            }
            assert(model_fields_view(t.fields@).subrange(0, n as int) =~= model_fields_view(t.fields@));
        },
    }
    out = out.concat("  }\n\n");
    out
}

proof fn lemma_field_arrows_stuck(all: Seq<DomainTypeView>, owner: Seq<char>, fs: Seq<(Seq<char>, Seq<char>)>, k: int)
    requires
        0 <= k <= fs.len(),
        field_arrows(all, owner, fs.subrange(0, k)) is None,
    ensures
        field_arrows(all, owner, fs) is None,
    decreases fs.len() - k,
{
    if k == fs.len() {
        assert(fs.subrange(0, k) =~= fs);
    } else {
        assert(fs.subrange(0, k + 1).drop_last() =~= fs.subrange(0, k));
        lemma_field_arrows_stuck(all, owner, fs, k + 1);
    }
}

proof fn lemma_all_arrows_stuck(all: Seq<DomainTypeView>, ts: Seq<DomainTypeView>, k: int)
    requires
        0 <= k <= ts.len(),
        all_arrows(all, ts.subrange(0, k)) is None,
    ensures
        all_arrows(all, ts) is None,
    decreases ts.len() - k,
{
    if k == ts.len() {
        assert(ts.subrange(0, k) =~= ts);
    } else {
        assert(ts.subrange(0, k + 1).drop_last() =~= ts.subrange(0, k));
        lemma_all_arrows_stuck(all, ts, k + 1);
    }
}

fn type_arrows_of(all: &Vec<DomainType>, t: &DomainType) -> (r: Result<String, String>)
    ensures
        match type_arrows(types_view(all@), t.view()) {
            Some(x) => r is Ok && r->Ok_0@ == x,
            None => r is Err,
        },
{
    proof {
        reveal_strlit("Box<dyn");
        reveal_strlit("Option<");
    }
    let ghost av = types_view(all@);
    let mut out = String::new();
    if t.kind != TypeKind::Struct {
        return Ok(out);
    }
    let n = t.fields.len();
    let mut i: usize = 0;
    assert(model_fields_view(t.fields@).subrange(0, 0) =~= Seq::<(Seq<char>, Seq<char>)>::empty());
    while i < n
        invariant
            n == t.fields@.len(),
            av == types_view(all@),
            t.kind == TypeKind::Struct,
            0 <= i <= n,
            field_arrows(av, t.name@, model_fields_view(t.fields@).subrange(0, i as int)) == Some(out@),
        decreases n - i,
    {
        let f = &t.fields[i];
        let ghost fs = model_fields_view(t.fields@).subrange(0, i + 1);
        proof {
            assert(fs.drop_last() =~= model_fields_view(t.fields@).subrange(0, i as int));
            assert(fs.last() == f.view());
        }
        let ty = chars_of(f.ty.as_str());
        let target = match type_target_of(&ty) {
            None => {
                proof {
                    assert(field_arrows(av, t.name@, fs) is None);
                    lemma_field_arrows_stuck(av, t.name@, model_fields_view(t.fields@), i + 1);
                }
                return Err(String::from_str("type cannot be sliced: ").concat(f.ty.as_str()));
            },
            Some(x) => string_of(&x),
        };
        if has_type_exec(all, &target) {
            let arrow = if starts_with(&ty, "Box<dyn") {
                "..|>"
            } else if starts_with(&ty, "Option<") {
                "..>"
            } else {
                "-->"
            };
            let ghost before = out@;
            out = out.concat("  ").concat(t.name.as_str()).concat(" ").concat(arrow).concat(" \"").concat(f.name.as_str()).concat(
                "\" : ",
            ).concat(target.as_str()).concat("\n");
            assert(out@ =~= before + ("  "@ + t.name@ + " "@ + arrow_of(f.ty@) + " \""@ + f.name@ + "\" : "@ + target@ + "\n"@));
        } else {
            assert(out@ =~= out@ + Seq::<char>::empty());
        }
        i = i + 1;
    }
    assert(model_fields_view(t.fields@).subrange(0, n as int) =~= model_fields_view(t.fields@));
    let ghost after_fields = out@;
    let m = t.implements.len();
    let mut k: usize = 0;
    assert(strings_view(t.implements@).subrange(0, 0) =~= Seq::<Seq<char>>::empty());
    assert(out@ =~= after_fields + impl_arrows(av, t.name@, Seq::<Seq<char>>::empty()));
    while k < m
        invariant
            m == t.implements@.len(),
            av == types_view(all@),
            0 <= k <= m,
            out@ == after_fields + impl_arrows(av, t.name@, strings_view(t.implements@).subrange(0, k as int)),
        decreases m - k,
    {
        proof {
            let is = strings_view(t.implements@).subrange(0, k + 1);
            assert(is.drop_last() =~= strings_view(t.implements@).subrange(0, k as int));
            assert(is.last() == t.implements@[k as int]@);
        }
        let ghost before = out@;
        if has_type_exec(all, &t.implements[k]) {
            out = out.concat("  ").concat(t.name.as_str()).concat(" ..|> ").concat(t.implements[k].as_str()).concat("\n");
            assert(out@ =~= before + ("  "@ + t.name@ + " ..|> "@ + t.implements@[k as int]@ + "\n"@));
        } else {
            assert(out@ =~= before + Seq::<char>::empty());
        }
        k = k + 1;
    }
    assert(strings_view(t.implements@).subrange(0, m as int) =~= strings_view(t.implements@));
    Ok(out)
}

/// The class diagram of the domain model, in Mermaid's syntax: a class per type (a struct's
/// fields, an enum's variants, a trait's methods), then an arrow from each struct to each known
/// type its fields refer to and each known trait it implements. An error where a field's inner
/// type cannot be sliced out.
pub fn generate_mermaid(types: &TypeMap) -> (r: Result<String, String>)
    ensures
        match model_mermaid(types.view()) {
            Some(x) => r is Ok && r->Ok_0@ == x,
            None => r is Err,
        },
{
    let all = types.types();
    let ghost av = types_view(all@);
    let n = all.len();
    let mut out = String::from_str("%% Domain Model \u{2014} local-agent\nclassDiagram\n\n");
    let mut i: usize = 0;
    assert(av.subrange(0, 0) =~= Seq::<DomainTypeView>::empty());
    assert(out@ =~= model_mermaid_head() + model_classes(Seq::<DomainTypeView>::empty()));
    while i < n
        invariant
            n == all@.len(),
            av == types_view(all@),
            0 <= i <= n,
            out@ == model_mermaid_head() + model_classes(av.subrange(0, i as int)),
        decreases n - i,
    {
        let block = model_class_of(&all[i]);
        let ghost before = out@;
        out = out.concat(block.as_str());
        proof {
            let ts = av.subrange(0, i + 1);
            assert(ts.drop_last() =~= av.subrange(0, i as int));
            assert(ts.last() == all@[i as int].view());
            assert(out@ =~= before + model_class(all@[i as int].view()));
        }
        i = i + 1;
    }
    assert(av.subrange(0, n as int) =~= av);
    let ghost classes = out@;
    let mut j: usize = 0;
    let ghost mut arrows: Seq<char> = Seq::empty();
    assert(classes =~= classes + arrows);
    while j < n
        invariant
            n == all@.len(),
            av == types_view(all@),
            av == types.view(),
            0 <= j <= n,
            all_arrows(av, av.subrange(0, j as int)) == Some(arrows),
            out@ == classes + arrows,
        decreases n - j,
    {
        proof {
            let ts = av.subrange(0, j + 1);
            assert(ts.drop_last() =~= av.subrange(0, j as int));
            assert(ts.last() == all@[j as int].view());
        }
        match type_arrows_of(all, &all[j]) {
            Err(e) => {
                proof {
                    lemma_all_arrows_stuck(av, av, j + 1);
                }
                return Err(e);
            },
            Ok(lines) => {
                out = out.concat(lines.as_str());
                proof {
                    arrows = arrows + lines@;
                }
            },
        }
        j = j + 1;
    }
    assert(av.subrange(0, n as int) =~= av);
    Ok(out)
}

/// The word for a kind of type.
pub open spec fn kind_word(k: TypeKind) -> Seq<char> {
    match k {
        TypeKind::Struct => "struct"@,
        TypeKind::Enum => "enum"@,
        TypeKind::Trait => "trait"@,
    }
}

/// The lines inside a type's box: its name and kind, its module, then its variants, fields or
/// methods, then the traits it implements.
pub open spec fn box_lines(t: DomainTypeView) -> Seq<Seq<char>> {
    seq![t.name + " ("@ + kind_word(t.kind) + ")"@, "module: "@ + t.module] + (if t.kind == TypeKind::Enum {
        t.variants.map_values(|v: Seq<char>| "  [variant] "@ + v)
    } else {
        Seq::empty()
    }) + (if t.kind == TypeKind::Struct {
        t.fields.map_values(|f: (Seq<char>, Seq<char>)| "  "@ + f.0 + " : "@ + f.1)
    } else {
        Seq::empty()
    }) + (if t.kind == TypeKind::Trait {
        t.fields.map_values(|f: (Seq<char>, Seq<char>)| "  "@ + f.0 + "() -> "@ + f.1)
    } else {
        Seq::empty()
    }) + (if t.implements.len() > 0 {
        seq!["  implements: "@ + joined(t.implements, ", "@)]
    } else {
        Seq::empty()
    })
}

/// The widest of the lines, in UTF-8 bytes.
pub open spec fn max_width(ls: Seq<Seq<char>>) -> nat
    decreases ls.len(),
{
    if ls.len() == 0 {
        0
    } else {
        let w = max_width(ls.drop_last());
        if utf8_len(ls.last()) > w {
            utf8_len(ls.last())
        } else {
            w
        }
    }
}

/// The rows of a box of inner width `w`: each line padded with spaces to `w` bytes.
pub open spec fn box_rows(ls: Seq<Seq<char>>, w: nat) -> Seq<char>
    decreases ls.len(),
{
    if ls.len() == 0 {
        Seq::empty()
    } else {
        box_rows(ls.drop_last(), w) + "| "@ + ls.last() + repeated(' ', (w - utf8_len(ls.last())) as nat) + " |\n"@
    }
}

/// A box around the lines: a rule, the rows, a rule, two bytes wider than the widest line.
pub open spec fn boxed(ls: Seq<Seq<char>>) -> Seq<char> {
    let w = max_width(ls) + 2;
    let rule = "+"@ + repeated('-', w) + "+\n"@;
    rule + box_rows(ls, w) + rule
}

/// The lines of a type's relationships: what it has through a field, or implements.
pub open spec fn rel_rows(set: Seq<(Seq<char>, Seq<char>)>) -> Seq<char>
    decreases set.len(),
{
    if set.len() == 0 {
        Seq::empty()
    } else {
        let p = set.last();
        rel_rows(set.drop_last()) + "  |--"@ + (if p.1 == "implements"@ {
            "implements"@
        } else {
            "has"@
        }) + "--> "@ + p.0 + " (via ."@ + p.1 + ")\n"@
    }
}

/// The relationships recorded for `name`: those of the first entry for it, or none.
pub open spec fn rels_for(rels: Seq<(Seq<char>, Seq<(Seq<char>, Seq<char>)>)>, name: Seq<char>) -> Seq<(Seq<char>, Seq<char>)>
    decreases rels.len(),
{
    if rels.len() == 0 {
        Seq::empty()
    } else if rels[0].0 == name {
        rels[0].1
    } else {
        rels_for(rels.drop_first(), name)
    }
}

/// The block of a type in the text diagram: its box, its relationships and a blank line.
pub open spec fn ascii_block(t: DomainTypeView, rels: Seq<(Seq<char>, Seq<(Seq<char>, Seq<char>)>)>) -> Seq<char> {
    boxed(box_lines(t)) + rel_rows(rels_for(rels, t.name)) + "\n"@
}

/// The blocks of types, in order.
pub open spec fn ascii_blocks(ts: Seq<DomainTypeView>, rels: Seq<(Seq<char>, Seq<(Seq<char>, Seq<char>)>)>) -> Seq<char>
    decreases ts.len(),
{
    if ts.len() == 0 {
        Seq::empty()
    } else {
        ascii_blocks(ts.drop_last(), rels) + ascii_block(ts.last(), rels)
    }
}

/// The title of the text diagram.
pub open spec fn ascii_title() -> Seq<char> {
    "=================================================================\n  Domain Model \u{2014} local-agent\n=================================================================\n\n"@
}

/// The text diagram of the domain model.
pub open spec fn ascii_text(ts: Seq<DomainTypeView>, rels: Seq<(Seq<char>, Seq<(Seq<char>, Seq<char>)>)>) -> Seq<char> {
    ascii_title() + ascii_blocks(ts, rels)
}

fn push_line(lines: &mut Vec<String>, line: String)
    ensures
        strings_view(final(lines)@) == strings_view(old(lines)@).push(line@),
{
    let ghost before = lines@;
    lines.push(line);
    assert(strings_view(lines@) =~= strings_view(before).push(line@));
}

fn box_lines_of(t: &DomainType) -> (r: Vec<String>)
    ensures
        strings_view(r@) == box_lines(t.view()),
{
    let word = match t.kind {
        TypeKind::Struct => "struct",
        TypeKind::Enum => "enum",
        TypeKind::Trait => "trait",
    };
    let mut lines: Vec<String> = Vec::new();
    assert(strings_view(lines@) =~= Seq::<Seq<char>>::empty());
    push_line(&mut lines, t.name.clone().concat(" (").concat(word).concat(")"));
    push_line(&mut lines, String::from_str("module: ").concat(t.module.as_str()));
    let ghost head = strings_view(lines@);
    let ghost tv = t.view();
    assert(head =~= seq![tv.name + " ("@ + kind_word(tv.kind) + ")"@, "module: "@ + tv.module]);
    let ghost vrows = if tv.kind == TypeKind::Enum {
        tv.variants.map_values(|v: Seq<char>| "  [variant] "@ + v)
    } else {
        Seq::empty()
    };
    let ghost frows = if tv.kind == TypeKind::Struct {
        tv.fields.map_values(|f: (Seq<char>, Seq<char>)| "  "@ + f.0 + " : "@ + f.1)
    } else {
        Seq::empty()
    };
    let ghost mrows = if tv.kind == TypeKind::Trait {
        tv.fields.map_values(|f: (Seq<char>, Seq<char>)| "  "@ + f.0 + "() -> "@ + f.1)
    } else {
        Seq::empty()
    };
    if t.kind == TypeKind::Enum {
        let n = t.variants.len();
        let mut i: usize = 0;
        while i < n
            invariant
                n == t.variants@.len(),
                tv == t.view(),
                tv.kind == TypeKind::Enum,
                0 <= i <= n,
                strings_view(lines@) == head + tv.variants.map_values(|v: Seq<char>| "  [variant] "@ + v).subrange(0, i as int),
            decreases n - i,
        {
            let ghost before = strings_view(lines@);
            push_line(&mut lines, String::from_str("  [variant] ").concat(t.variants[i].as_str()));
            assert(strings_view(lines@) =~= head + tv.variants.map_values(|v: Seq<char>| "  [variant] "@ + v).subrange(0, i + 1));
            i = i + 1;
        }
        assert(tv.variants.map_values(|v: Seq<char>| "  [variant] "@ + v).subrange(0, n as int) =~= vrows);
    } else {
        assert(head =~= head + vrows);
    }
    let ghost after_v = strings_view(lines@);
    if t.kind == TypeKind::Struct {
        let n = t.fields.len();
        let mut i: usize = 0;
        while i < n
            invariant
                n == t.fields@.len(),
                tv == t.view(),
                tv.kind == TypeKind::Struct,
                0 <= i <= n,
                strings_view(lines@) == after_v + tv.fields.map_values(|f: (Seq<char>, Seq<char>)| "  "@ + f.0 + " : "@ + f.1).subrange(
                    0,
                    i as int,
                ),
            decreases n - i,
        {
            let f = &t.fields[i];
            push_line(&mut lines, String::from_str("  ").concat(f.name.as_str()).concat(" : ").concat(f.ty.as_str()));
            assert(tv.fields[i as int] == f.view());
            assert(strings_view(lines@) =~= after_v + tv.fields.map_values(
                |f: (Seq<char>, Seq<char>)| "  "@ + f.0 + " : "@ + f.1,
            ).subrange(0, i + 1));
            i = i + 1;
        }
        assert(tv.fields.map_values(|f: (Seq<char>, Seq<char>)| "  "@ + f.0 + " : "@ + f.1).subrange(0, n as int) =~= frows);
    } else {
        assert(after_v =~= after_v + frows);
    }
    let ghost after_f = strings_view(lines@);
    if t.kind == TypeKind::Trait {
        let n = t.fields.len();
        let mut i: usize = 0;
        while i < n
            invariant
                n == t.fields@.len(),
                tv == t.view(),
                tv.kind == TypeKind::Trait,
                0 <= i <= n,
                strings_view(lines@) == after_f + tv.fields.map_values(|f: (Seq<char>, Seq<char>)| "  "@ + f.0 + "() -> "@ + f.1).subrange(
                    0,
                    i as int,
                ),
            decreases n - i,
        {
            let f = &t.fields[i];
            push_line(&mut lines, String::from_str("  ").concat(f.name.as_str()).concat("() -> ").concat(f.ty.as_str()));
            assert(tv.fields[i as int] == f.view());
            assert(strings_view(lines@) =~= after_f + tv.fields.map_values(
                |f: (Seq<char>, Seq<char>)| "  "@ + f.0 + "() -> "@ + f.1,
            ).subrange(0, i + 1));
            i = i + 1;
        }
        assert(tv.fields.map_values(|f: (Seq<char>, Seq<char>)| "  "@ + f.0 + "() -> "@ + f.1).subrange(0, n as int) =~= mrows);
    } else {
        assert(after_f =~= after_f + mrows);
    }
    let ghost after_m = strings_view(lines@);
    if t.implements.len() > 0 {
        let joined_impls = crate::source_text::join_strings(&t.implements, ", ");
        push_line(&mut lines, String::from_str("  implements: ").concat(joined_impls.as_str()));
    } else {
        assert(after_m =~= after_m + Seq::<Seq<char>>::empty());
    }
    assert(strings_view(lines@) =~= box_lines(tv));
    lines
}

fn boxed_of(ls: &Vec<String>) -> (r: String)
    ensures
        r@ == boxed(strings_view(ls@)),
{
    let ghost lv = strings_view(ls@);
    let n = ls.len();
    let mut widths: Vec<u128> = Vec::new();
    let mut max_w: u128 = 0;
    let mut i: usize = 0;
    assert(lv.subrange(0, 0) =~= Seq::<Seq<char>>::empty());
    while i < n
        invariant
            n == ls@.len(),
            lv == strings_view(ls@),
            0 <= i <= n,
            widths@.len() == i,
            forall|j: int| 0 <= j < i ==> #[trigger] widths@[j] == crate::source_text::utf8_len(lv[j]),
            max_w == max_width(lv.subrange(0, i as int)),
            max_w <= 0x4_0000_0000_0000_0000,
        decreases n - i,
    {
        let cs = chars_of(ls[i].as_str());
        let len = cs.len();
        let w = crate::source_text::utf8_len_of(&cs);
        proof {
            assert(lv[i as int] == ls@[i as int]@);
            let sub = lv.subrange(0, i + 1);
            assert(sub.drop_last() =~= lv.subrange(0, i as int));
            lemma_utf8_len_bound(cs@);
            assert(w <= 4 * len);
        }
        widths.push(w);
        if w > max_w {
            max_w = w;
        }
        i = i + 1;
    }
    assert(lv.subrange(0, n as int) =~= lv);
    let box_w = max_w + 2;
    let rule = String::from_str("+").concat(crate::source_text::repeat_char('-', box_w).as_str()).concat("+\n");
    let mut out = rule.clone();
    let ghost start = out@;
    let mut k: usize = 0;
    assert(start =~= start + box_rows(Seq::<Seq<char>>::empty(), box_w as nat));
    while k < n
        invariant
            n == ls@.len(),
            lv == strings_view(ls@),
            widths@.len() == n,
            forall|j: int| 0 <= j < n ==> #[trigger] widths@[j] == crate::source_text::utf8_len(lv[j]),
            box_w == max_width(lv) + 2,
            0 <= k <= n,
            out@ == start + box_rows(lv.subrange(0, k as int), box_w as nat),
        decreases n - k,
    {
        proof {
            lemma_max_width_bound(lv, k as int);
            let sub = lv.subrange(0, k + 1);
            assert(sub.drop_last() =~= lv.subrange(0, k as int));
            assert(sub.last() == lv[k as int]);
            assert(lv[k as int] == ls@[k as int]@);
        }
        let pad = crate::source_text::repeat_char(' ', box_w - widths[k]);
        let ghost before = out@;
        out = out.concat("| ").concat(ls[k].as_str()).concat(pad.as_str()).concat(" |\n");
        assert(out@ =~= before + ("| "@ + lv[k as int] + crate::source_text::repeated(
            ' ',
            (box_w - crate::source_text::utf8_len(lv[k as int])) as nat,
        ) + " |\n"@));
        k = k + 1;
    }
    assert(lv.subrange(0, n as int) =~= lv);
    out = out.concat(rule.as_str());
    out
}

proof fn lemma_utf8_len_bound(s: Seq<char>)
    ensures
        crate::source_text::utf8_len(s) <= 4 * s.len(),
    decreases s.len(),
{
    if s.len() > 0 {
        lemma_utf8_len_bound(s.drop_last());
    }
}

proof fn lemma_max_width_bound(ls: Seq<Seq<char>>, k: int)
    requires
        0 <= k < ls.len(),
    ensures
        crate::source_text::utf8_len(ls[k]) <= max_width(ls),
    decreases ls.len(),
{
    if k < ls.len() - 1 {
        lemma_max_width_bound(ls.drop_last(), k);
    }
}

fn rel_rows_of(set: &Vec<(String, String)>) -> (r: String)
    ensures
        r@ == rel_rows(pairs_view(set@)),
{
    let ghost sv = pairs_view(set@);
    let n = set.len();
    let mut out = String::new();
    let mut i: usize = 0;
    assert(sv.subrange(0, 0) =~= Seq::<(Seq<char>, Seq<char>)>::empty());
    while i < n
        invariant
            n == set@.len(),
            sv == pairs_view(set@),
            0 <= i <= n,
            out@ == rel_rows(sv.subrange(0, i as int)),
        decreases n - i,
    {
        proof {
            let sub = sv.subrange(0, i + 1);
            assert(sub.drop_last() =~= sv.subrange(0, i as int));
            assert(sub.last() == (set@[i as int].0@, set@[i as int].1@));
        }
        let label = if crate::text::str_eq(set[i].1.as_str(), "implements") {
            "implements"
        } else {
            "has"
        };
        let ghost before = out@;
        out = out.concat("  |--").concat(label).concat("--> ").concat(set[i].0.as_str()).concat(" (via .").concat(
            set[i].1.as_str(),
        ).concat(")\n");
        i = i + 1;
    }
    assert(sv.subrange(0, n as int) =~= sv);
    out
}

fn rels_for_of(rels: &Vec<Relationships>, name: &String) -> (r: Option<usize>)
    ensures
        match r {
            Some(k) => k < rels@.len() && rels_for(rels_view(rels@), name@) == pairs_view(rels@[k as int].targets@),
            None => rels_for(rels_view(rels@), name@) == Seq::<(Seq<char>, Seq<char>)>::empty(),
        },
{
    let ghost rv = rels_view(rels@);
    let n = rels.len();
    let mut k: usize = 0;
    assert(rv.subrange(0, n as int) =~= rv);
    while k < n
        invariant
            n == rels@.len(),
            rv == rels_view(rels@),
            0 <= k <= n,
            rels_for(rv, name@) == rels_for(rv.subrange(k as int, n as int), name@),
        decreases n - k,
    {
        let ghost tail = rv.subrange(k as int, n as int);
        assert(tail[0] == (rels@[k as int].owner@, pairs_view(rels@[k as int].targets@)));
        if crate::text::str_eq(rels[k].owner.as_str(), name.as_str()) {
            return Some(k);
        }
        assert(tail.drop_first() =~= rv.subrange(k + 1, n as int));
        k = k + 1;
    }
    None
}

/// The text diagram of the domain model: under a title, for each type a box with its name and
/// kind, its module and its variants, fields or methods and traits, padded to the widest line
/// in bytes, followed by its relationships.
pub fn generate_ascii(types: &TypeMap, rels: &Vec<Relationships>) -> (r: String)
    ensures
        r@ == ascii_text(types.view(), rels_view(rels@)),
{
    let all = types.types();
    let ghost av = types_view(all@);
    let ghost rv = rels_view(rels@);
    let n = all.len();
    let mut out = String::from_str(
        "=================================================================\n  Domain Model \u{2014} local-agent\n=================================================================\n\n",
    );
    let mut i: usize = 0;
    assert(av.subrange(0, 0) =~= Seq::<DomainTypeView>::empty());
    assert(out@ =~= ascii_title() + ascii_blocks(Seq::<DomainTypeView>::empty(), rv));
    while i < n
        invariant
            n == all@.len(),
            av == types_view(all@),
            av == types.view(),
            rv == rels_view(rels@),
            0 <= i <= n,
            out@ == ascii_title() + ascii_blocks(av.subrange(0, i as int), rv),
        decreases n - i,
    {
        let t = &all[i];
        proof {
            let ts = av.subrange(0, i + 1);
            assert(ts.drop_last() =~= av.subrange(0, i as int));
            assert(ts.last() == t.view());
        }
        let lines = box_lines_of(t);
        let b = boxed_of(&lines);
        let rows = match rels_for_of(rels, &t.name) {
            Some(k) => rel_rows_of(&rels[k].targets),
            None => {
                assert(rel_rows(Seq::<(Seq<char>, Seq<char>)>::empty()) =~= Seq::<char>::empty());
                String::new()
            },
        };
        let ghost before = out@;
        out = out.concat(b.as_str()).concat(rows.as_str()).concat("\n");
        assert(out@ =~= before + ascii_block(t.view(), rv));
        i = i + 1;
    }
    assert(av.subrange(0, n as int) =~= av);
    out
}

/// Whether a source file named `file_name` (with the `rs` extension) is read for domain types:
/// any but the crate roots `main.rs` and `lib.rs`.
pub fn is_model_source(file_name: &str) -> (r: bool)
    ensures
        r == !(file_name@ == "main.rs"@ || file_name@ == "lib.rs"@),
{
    !(crate::text::str_eq(file_name, "main.rs") || crate::text::str_eq(file_name, "lib.rs"))
}

/// The first type named `name`, if any (what a lookup by name finds).
pub open spec fn first_named(s: Seq<DomainTypeView>, name: Seq<char>) -> Option<DomainTypeView>
    decreases s.len(),
{
    if s.len() == 0 {
        None
    } else if s[0].name == name {
        Some(s[0])
    } else {
        first_named(s.drop_first(), name)
    }
}

/// Storing a type makes a lookup of its name find it.
pub proof fn law_insert_then_lookup(s: Seq<DomainTypeView>, t: DomainTypeView)
    ensures
        first_named(insert_type(s, t), t.name) == Some(t),
    decreases s.len(),
{
    if s.len() > 0 && s[0].name != t.name && !precedes(t.name, s[0].name) {
        law_insert_then_lookup(s.drop_first(), t);
        assert((seq![s[0]] + insert_type(s.drop_first(), t)).drop_first() =~= insert_type(s.drop_first(), t));
    }
}

/// Storing a type leaves what a lookup of any other name finds unchanged.
pub proof fn law_insert_keeps_others(s: Seq<DomainTypeView>, t: DomainTypeView, name: Seq<char>)
    requires
        name != t.name,
    ensures
        first_named(insert_type(s, t), name) == first_named(s, name),
    decreases s.len(),
{
    if s.len() == 0 {
    } else if s[0].name == t.name {
        assert((seq![t] + s.drop_first()).drop_first() =~= s.drop_first());
    } else if precedes(t.name, s[0].name) {
        assert((seq![t] + s).drop_first() =~= s);
    } else {
        law_insert_keeps_others(s.drop_first(), t, name);
        assert((seq![s[0]] + insert_type(s.drop_first(), t)).drop_first() =~= insert_type(s.drop_first(), t));
    }
}

/// Recording an implemented trait adds it, last, to what the first type of that name
/// implements, and changes nothing else that a lookup finds.
pub proof fn law_add_impl_lookup(s: Seq<DomainTypeView>, target: Seq<char>, tr: Seq<char>, name: Seq<char>)
    ensures
        first_named(add_impl(s, target, tr), name) == (match first_named(s, name) {
            Some(t) => if name == target {
                Some(DomainTypeView { implements: t.implements.push(tr), ..t })
            } else {
                Some(t)
            },
            None => None,
        }),
    decreases s.len(),
{
    if s.len() == 0 {
    } else if s[0].name == target {
        let first = DomainTypeView { implements: s[0].implements.push(tr), ..s[0] };
        assert((seq![first] + s.drop_first()).drop_first() =~= s.drop_first());
    } else {
        law_add_impl_lookup(s.drop_first(), target, tr, name);
        assert((seq![s[0]] + add_impl(s.drop_first(), target, tr)).drop_first() =~= add_impl(s.drop_first(), target, tr));
    }
}

/// Whether the names strictly increase along the sequence.
pub open spec fn strictly_ordered(s: Seq<DomainTypeView>) -> bool {
    forall|i: int, j: int| 0 <= i < j < s.len() ==> precedes(#[trigger] s[i].name, #[trigger] s[j].name)
}

proof fn lemma_insert_type_elements(s: Seq<DomainTypeView>, t: DomainTypeView)
    ensures
        forall|k: int| 0 <= k < insert_type(s, t).len() ==> #[trigger] insert_type(s, t)[k] == t || s.contains(insert_type(s, t)[k]),
    decreases s.len(),
{
    if s.len() > 0 && s[0].name != t.name && !precedes(t.name, s[0].name) {
        lemma_insert_type_elements(s.drop_first(), t);
        let r = insert_type(s, t);
        assert forall|k: int| 0 <= k < r.len() implies #[trigger] r[k] == t || s.contains(r[k]) by {
            if k == 0 {
                assert(s[0] == r[0]);
            } else {
                let x = r[k];
                assert(x == insert_type(s.drop_first(), t)[k - 1]);
                if x != t {
                    let m = choose|m: int| 0 <= m < s.drop_first().len() && s.drop_first()[m] == x;
                    assert(s[m + 1] == x);
                }
            }
        }
    } else if s.len() > 0 && s[0].name == t.name {
        let r = insert_type(s, t);
        assert forall|k: int| 0 <= k < r.len() implies #[trigger] r[k] == t || s.contains(r[k]) by {
            if k > 0 {
                assert(r[k] == s[k]);
            }
        }
    } else if s.len() > 0 {
        let r = insert_type(s, t);
        assert forall|k: int| 0 <= k < r.len() implies #[trigger] r[k] == t || s.contains(r[k]) by {
            if k > 0 {
                assert(r[k] == s[k - 1]);
            }
        }
    }
}

/// Storing a type keeps the names in strictly increasing order, as a map ordered by name keeps
/// its keys.
pub proof fn law_insert_keeps_order(s: Seq<DomainTypeView>, t: DomainTypeView)
    requires
        strictly_ordered(s),
    ensures
        strictly_ordered(insert_type(s, t)),
    decreases s.len(),
{
    let r = insert_type(s, t);
    if s.len() == 0 {
    } else if s[0].name == t.name {
        assert forall|i: int, j: int| 0 <= i < j < r.len() implies precedes(#[trigger] r[i].name, #[trigger] r[j].name) by {
            assert(r[j] == s[j]);
            if i > 0 {
                assert(r[i] == s[i]);
            }
        }
    } else if precedes(t.name, s[0].name) {
        assert forall|i: int, j: int| 0 <= i < j < r.len() implies precedes(#[trigger] r[i].name, #[trigger] r[j].name) by {
            assert(r[j] == s[j - 1]);
            if i == 0 {
                if j > 1 {
                    crate::json::lemma_precedes_transitive(t.name, s[0].name, s[j - 1].name);
                }
            } else {
                assert(r[i] == s[i - 1]);
            }
        }
    } else {
        let rest = s.drop_first();
        let ins = insert_type(rest, t);
        assert(strictly_ordered(rest)) by {
            assert forall|i: int, j: int| 0 <= i < j < rest.len() implies precedes(#[trigger] rest[i].name, #[trigger] rest[j].name) by {
                assert(rest[i] == s[i + 1] && rest[j] == s[j + 1]);
            }
        }
        law_insert_keeps_order(rest, t);
        lemma_insert_type_elements(rest, t);
        crate::json::lemma_precedes_total(t.name, s[0].name);
        assert forall|i: int, j: int| 0 <= i < j < r.len() implies precedes(#[trigger] r[i].name, #[trigger] r[j].name) by {
            if i == 0 {
                let x = r[j];
                assert(x == ins[j - 1]);
                if x != t {
                    let m = choose|m: int| 0 <= m < rest.len() && rest[m] == x;
                    assert(s[m + 1] == x);
                }
            } else {
                assert(r[i] == ins[i - 1] && r[j] == ins[j - 1]);
            }
        }
    }
}

proof fn lemma_add_impl_names(s: Seq<DomainTypeView>, target: Seq<char>, tr: Seq<char>)
    ensures
        add_impl(s, target, tr).len() == s.len(),
        forall|k: int| 0 <= k < s.len() ==> #[trigger] add_impl(s, target, tr)[k].name == s[k].name,
    decreases s.len(),
{
    if s.len() > 0 && s[0].name != target {
        lemma_add_impl_names(s.drop_first(), target, tr);
        let r = add_impl(s, target, tr);
        assert forall|k: int| 0 <= k < s.len() implies #[trigger] r[k].name == s[k].name by {
            if k > 0 {
                assert(r[k] == add_impl(s.drop_first(), target, tr)[k - 1]);
            }
        }
    } else if s.len() > 0 {
        let r = add_impl(s, target, tr);
        assert forall|k: int| 0 <= k < s.len() implies #[trigger] r[k].name == s[k].name by {
            if k > 0 {
                assert(r[k] == s[k]);
            }
        }
    }
}

/// Reading a source file keeps the types in strictly increasing order of their names.
pub proof fn law_parse_keeps_order(
    lines: Seq<Seq<char>>,
    module: Seq<char>,
    i: int,
    st: ModelState,
    types: Seq<DomainTypeView>,
)
    requires
        strictly_ordered(types),
    ensures
        match model_run(lines, module, i, st, types) {
            Some(v) => strictly_ordered(v),
            None => true,
        },
    decreases lines.len() - i, state_rank(st),
{
    if i >= lines.len() || i < 0 {
        match finished_type(lines, module, lines.len() as int, st) {
            Some(t) => law_insert_keeps_order(types, t),
            None => {},
        }
    } else {
        let l = lines[i];
        let t = trimmed(l);
        match st {
            ModelState::Scan => {
                if declared_name(t, "pub struct "@) is Some || declared_name(t, "pub enum "@) is Some || declared_name(
                    t,
                    "pub trait "@,
                ) is Some {
                    match declared_name(t, "pub struct "@) {
                        Some(n) => law_parse_keeps_order(
                            lines,
                            module,
                            i + 1,
                            ModelState::StructBody { name: n, depth: 1, fields: Seq::empty() },
                            types,
                        ),
                        None => match declared_name(t, "pub enum "@) {
                            Some(n) => law_parse_keeps_order(
                                lines,
                                module,
                                i + 1,
                                ModelState::EnumBody { name: n, depth: 1, variants: Seq::empty() },
                                types,
                            ),
                            None => {
                                let n = declared_name(t, "pub trait "@)->Some_0;
                                law_parse_keeps_order(
                                    lines,
                                    module,
                                    i + 1,
                                    ModelState::TraitBody { name: n, depth: 0, opened: false, fields: Seq::empty() },
                                    types,
                                );
                            },
                        },
                    }
                } else {
                    match impl_for(t) {
                        Some((tr, target)) => {
                            lemma_add_impl_names(types, target, tr);
                            let a = add_impl(types, target, tr);
                            assert forall|x: int, y: int| 0 <= x < y < a.len() implies precedes(#[trigger] a[x].name, #[trigger] a[y].name) by {
                                assert(a[x].name == types[x].name && a[y].name == types[y].name);
                            }
                            law_parse_keeps_order(lines, module, i + 1, ModelState::Scan, a);
                        },
                        None => law_parse_keeps_order(lines, module, i + 1, ModelState::Scan, types),
                    }
                }
            },
            ModelState::StructBody { name, depth, fields } => {
                let d = depth + count_of(l, '{') - count_of(l, '}');
                if d > 0 {
                    match model_field(t) {
                        None => {},
                        Some(f) => law_parse_keeps_order(
                            lines,
                            module,
                            i + 1,
                            ModelState::StructBody { name, depth: d, fields: fields + opt_seq(f) },
                            types,
                        ),
                    }
                } else {
                    law_insert_keeps_order(types, finished_type(lines, module, i + 1, st)->Some_0);
                    law_parse_keeps_order(lines, module, i + 1, ModelState::Scan, store_finished(types, lines, module, i + 1, st));
                }
            },
            ModelState::EnumBody { name, depth, variants } => {
                let d = depth + count_of(l, '{') - count_of(l, '}');
                if d > 0 {
                    let v = variant_text(l);
                    let vs = if shown_variant(v) {
                        variants.push(v)
                    } else {
                        variants
                    };
                    law_parse_keeps_order(lines, module, i + 1, ModelState::EnumBody { name, depth: d, variants: vs }, types);
                } else {
                    law_insert_keeps_order(types, finished_type(lines, module, i + 1, st)->Some_0);
                    law_parse_keeps_order(lines, module, i + 1, ModelState::Scan, store_finished(types, lines, module, i + 1, st));
                }
            },
            ModelState::TraitBody { name, depth, opened, fields } => {
                let d = depth + count_of(l, '{') - count_of(l, '}');
                let o = opened || count_of(l, '{') > 0;
                if o && d > 0 {
                    match method_sig(l) {
                        None => {},
                        Some(m) => law_parse_keeps_order(
                            lines,
                            module,
                            i + 1,
                            ModelState::TraitBody { name, depth: d, opened: o, fields: fields + opt_seq(m) },
                            types,
                        ),
                    }
                } else if o {
                    law_insert_keeps_order(types, finished_type(lines, module, i, st)->Some_0);
                    law_parse_keeps_order(lines, module, i, ModelState::Scan, store_finished(types, lines, module, i, st));
                } else {
                    law_parse_keeps_order(lines, module, i + 1, ModelState::TraitBody { name, depth: d, opened: o, fields }, types);
                }
            },
        }
    }
}

/// The arrow line of a struct `owner`'s field `f` whose type refers to the known type `target`.
pub open spec fn arrow_line(owner: Seq<char>, f: (Seq<char>, Seq<char>), target: Seq<char>) -> Seq<char> {
    "  "@ + owner + " "@ + arrow_of(f.1) + " \""@ + f.0 + "\" : "@ + target + "\n"@
}

/// The arrow line of a struct `owner` that implements the known trait `t`.
pub open spec fn impl_line(owner: Seq<char>, t: Seq<char>) -> Seq<char> {
    "  "@ + owner + " ..|> "@ + t + "\n"@
}

proof fn lemma_occurs_in_sum(a: Seq<char>, b: Seq<char>, x: Seq<char>)
    ensures
        crate::text::occurs_in(a, x) ==> crate::text::occurs_in(a + b, x),
        crate::text::occurs_in(b, x) ==> crate::text::occurs_in(a + b, x),
{
    if crate::text::occurs_in(a, x) {
        let i = choose|i: int| crate::text::occurs_at(a, x, i);
        assert((a + b).subrange(i, i + x.len()) =~= a.subrange(i, i + x.len()));
        assert(crate::text::occurs_at(a + b, x, i));
    }
    if crate::text::occurs_in(b, x) {
        let i = choose|i: int| crate::text::occurs_at(b, x, i);
        assert((a + b).subrange(a.len() + i, a.len() + i + x.len()) =~= b.subrange(i, i + x.len()));
        assert(crate::text::occurs_at(a + b, x, a.len() + i));
    }
}

proof fn lemma_occurs_whole(a: Seq<char>)
    ensures
        crate::text::occurs_in(a, a),
{
    assert(a.subrange(0, a.len() as int) =~= a);
    assert(crate::text::occurs_at(a, a, 0));
}

proof fn lemma_field_arrow_occurs(all: Seq<DomainTypeView>, owner: Seq<char>, fs: Seq<(Seq<char>, Seq<char>)>, j: int)
    requires
        field_arrows(all, owner, fs) is Some,
        0 <= j < fs.len(),
        type_target(fs[j].1) is Some,
        has_type(all, type_target(fs[j].1)->Some_0),
    ensures
        crate::text::occurs_in(field_arrows(all, owner, fs)->Some_0, arrow_line(owner, fs[j], type_target(fs[j].1)->Some_0)),
    decreases fs.len(),
{
    let prev = fs.drop_last();
    let a = field_arrows(all, owner, prev)->Some_0;
    if j == fs.len() - 1 {
        let line = arrow_line(owner, fs[j], type_target(fs[j].1)->Some_0);
        assert(field_arrows(all, owner, fs)->Some_0 == a + line);
        lemma_occurs_whole(line);
        lemma_occurs_in_sum(a, line, line);
    } else {
        assert(prev[j] == fs[j]);
        lemma_field_arrow_occurs(all, owner, prev, j);
        let rest = field_arrows(all, owner, fs)->Some_0.subrange(a.len() as int, field_arrows(all, owner, fs)->Some_0.len() as int);
        assert(field_arrows(all, owner, fs)->Some_0 =~= a + rest);
        lemma_occurs_in_sum(a, rest, arrow_line(owner, fs[j], type_target(fs[j].1)->Some_0));
    }
}

proof fn lemma_impl_arrow_occurs(all: Seq<DomainTypeView>, owner: Seq<char>, impls: Seq<Seq<char>>, j: int)
    requires
        0 <= j < impls.len(),
        has_type(all, impls[j]),
    ensures
        crate::text::occurs_in(impl_arrows(all, owner, impls), impl_line(owner, impls[j])),
    decreases impls.len(),
{
    let prev = impls.drop_last();
    let a = impl_arrows(all, owner, prev);
    let whole = impl_arrows(all, owner, impls);
    if j == impls.len() - 1 {
        let line = impl_line(owner, impls[j]);
        assert(whole =~= a + line);
        lemma_occurs_whole(line);
        lemma_occurs_in_sum(a, line, line);
    } else {
        assert(prev[j] == impls[j]);
        lemma_impl_arrow_occurs(all, owner, prev, j);
        let rest = whole.subrange(a.len() as int, whole.len() as int);
        assert(whole =~= a + rest);
        lemma_occurs_in_sum(a, rest, impl_line(owner, impls[j]));
    }
}

proof fn lemma_type_arrows_occur(all: Seq<DomainTypeView>, ts: Seq<DomainTypeView>, i: int, x: Seq<char>)
    requires
        all_arrows(all, ts) is Some,
        0 <= i < ts.len(),
        type_arrows(all, ts[i]) is Some,
        crate::text::occurs_in(type_arrows(all, ts[i])->Some_0, x),
    ensures
        crate::text::occurs_in(all_arrows(all, ts)->Some_0, x),
    decreases ts.len(),
{
    let prev = ts.drop_last();
    let a = all_arrows(all, prev)->Some_0;
    if i == ts.len() - 1 {
        lemma_occurs_in_sum(a, type_arrows(all, ts[i])->Some_0, x);
    } else {
        assert(prev[i] == ts[i]);
        lemma_type_arrows_occur(all, prev, i, x);
        lemma_occurs_in_sum(a, type_arrows(all, ts.last())->Some_0, x);
    }
}

/// Layout law of the class diagram: it starts with its head; for each struct, each field whose
/// type refers to a known type gives the line `  Owner arrow "field" : Target`, the arrow being
/// `..|>` for a `Box<dyn ..>`, `..>` for an `Option<..>` and `-->` otherwise; and each known
/// trait the struct implements gives the line `  Owner ..|> Trait`.
pub proof fn law_mermaid_layout(all: Seq<DomainTypeView>, i: int)
    requires
        model_mermaid(all) is Some,
        0 <= i < all.len(),
    ensures
        model_mermaid(all)->Some_0.subrange(0, model_mermaid_head().len() as int) == model_mermaid_head(),
        all[i].kind == TypeKind::Struct ==> forall|j: int|
            0 <= j < all[i].fields.len() && #[trigger] type_target(all[i].fields[j].1) is Some && has_type(
                all,
                type_target(all[i].fields[j].1)->Some_0,
            ) ==> crate::text::occurs_in(
                model_mermaid(all)->Some_0,
                arrow_line(all[i].name, all[i].fields[j], type_target(all[i].fields[j].1)->Some_0),
            ),
        all[i].kind == TypeKind::Struct ==> forall|j: int|
            0 <= j < all[i].implements.len() && has_type(all, #[trigger] all[i].implements[j]) ==> crate::text::occurs_in(
                model_mermaid(all)->Some_0,
                impl_line(all[i].name, all[i].implements[j]),
            ),
{
    let arrows = all_arrows(all, all)->Some_0;
    let text = model_mermaid(all)->Some_0;
    let front = model_mermaid_head() + model_classes(all);
    assert(text == front + arrows);
    assert(text.subrange(0, model_mermaid_head().len() as int) =~= model_mermaid_head());
    lemma_all_arrows_some(all, all, i);
    if all[i].kind == TypeKind::Struct {
        let t = all[i];
        let fa = field_arrows(all, t.name, t.fields)->Some_0;
        let ia = impl_arrows(all, t.name, t.implements);
        assert(type_arrows(all, t)->Some_0 == fa + ia);
        assert forall|j: int|
            0 <= j < t.fields.len() && #[trigger] type_target(t.fields[j].1) is Some && has_type(all, type_target(t.fields[j].1)->Some_0)
            implies crate::text::occurs_in(text, arrow_line(t.name, t.fields[j], type_target(t.fields[j].1)->Some_0)) by {
            let x = arrow_line(t.name, t.fields[j], type_target(t.fields[j].1)->Some_0);
            lemma_field_arrow_occurs(all, t.name, t.fields, j);
            lemma_occurs_in_sum(fa, ia, x);
            lemma_type_arrows_occur(all, all, i, x);
            lemma_occurs_in_sum(front, arrows, x);
        }
        assert forall|j: int| 0 <= j < t.implements.len() && has_type(all, #[trigger] t.implements[j]) implies crate::text::occurs_in(
            text,
            impl_line(t.name, t.implements[j]),
        ) by {
            let x = impl_line(t.name, t.implements[j]);
            lemma_impl_arrow_occurs(all, t.name, t.implements, j);
            lemma_occurs_in_sum(fa, ia, x);
            lemma_type_arrows_occur(all, all, i, x);
            lemma_occurs_in_sum(front, arrows, x);
        }
    }
}

proof fn lemma_all_arrows_some(all: Seq<DomainTypeView>, ts: Seq<DomainTypeView>, i: int)
    requires
        all_arrows(all, ts) is Some,
        0 <= i < ts.len(),
    ensures
        type_arrows(all, ts[i]) is Some,
    decreases ts.len(),
{
    if i < ts.len() - 1 {
        assert(ts.drop_last()[i] == ts[i]);
        lemma_all_arrows_some(all, ts.drop_last(), i);
    }
}

/// Law of the ASCII boxes: an enum's box opens with its name marked `(enum)` and its module,
/// then lists each of its variants, in order, as `  [variant] v`.
pub proof fn law_enum_box(t: DomainTypeView)
    requires
        t.kind == TypeKind::Enum,
    ensures
        box_lines(t).len() >= 2 + t.variants.len(),
        box_lines(t)[0] == t.name + " (enum)"@,
        box_lines(t)[1] == "module: "@ + t.module,
        forall|k: int| 0 <= k < t.variants.len() ==> box_lines(t)[2 + k] == "  [variant] "@ + #[trigger] t.variants[k],
{
    reveal_strlit(" (");
    reveal_strlit("enum");
    reveal_strlit(")");
    reveal_strlit(" (enum)");
    assert(t.name + " ("@ + "enum"@ + ")"@ =~= t.name + " (enum)"@);
    let head = seq![t.name + " ("@ + kind_word(t.kind) + ")"@, "module: "@ + t.module];
    let vs = t.variants.map_values(|v: Seq<char>| "  [variant] "@ + v);
    let rest = box_lines(t).subrange(2 + vs.len() as int, box_lines(t).len() as int);
    assert(box_lines(t) =~= head + vs + rest);
}

} // verus!
