//! Script names: identifier sanitizing, `[kind,name]` tags, and the
//! catalog of scripts with their export names and signatures.
use crate::text::{
    chars_eq, chars_of, dec_int, fmt_i64, index_of, split_once, string_of, trim, trim_chars,
};
use crate::transpile::ast::ScriptId;
use crate::transpile::diagnostics::Diagnostic;
use vstd::prelude::*;

verus! {

broadcast use vstd::string::group_string_axioms;

// ---------------------------------------------------------------------------
// Identifiers
// ---------------------------------------------------------------------------

/// `char::is_ascii_digit`.
pub open spec fn ascii_digit(c: char) -> bool {
    '0' <= c <= '9'
}

/// `char::is_ascii_alphanumeric`.
pub open spec fn ascii_alnum(c: char) -> bool {
    ascii_digit(c) || ('a' <= c <= 'z') || ('A' <= c <= 'Z')
}

/// A character kept in an identifier, or `_` in its place.
pub open spec fn ident_char(c: char) -> char {
    if ascii_alnum(c) || c == '_' {
        c
    } else {
        '_'
    }
}

/// An identifier made of `s`: every character that is not an ASCII letter,
/// digit or `_` becomes `_`, a leading digit gets a `_` before it, and the
/// empty name becomes `unnamed`.
pub open spec fn sanitize_ident_spec(s: Seq<char>) -> Seq<char> {
    if s.len() == 0 {
        "unnamed"@
    } else {
        (if ascii_digit(s[0]) {
            seq!['_']
        } else {
            seq![]
        }) + s.map_values(|c: char| ident_char(c))
    }
}

/// A valid identifier made of `name`.
pub fn sanitize_ts_ident(name: &str) -> (r: String)
    ensures
        r@ == sanitize_ident_spec(name@),
{
    let cs = chars_of(name);
    if cs.len() == 0 {
        return crate::text::string_from("unnamed");
    }
    let mut out: Vec<char> = Vec::new();
    if '0' <= cs[0] && cs[0] <= '9' {
        out.push('_');
    }
    let ghost pre = out@;
    let mut i: usize = 0;
    while i < cs.len()
        invariant
            i <= cs@.len(),
            out@ == pre + cs@.take(i as int).map_values(|c: char| ident_char(c)),
        decreases cs@.len() - i,
    {
        let c = cs[i];
        let keep = ('0' <= c && c <= '9') || ('a' <= c && c <= 'z') || ('A' <= c && c <= 'Z') || c
            == '_';
        if keep {
            out.push(c);
        } else {
            out.push('_');
        }
        proof {
            assert(cs@.take(i + 1).map_values(|c: char| ident_char(c)) =~= cs@.take(
                i as int,
            ).map_values(|c: char| ident_char(c)).push(ident_char(c)));
        }
        i = i + 1;
    }
    proof {
        assert(cs@.take(i as int) =~= cs@);
        assert(out@ =~= sanitize_ident_spec(name@));
    }
    string_of(&out)
}

/// The export name made of `s`: its identifier, or nothing when that is
/// `unnamed`.
pub open spec fn export_name_spec(s: Seq<char>) -> Seq<char> {
    if sanitize_ident_spec(s) == "unnamed"@ {
        Seq::<char>::empty()
    } else {
        sanitize_ident_spec(s)
    }
}

/// An export name made of `value`: its identifier, or nothing when that is
/// `unnamed`.
pub fn sanitize_export_name(value: &str) -> (r: String)
    ensures
        r@ == export_name_spec(value@),
{
    let out = sanitize_ts_ident(value);
    let oc = chars_of(out.as_str());
    if chars_eq(&oc, "unnamed") {
        String::new()
    } else {
        out
    }
}

// ---------------------------------------------------------------------------
// Name tags
// ---------------------------------------------------------------------------

/// What kind of script a name tag names.
#[derive(Debug, Clone, Copy, PartialEq, Eq, Structural, Hash)]
pub enum ScriptKind {
    ClientScript,
    Proc,
    Unknown,
}

impl ScriptKind {
    /// The tag label of the kind.
    pub fn as_label(self) -> (r: &'static str)
        ensures
            r@ == (match self {
                ScriptKind::ClientScript => "clientscript"@,
                ScriptKind::Proc => "proc"@,
                ScriptKind::Unknown => "unknown"@,
            }),
    {
        match self {
            ScriptKind::ClientScript => "clientscript",
            ScriptKind::Proc => "proc",
            ScriptKind::Unknown => "unknown",
        }
    }

    /// The suffix that tells apart scripts of this kind that share a name.
    pub fn disambiguation_suffix(self) -> (r: Option<&'static str>)
        ensures
            match self {
                ScriptKind::ClientScript => r matches Some(s) && s@ == "clientscript"@,
                ScriptKind::Proc => r matches Some(s) && s@ == "proc"@,
                ScriptKind::Unknown => r is None,
            },
    {
        match self {
            ScriptKind::ClientScript => Some("clientscript"),
            ScriptKind::Proc => Some("proc"),
            ScriptKind::Unknown => None,
        }
    }
}

/// A parsed `[kind,name]` tag.
#[derive(Debug, Clone)]
pub struct ParsedScriptName {
    pub kind: ScriptKind,
    pub short_name: String,
}

/// The kind a tag label names.
pub open spec fn kind_of_label(s: Seq<char>) -> ScriptKind {
    if s == "clientscript"@ {
        ScriptKind::ClientScript
    } else if s == "proc"@ {
        ScriptKind::Proc
    } else {
        ScriptKind::Unknown
    }
}

/// Parsing `[kind,name]...` (after trimming): the kind label before the
/// first `,` and the trimmed name between it and the first `]`.
pub open spec fn parse_tag_spec(value: Seq<char>) -> Option<(ScriptKind, Seq<char>)> {
    let t = trim(value);
    let close = index_of(t, ']');
    if close < t.len() && t.len() > 0 && t[0] == '[' {
        let inner = t.subrange(1, close);
        let comma = index_of(inner, ',');
        if comma < inner.len() {
            Some((kind_of_label(inner.take(comma)), trim(inner.skip(comma + 1))))
        } else {
            None
        }
    } else {
        None
    }
}

/// Parses a `[kind,name]` script name tag.
pub fn parse_script_name_tag(value: &str) -> (r: Option<ParsedScriptName>)
    ensures
        match parse_tag_spec(value@) {
            Some((k, n)) => r matches Some(p) && p.kind == k && p.short_name@ == n,
            None => r is None,
        },
{
    let cs = chars_of(value);
    let t = trim_chars(&cs);
    let close = crate::text::find_char_from(&t, ']', 0);
    proof {
        assert(t@.skip(0) =~= t@);
    }
    if close >= t.len() {
        return None;
    }
    if t[0] != '[' {
        return None;
    }
    proof {
        assert(t@[0] != ']');
    }
    let inner = crate::text::slice_vec(&t, 1, close);
    match split_once(&inner, ',') {
        Some((k, rest)) => {
            let kind = if chars_eq(&k, "clientscript") {
                ScriptKind::ClientScript
            } else if chars_eq(&k, "proc") {
                ScriptKind::Proc
            } else {
                ScriptKind::Unknown
            };
            let name = trim_chars(&rest);
            Some(ParsedScriptName { kind, short_name: string_of(&name) })
        },
        None => None,
    }
}

/// The name inside a `[kind,name]` tag, or the trimmed value when it is no
/// tag.
pub fn extract_script_name_suffix(value: &str) -> (r: String)
    ensures
        r@ == (match parse_tag_spec(value@) {
            Some((_, n)) => n,
            None => trim(value@),
        }),
{
    match parse_script_name_tag(value) {
        Some(p) => p.short_name,
        None => {
            let cs = chars_of(value);
            string_of(&trim_chars(&cs))
        },
    }
}

/// The export name of a script's function.
pub open spec fn function_name_spec(script_id: i32, name: Option<Seq<char>>) -> Seq<char> {
    let fallback = "script"@ + dec_int(script_id as int);
    match name {
        Some(n) => {
            let suffix = match parse_tag_spec(n) {
                Some((_, s)) => s,
                None => trim(n),
            };
            let e = export_name_spec(suffix);
            if e.len() == 0 || e == "script"@ {
                fallback
            } else {
                e
            }
        },
        None => fallback,
    }
}

/// The function name of a script: its sanitized tag name, or
/// `script<id>` when it has none (or only `script`).
pub fn script_function_name(script_id: ScriptId, script_name: Option<&str>) -> (r: String)
    ensures
        r@ == function_name_spec(script_id.0, match script_name {
            Some(s) => Some(s@),
            None => None,
        }),
{
    match script_name {
        Some(n) => {
            let suffix = extract_script_name_suffix(n);
            let e = sanitize_export_name(suffix.as_str());
            let ec = chars_of(e.as_str());
            if ec.len() > 0 && !chars_eq(&ec, "script") {
                return e;
            }
        },
        None => {},
    }
    let mut s = crate::text::string_from("script");
    let d = fmt_i64(script_id.0 as i64);
    crate::text::push_str(&mut s, d.as_str());
    s
}

} // verus!
