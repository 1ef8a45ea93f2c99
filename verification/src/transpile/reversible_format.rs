//! The reversible source format: a metadata line, the structured source,
//! and the assembly listing between two marker lines.
use crate::text::{chars_of, push_chars, push_str, push_u64, starts_with, str_eq, string_from, string_push};
use crate::transpile::diagnostics::Diagnostics;
use crate::transpile::structured::{render_script, StructuredScript};
use std::hash::{Hash, Hasher};
use vstd::prelude::*;

verus! {

broadcast use vstd::string::group_string_axioms;

/// The version of the format written.
pub const REVERSIBLE_FORMAT_VERSION: u32 = 1;

/// The start of the metadata line.
pub const META_PREFIX: &'static str = "// @rs3cache-meta ";

/// The line before the assembly listing.
pub const ASM_BEGIN: &'static str = "// @rs3cache-asm-begin";

/// The line after the assembly listing.
pub const ASM_END: &'static str = "// @rs3cache-asm-end";

/// What the metadata line records of a transpiled script.
#[derive(Debug, Clone)]
pub struct ReversibleMetadata {
    pub format_version: u32,
    pub build: u32,
    pub subbuild: u32,
    pub packed_id: i32,
    pub group_id: i32,
    pub file_id: u16,
    pub script_id: i32,
    pub export_name: String,
    pub raw_name: Option<String>,
    pub editable_structured: bool,
    pub structured_digest: String,
    pub blocking_diagnostics: Vec<String>,
}

/// The sections of a reversible source: the metadata line's JSON text,
/// the structured source and the assembly listing.
#[derive(Debug, Clone)]
pub struct ParsedReversibleSource {
    pub metadata_json: String,
    pub structured_source: String,
    pub asm_trailer: String,
}

/// How one character stands inside a JSON string: `"` and `\` behind a
/// backslash; backspace, tab, line feed, form feed and carriage return as
/// `\b \t \n \f \r`; any other character below U+0020 as `\u00`
/// and two lowercase hexadecimal digits; every other character as itself.
pub open spec fn json_escape_char(c: char) -> Seq<char> {
    if c == '"' {
        seq!['\\', '"']
    } else if c == '\\' {
        seq!['\\', '\\']
    } else if c == '\u{8}' {
        seq!['\\', 'b']
    } else if c == '\t' {
        seq!['\\', 't']
    } else if c == '\n' {
        seq!['\\', 'n']
    } else if c == '\u{c}' {
        seq!['\\', 'f']
    } else if c == '\r' {
        seq!['\\', 'r']
    } else if (c as u32) < 0x20 {
        seq!['\\', 'u', '0', '0'] + hex_text(c as nat, 2)
    } else {
        seq![c]
    }
}

/// The characters of `s`, each escaped as in a JSON string.
pub open spec fn json_escaped(s: Seq<char>) -> Seq<char>
    decreases s.len(),
{
    if s.len() == 0 {
        Seq::empty()
    } else {
        json_escaped(s.drop_last()) + json_escape_char(s.last())
    }
}

/// A string as a JSON string literal: quotation marks around its escaped
/// characters.
pub open spec fn json_quoted(s: Seq<char>) -> Seq<char> {
    seq!['"'] + json_escaped(s) + seq!['"']
}

/// Calls `serde_json::to_string` on a `&str`, which writes the string
/// between quotation marks with the escapes of `json_escape_char`
/// (`format_escaped_str_contents` with its `ESCAPE` table and the compact
/// formatter's `write_char_escape`). Writing into a `Vec` does not fail, so
/// the error arm (an empty string) is never taken.
#[verifier::external_body]
fn json_quote(s: &str) -> (r: String)
    ensures
        r@ == json_quoted(s@),
{
    match serde_json::to_string(s) {
        Ok(t) => t,
        Err(_) => String::new(),
    }
}

/// What `std::collections::hash_map::DefaultHasher::new()` finishes with
/// after hashing a `String` (fixed for a given standard library release).
pub uninterp spec fn std_string_hash(s: Seq<char>) -> u64;

/// Hashes a `String` with a fresh `DefaultHasher` and returns
/// `Hasher::finish`. The contract names the result.
#[verifier::external_body]
fn hash_string(s: &String) -> (r: u64)
    ensures
        r == std_string_hash(s@),
{
    let mut hasher = std::collections::hash_map::DefaultHasher::new();
    s.hash(&mut hasher);
    hasher.finish()
}

/// A lowercase hexadecimal digit.
pub open spec fn hex_digit(d: int) -> char {
    if d < 10 {
        ((d + 48) as u8) as char
    } else {
        ((d + 87) as u8) as char
    }
}

/// The last `width` hexadecimal digits of `v`, zero-padded.
pub open spec fn hex_text(v: nat, width: nat) -> Seq<char>
    decreases width,
{
    if width == 0 {
        Seq::empty()
    } else {
        hex_text(v / 16, (width - 1) as nat).push(hex_digit((v % 16) as int))
    }
}

fn push_hex(out: &mut String, v: u64, width: u32)
    requires
        width <= 16,
    ensures
        final(out)@ == old(out)@ + hex_text(v as nat, width as nat),
    decreases width,
{
    if width > 0 {
        push_hex(out, v / 16, width - 1);
        let d = (v % 16) as u8;
        let c = if d < 10 {
            (d + 48) as char
        } else {
            (d + 87) as char
        };
        string_push(out, c);
        proof {
            assert(c == hex_digit((v % 16) as int));
            assert(out@ =~= old(out)@ + hex_text(v as nat, width as nat));
        }
    }
}

/// The digest of a script's canonical source: its `DefaultHasher` hash as
/// sixteen lowercase hexadecimal digits.
pub fn structured_digest(script: &StructuredScript) -> (r: String)
    ensures
        r@ == hex_text(std_string_hash(render_script(*script, true)) as nat, 16),
{
    let canonical = script.canonical_source();
    let h = hash_string(&canonical);
    let mut out = String::new();
    push_hex(&mut out, h, 16);
    proof {
        assert(out@ =~= hex_text(h as nat, 16));
    }
    out
}

/// Two scripts that differ only in their header comments have the same
/// digest.
pub proof fn lemma_digest_ignores_header_comments(a: StructuredScript, b: StructuredScript)
    requires
        a.script_id == b.script_id,
        a.imports == b.imports,
        a.function_name == b.function_name,
        a.arguments == b.arguments,
        a.locals == b.locals,
        a.arrays == b.arrays,
        a.return_type == b.return_type,
        a.body == b.body,
    ensures
        render_script(a, true) == render_script(b, true),
        hex_text(std_string_hash(render_script(a, true)) as nat, 16) == hex_text(
            std_string_hash(render_script(b, true)) as nat,
            16,
        ),
{
}

/// Some line, after leading whitespace, starts with the metadata prefix.
pub open spec fn has_meta_line(lines: Seq<Seq<char>>) -> bool {
    exists|i: int| 0 <= i < lines.len() && META_PREFIX@.is_prefix_of(crate::text::trim_start(#[trigger] lines[i]))
}

/// Whether `source` has a metadata line.
pub fn is_reversible_source(source: &str) -> (r: bool)
    ensures
        r == has_meta_line(crate::text::lines_spec(source@)),
{
    let cs = chars_of(source);
    let ls = crate::text::lines(&cs);
    let mut i: usize = 0;
    while i < ls.len()
        invariant
            i <= ls@.len(),
            ls.deep_view() == crate::text::lines_spec(source@),
            forall|k: int|
                0 <= k < i ==> !META_PREFIX@.is_prefix_of(
                    crate::text::trim_start(#[trigger] crate::text::lines_spec(source@)[k]),
                ),
        decreases ls@.len() - i,
    {
        let t = crate::text::trim_start_chars(&ls[i]);
        proof {
            assert(ls.deep_view()[i as int] == ls@[i as int]@);
        }
        if starts_with(&t, META_PREFIX) {
            return true;
        }
        i = i + 1;
    }
    false
}

/// The metadata line's JSON object. The layout is this format's own and
/// fixed: the fields in the order below, with no whitespace, numbers in
/// decimal, strings as JSON string literals and `raw_name` as `null` when
/// there is none.
pub open spec fn metadata_json_text(m: ReversibleMetadata) -> Seq<char> {
    "{\"format_version\":"@ + crate::text::dec_nat(m.format_version as nat) + ",\"build\":"@
        + crate::text::dec_nat(m.build as nat) + ",\"subbuild\":"@ + crate::text::dec_nat(
        m.subbuild as nat,
    ) + ",\"packed_id\":"@ + crate::text::dec_int(m.packed_id as int) + ",\"group_id\":"@
        + crate::text::dec_int(m.group_id as int) + ",\"file_id\":"@ + crate::text::dec_nat(
        m.file_id as nat,
    ) + ",\"script_id\":"@ + crate::text::dec_int(m.script_id as int) + ",\"export_name\":"@
        + json_quoted(m.export_name@) + ",\"raw_name\":"@ + (match m.raw_name {
        Some(n) => json_quoted(n@),
        None => "null"@,
    }) + ",\"editable_structured\":"@ + (if m.editable_structured {
        "true"@
    } else {
        "false"@
    }) + ",\"structured_digest\":"@ + json_quoted(m.structured_digest@)
        + ",\"blocking_diagnostics\":["@ + json_list(m.blocking_diagnostics@) + "]}"@
}

/// Quoted strings joined with `,`.
pub open spec fn json_list(v: Seq<String>) -> Seq<char>
    decreases v.len(),
{
    if v.len() == 0 {
        Seq::empty()
    } else if v.len() == 1 {
        json_quoted(v[0]@)
    } else {
        json_list(v.drop_last()) + ","@ + json_quoted(v.last()@)
    }
}

/// The metadata as its JSON object text.
pub fn metadata_json(m: &ReversibleMetadata) -> (r: String)
    ensures
        r@ == metadata_json_text(*m),
{
    let mut out = string_from("{\"format_version\":");
    push_u64(&mut out, m.format_version as u64);
    push_str(&mut out, ",\"build\":");
    push_u64(&mut out, m.build as u64);
    push_str(&mut out, ",\"subbuild\":");
    push_u64(&mut out, m.subbuild as u64);
    push_str(&mut out, ",\"packed_id\":");
    crate::text::push_i64(&mut out, m.packed_id as i64);
    push_str(&mut out, ",\"group_id\":");
    crate::text::push_i64(&mut out, m.group_id as i64);
    push_str(&mut out, ",\"file_id\":");
    push_u64(&mut out, m.file_id as u64);
    push_str(&mut out, ",\"script_id\":");
    crate::text::push_i64(&mut out, m.script_id as i64);
    push_str(&mut out, ",\"export_name\":");
    let q = json_quote(m.export_name.as_str());
    push_str(&mut out, q.as_str());
    push_str(&mut out, ",\"raw_name\":");
    let rn = match &m.raw_name {
        Some(n) => json_quote(n.as_str()),
        None => string_from("null"),
    };
    push_str(&mut out, rn.as_str());
    push_str(&mut out, ",\"editable_structured\":");
    if m.editable_structured {
        push_str(&mut out, "true");
    } else {
        push_str(&mut out, "false");
    }
    push_str(&mut out, ",\"structured_digest\":");
    let d = json_quote(m.structured_digest.as_str());
    push_str(&mut out, d.as_str());
    push_str(&mut out, ",\"blocking_diagnostics\":[");
    let mut list = String::new();
    let mut i: usize = 0;
    while i < m.blocking_diagnostics.len()
        invariant
            i <= m.blocking_diagnostics@.len(),
            list@ == json_list(m.blocking_diagnostics@.take(i as int)),
        decreases m.blocking_diagnostics@.len() - i,
    {
        if i > 0 {
            push_str(&mut list, ",");
        }
        let q = json_quote(m.blocking_diagnostics[i].as_str());
        push_str(&mut list, q.as_str());
        proof {
            assert(m.blocking_diagnostics@.take(i + 1).drop_last() =~= m.blocking_diagnostics@.take(
                i as int,
            ));
            if i == 0 {
                assert(m.blocking_diagnostics@.take(1)[0] == m.blocking_diagnostics@[0]);
            }
        }
        i = i + 1;
    }
    proof {
        assert(m.blocking_diagnostics@.take(m.blocking_diagnostics@.len() as int)
            =~= m.blocking_diagnostics@);
    }
    push_str(&mut out, list.as_str());
    push_str(&mut out, "]}");
    proof {
        assert(out@ =~= metadata_json_text(*m));
    }
    out
}

/// The reversible form: the metadata line, a blank line, the structured
/// source without trailing whitespace, a blank line, and the assembly
/// listing (without trailing whitespace) between the marker lines.
pub open spec fn reversible_text(structured: Seq<char>, meta_json: Seq<char>, listing: Seq<char>) -> Seq<char> {
    META_PREFIX@ + meta_json + "\n\n"@ + crate::text::trim_end(structured) + "\n\n"@ + ASM_BEGIN@
        + "\n"@ + crate::text::trim_end(listing) + "\n"@ + ASM_END@ + "\n"@
}

/// The reversible source of a structured source and its listing.
pub fn render_reversible_source(structured_source: &str, metadata: &ReversibleMetadata, asm_source: &str) -> (r:
    String)
    ensures
        r@ == reversible_text(structured_source@, metadata_json_text(*metadata), asm_source@),
{
    let json = metadata_json(metadata);
    let mut out = string_from(META_PREFIX);
    push_str(&mut out, json.as_str());
    push_str(&mut out, "\n\n");
    let sc = chars_of(structured_source);
    let st = crate::text::trim_end_chars(&sc);
    push_chars(&mut out, &st);
    push_str(&mut out, "\n\n");
    push_str(&mut out, ASM_BEGIN);
    push_str(&mut out, "\n");
    let ac = chars_of(asm_source);
    let at = crate::text::trim_end_chars(&ac);
    push_chars(&mut out, &at);
    push_str(&mut out, "\n");
    push_str(&mut out, ASM_END);
    push_str(&mut out, "\n");
    proof {
        assert(out@ =~= reversible_text(structured_source@, metadata_json_text(*metadata), asm_source@));
    }
    out
}

/// Replaces `source` with its reversible form.
pub fn append_reversible_footer(source: &mut String, metadata: &ReversibleMetadata, asm_source: &str)
    ensures
        final(source)@ == reversible_text(old(source)@, metadata_json_text(*metadata), asm_source@),
{
    let wrapped = render_reversible_source(source.as_str(), metadata, asm_source);
    *source = wrapped;
}

/// The blocking kind a diagnostic message names, if any.
pub open spec fn blocking_kind_spec(message: Seq<char>) -> Option<Seq<char>> {
    if message == "parity miss: residual goto in output"@ {
        Some("residual_goto"@)
    } else if message == "parity miss: commented branch remains in structured output"@ {
        Some("commented_branch"@)
    } else if message == "bad stack state: residual pop() in output"@ {
        Some("residual_pop"@)
    } else {
        None
    }
}

/// The kind of a diagnostic that keeps a script from being edited in
/// structured form: a residual `goto`, a commented branch, or a residual
/// `pop()`.
pub fn blocking_diagnostic_kind(message: &str) -> (r: Option<&'static str>)
    ensures
        match r {
            Some(k) => blocking_kind_spec(message@) == Some(k@),
            None => blocking_kind_spec(message@) is None,
        },
{
    if str_eq(message, "parity miss: residual goto in output") {
        Some("residual_goto")
    } else if str_eq(message, "parity miss: commented branch remains in structured output") {
        Some("commented_branch")
    } else if str_eq(message, "bad stack state: residual pop() in output") {
        Some("residual_pop")
    } else {
        None
    }
}

/// Some diagnostic's message has blocking kind `k`.
pub open spec fn some_message_has_kind(d: Seq<crate::transpile::diagnostics::Diagnostic>, k: Seq<char>) -> bool {
    exists|j: int| 0 <= j < d.len() && blocking_kind_spec(#[trigger] d[j].message@) == Some(k)
}

/// The blocking kinds among the diagnostics, each once, in order of first
/// appearance.
pub fn blocking_diagnostics(diagnostics: &Diagnostics) -> (r: Vec<String>)
    ensures
        forall|i: int| 0 <= i < r@.len() ==> some_message_has_kind(diagnostics.diagnostics@, #[trigger] r@[i]@),
        forall|j: int|
            0 <= j < diagnostics.diagnostics@.len() ==> (blocking_kind_spec(
                #[trigger] diagnostics.diagnostics@[j].message@,
            ) matches Some(k) ==> exists|i: int| 0 <= i < r@.len() && r@[i]@ == k),
{
    let d = &diagnostics.diagnostics;
    let mut blockers: Vec<String> = Vec::new();
    let mut j: usize = 0;
    while j < d.len()
        invariant
            j <= d@.len(),
            *d == diagnostics.diagnostics,
            forall|i: int| 0 <= i < blockers@.len() ==> some_message_has_kind(d@, #[trigger] blockers@[i]@),
            forall|q: int|
                0 <= q < j ==> (blocking_kind_spec(#[trigger] d@[q].message@) matches Some(k) ==> exists|i: int|
                    0 <= i < blockers@.len() && blockers@[i]@ == k),
        decreases d@.len() - j,
    {
        if let Some(kind) = blocking_diagnostic_kind(d[j].message.as_str()) {
            let mut seen = false;
            let mut i: usize = 0;
            while i < blockers.len()
                invariant
                    i <= blockers@.len(),
                    seen ==> exists|q: int| 0 <= q < blockers@.len() && blockers@[q]@ == kind@,
                decreases blockers@.len() - i,
            {
                if str_eq(blockers[i].as_str(), kind) {
                    seen = true;
                }
                i = i + 1;
            }
            if !seen {
                let ghost before = blockers@;
                blockers.push(string_from(kind));
                proof {
                    assert(blockers@[blockers@.len() - 1]@ == kind@);
                    assert forall|i: int| 0 <= i < blockers@.len() implies some_message_has_kind(d@, #[trigger] blockers@[i]@) by {
                        if i < before.len() {
                            assert(blockers@[i] == before[i]);
                        } else {
                            assert(blocking_kind_spec(d@[j as int].message@) == Some(blockers@[i]@));
                        }
                    }
                    assert forall|q: int|
                        0 <= q < j + 1 implies (blocking_kind_spec(#[trigger] d@[q].message@) matches Some(k)
                            ==> exists|i: int| 0 <= i < blockers@.len() && blockers@[i]@ == k) by {
                        if q < j {
                            if let Some(k) = blocking_kind_spec(d@[q].message@) {
                                let i0 = choose|i: int| 0 <= i < before.len() && before[i]@ == k;
                                assert(blockers@[i0] == before[i0]);
                            }
                        }
                    }
                }
            }
        }
        j = j + 1;
    }
    blockers
}

/// A script is editable in structured form when no diagnostic blocks it.
pub fn editable_structured(diagnostics: &Diagnostics) -> (r: bool)
    ensures
        r == forall|j: int|
            0 <= j < diagnostics.diagnostics@.len() ==> blocking_kind_spec(
                #[trigger] diagnostics.diagnostics@[j].message@,
            ) is None,
{
    let b = blocking_diagnostics(diagnostics);
    proof {
        if b@.len() > 0 {
            assert(some_message_has_kind(diagnostics.diagnostics@, b@[0]@));
        }
    }
    b.len() == 0
}

/// What a scan of the lines of a reversible source has gathered: the text
/// after the last metadata prefix, the structured and listing lines, and
/// the marker lines seen.
pub struct SplitState {
    pub meta: Option<Seq<char>>,
    pub structured: Seq<Seq<char>>,
    pub listing: Seq<Seq<char>>,
    pub in_trailer: bool,
    pub saw_begin: bool,
    pub saw_end: bool,
}

/// The state before any line.
pub open spec fn split_start() -> SplitState {
    SplitState {
        meta: None,
        structured: seq![],
        listing: seq![],
        in_trailer: false,
        saw_begin: false,
        saw_end: false,
    }
}

/// One line: a metadata line (after leading whitespace) records its JSON
/// text, the marker lines open and close the listing, and any other line
/// goes to the listing inside the markers and to the structured source
/// outside them.
pub open spec fn split_step(st: SplitState, line: Seq<char>) -> SplitState {
    let t = crate::text::trim_start(line);
    if META_PREFIX@.is_prefix_of(t) {
        SplitState { meta: Some(t.skip(META_PREFIX@.len() as int)), ..st }
    } else if t == ASM_BEGIN@ {
        SplitState { saw_begin: true, in_trailer: true, ..st }
    } else if t == ASM_END@ {
        SplitState { saw_end: true, in_trailer: false, ..st }
    } else if st.in_trailer {
        SplitState { listing: st.listing.push(line), ..st }
    } else {
        SplitState { structured: st.structured.push(line), ..st }
    }
}

/// The state after all of `lines`.
pub open spec fn split_lines(lines: Seq<Seq<char>>) -> SplitState
    decreases lines.len(),
{
    if lines.len() == 0 {
        split_start()
    } else {
        split_step(split_lines(lines.drop_last()), lines.last())
    }
}

/// Lines joined with `\n`.
pub open spec fn join_lines(lines: Seq<Seq<char>>) -> Seq<char>
    decreases lines.len(),
{
    if lines.len() == 0 {
        seq![]
    } else if lines.len() == 1 {
        lines[0]
    } else {
        join_lines(lines.drop_last()) + "\n"@ + lines.last()
    }
}

proof fn lemma_join_push(lines: Seq<Seq<char>>, line: Seq<char>)
    ensures
        join_lines(lines.push(line)) == if lines.len() == 0 {
            line
        } else {
            join_lines(lines) + "\n"@ + line
        },
{
    assert(lines.push(line).drop_last() =~= lines);
}

proof fn lemma_meta_step_has_meta(lines: Seq<Seq<char>>)
    ensures
        split_lines(lines).meta is Some ==> has_meta_line(lines),
    decreases lines.len(),
{
    if lines.len() > 0 {
        let prefix = lines.drop_last();
        lemma_meta_step_has_meta(prefix);
        if split_lines(prefix).meta is Some {
            let i = choose|i: int|
                0 <= i < prefix.len() && META_PREFIX@.is_prefix_of(crate::text::trim_start(#[trigger] prefix[i]));
            assert(lines[i] == prefix[i]);
        } else if split_lines(lines).meta is Some {
            assert(META_PREFIX@.is_prefix_of(crate::text::trim_start(lines[lines.len() - 1])));
        }
    }
}

/// Splits a reversible source into its metadata JSON text (after the last
/// metadata prefix), the structured source and the assembly listing, each
/// as its lines joined with `\n`. Errors when there is no metadata line,
/// or when the begin or end marker line is missing.
pub fn parse_reversible_source(source: &str) -> (r: Result<ParsedReversibleSource, crate::error::Error>)
    ensures
        ({
            let st = split_lines(crate::text::lines_spec(source@));
            &&& r is Ok <==> (st.meta is Some && st.saw_begin && st.saw_end)
            &&& r matches Ok(p) ==> {
                &&& Some(p.metadata_json@) == st.meta
                &&& p.structured_source@ == join_lines(st.structured)
                &&& p.asm_trailer@ == join_lines(st.listing)
            }
            &&& r matches Err(e) ==> e.kind == crate::error::ErrorKind::Invalid
        }),
        r is Ok ==> has_meta_line(crate::text::lines_spec(source@)),
{
    let cs = chars_of(source);
    let ls = crate::text::lines(&cs);
    let ghost all = crate::text::lines_spec(source@);
    let mut metadata: Option<Vec<char>> = None;
    let mut structured = String::new();
    let mut listing = String::new();
    let mut structured_count: usize = 0;
    let mut asm_count: usize = 0;
    let mut in_trailer = false;
    let mut saw_begin = false;
    let mut saw_end = false;
    let mut i: usize = 0;
    while i < ls.len()
        invariant
            i <= ls@.len(),
            ls.deep_view() == all,
            all == crate::text::lines_spec(source@),
            ({
                let st = split_lines(all.take(i as int));
                &&& (match metadata {
                    Some(m) => st.meta == Some(m@),
                    None => st.meta is None,
                })
                &&& structured@ == join_lines(st.structured)
                &&& listing@ == join_lines(st.listing)
                &&& (structured_count == 0 <==> st.structured.len() == 0)
                &&& (asm_count == 0 <==> st.listing.len() == 0)
                &&& in_trailer == st.in_trailer
                &&& saw_begin == st.saw_begin
                &&& saw_end == st.saw_end
            }),
        decreases ls@.len() - i,
    {
        let t = crate::text::trim_start_chars(&ls[i]);
        let ghost before = split_lines(all.take(i as int));
        proof {
            assert(ls.deep_view()[i as int] == ls@[i as int]@);
            assert(all.take(i + 1).drop_last() =~= all.take(i as int));
            assert(all.take(i + 1).last() == all[i as int]);
            lemma_join_push(before.structured, all[i as int]);
            lemma_join_push(before.listing, all[i as int]);
        }
        if let Some(rest) = crate::text::strip_prefix(&t, META_PREFIX) {
            metadata = Some(rest);
        } else if crate::text::chars_eq(&t, ASM_BEGIN) {
            saw_begin = true;
            in_trailer = true;
        } else if crate::text::chars_eq(&t, ASM_END) {
            saw_end = true;
            in_trailer = false;
        } else if in_trailer {
            if asm_count > 0 {
                push_str(&mut listing, "\n");
            }
            push_chars(&mut listing, &ls[i]);
            asm_count = 1;
        } else {
            if structured_count > 0 {
                push_str(&mut structured, "\n");
            }
            push_chars(&mut structured, &ls[i]);
            structured_count = 1;
        }
        i = i + 1;
    }
    proof {
        assert(all.take(ls@.len() as int) =~= all);
        lemma_meta_step_has_meta(all);
    }
    let metadata = match metadata {
        Some(m) => m,
        None => {
            return Err(
                crate::error::Error::new(crate::error::ErrorKind::Invalid, "missing reversible metadata"),
            )
        },
    };
    if !saw_begin || !saw_end {
        return Err(
            crate::error::Error::new(
                crate::error::ErrorKind::Invalid,
                "missing reversible ASM trailer markers",
            ),
        );
    }
    Ok(
        ParsedReversibleSource {
            metadata_json: crate::text::string_of(&metadata),
            structured_source: structured,
            asm_trailer: listing,
        },
    )
}

} // verus!
