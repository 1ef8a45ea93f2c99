//! The transpiler: a compiled script to reversible structured source, with
//! the names, catalog, signatures and limits it was configured with.
use crate::error::{Error, ErrorKind};
use crate::pragma::script_to_asm;
use crate::script::{decode_script, CompiledScript, Instruction, OpcodeBook, Operand};
use crate::text::{chars_of, contains_sub_str, push_i64, push_str, push_u64, str_eq, string_from};
use crate::transpile::ast::{Declaration, OperandNode, ScriptId};
use crate::transpile::catalog::{
    resolve_script_signature, ScriptCatalog, ScriptMetadata, ScriptSignature, SignatureMap, TranspileLimits,
};
use crate::transpile::codegen::CodeGen;
use crate::transpile::diagnostics::{Diagnostics, Span};
use crate::transpile::exprs::cat_num;
use crate::transpile::names::extract_script_name_suffix;
use crate::transpile::reversible_format::{
    append_reversible_footer, blocking_diagnostics, editable_structured, structured_digest,
    ReversibleMetadata, REVERSIBLE_FORMAT_VERSION,
};
use crate::transpile::scope::{var_key_of, NameTable, SymbolTable};
use crate::transpile::structured::StructuredScript;
use crate::transpile::structured_writer::StructuredWriter;
use crate::vars::VarDomain;
use vstd::prelude::*;

verus! {

broadcast use vstd::string::group_string_axioms;

/// Transpiles compiled scripts to structured source.
/// The name the last pair for `k` in `ps` gives, else `base`.
pub open spec fn last_assigned(ps: Seq<(u64, Seq<char>)>, k: u64, base: Option<Seq<char>>) -> Option<Seq<char>>
    decreases ps.len(),
{
    if ps.len() == 0 {
        base
    } else if ps.last().0 == k {
        Some(ps.last().1)
    } else {
        last_assigned(ps.drop_last(), k, base)
    }
}

proof fn lemma_last_assigned_push(ps: Seq<(u64, Seq<char>)>, p: (u64, Seq<char>), k: u64, base: Option<Seq<char>>)
    ensures
        last_assigned(ps.push(p), k, base) == (if p.0 == k {
            Some(p.1)
        } else {
            last_assigned(ps, k, base)
        }),
{
    assert(ps.push(p).drop_last() =~= ps);
}

/// The script name of `k` after naming, in order, each script of `ids`
/// that has no name yet by its group's name (`id >> 16`), if it has one.
pub open spec fn group_name_after(ids: Seq<u32>, groups: NameTable, base: NameTable, k: u64) -> Option<Seq<char>>
    decreases ids.len(),
{
    if ids.len() == 0 {
        base.get_spec(k)
    } else {
        let prev = group_name_after(ids.drop_last(), groups, base, k);
        let id = ids.last();
        if k == id as u64 && prev is None && groups.get_spec((id >> 16) as u64) is Some {
            groups.get_spec((id >> 16) as u64)
        } else {
            prev
        }
    }
}

/// The name of a script's name field: the part of a `[kind,name]` tag
/// after the comma, else the field trimmed.
pub open spec fn name_suffix(n: Seq<char>) -> Seq<char> {
    match crate::transpile::names::parse_tag_spec(n) {
        Some((_, m)) => m,
        None => crate::text::trim(n),
    }
}

/// The name of `k` after reading, in order, the name field of each
/// script that decodes and has one.
pub open spec fn decoded_name_after(scripts: Seq<(u32, Vec<u8>)>, book: OpcodeBook, version: u32, k: u64) -> Option<
    Seq<char>,
>
    decreases scripts.len(),
{
    if scripts.len() == 0 {
        None
    } else {
        let last = scripts.last();
        match crate::script::decode_script_spec(book, last.1@, version) {
            Some(sv) => match sv.name {
                Some(n) => if k == last.0 as u64 {
                    Some(name_suffix(n))
                } else {
                    decoded_name_after(scripts.drop_last(), book, version, k)
                },
                None => decoded_name_after(scripts.drop_last(), book, version, k),
            },
            None => decoded_name_after(scripts.drop_last(), book, version, k),
        }
    }
}

/// The qualified name of key `key` of enum `id`: `Enum_<id>.` and the
/// key's string value in constant case, or `KEY_<key>` when it has none.
pub open spec fn enum_value_text(id: u32, key: i32, text: Option<String>) -> Seq<char> {
    let prop = match text {
        Some(t) => if screaming_snake(t@).len() == 0 {
            "KEY_"@ + crate::text::dec_int(key as int)
        } else {
            screaming_snake(t@)
        },
        None => "KEY_"@ + crate::text::dec_int(key as int),
    };
    "Enum_"@ + crate::text::dec_int(id as int) + "."@ + prop
}

/// The keys of enum `id` with their qualified names.
pub open spec fn enum_rows_pairs(id: u32, rows: Seq<(i32, Option<String>)>) -> Seq<(u64, Seq<char>)> {
    rows.map_values(|p: (i32, Option<String>)| ((p.0 as u32) as u64, enum_value_text(id, p.0, p.1)))
}

/// The keys of all enums with their qualified names, in order.
pub open spec fn enum_map_pairs(es: Seq<(u32, Vec<(i32, Option<String>)>)>) -> Seq<(u64, Seq<char>)>
    decreases es.len(),
{
    if es.len() == 0 {
        Seq::empty()
    } else {
        enum_map_pairs(es.drop_last()) + enum_rows_pairs(es.last().0, es.last().1@)
    }
}

/// The last script of `scripts` with id `k` that decodes, decoded.
pub open spec fn last_decoded(scripts: Seq<(u32, Vec<u8>)>, book: OpcodeBook, version: u32, k: ScriptId) -> Option<
    crate::script::ScriptV,
>
    decreases scripts.len(),
{
    if scripts.len() == 0 {
        None
    } else {
        let last = scripts.last();
        match crate::script::decode_script_spec(book, last.1@, version) {
            Some(sv) => if ScriptId(last.0 as i32) == k {
                Some(sv)
            } else {
                last_decoded(scripts.drop_last(), book, version, k)
            },
            None => last_decoded(scripts.drop_last(), book, version, k),
        }
    }
}

/// `sig` is what a script's header gives: its argument counts, no counted
/// returns, and a return type that is `void` or a type label.
pub open spec fn header_signature(sig: ScriptSignature, sv: crate::script::ScriptV) -> bool {
    &&& sig.arg_count_int == sv.argument_count_int
    &&& sig.arg_count_obj == sv.argument_count_object
    &&& sig.arg_count_long == sv.argument_count_long
    &&& sig.return_count_int == 0
    &&& sig.return_count_obj == 0
    &&& sig.return_count_long == 0
    &&& (sig.return_type@ == "void"@ || exists|k: crate::transpile::expr_recovery::ReturnValueKind, v: bool|
        sig.return_type@ == crate::transpile::expr_recovery::return_type_label(k, v))
}

/// A diagnostic as values: its severity, message and span.
pub open spec fn diag_view(d: crate::transpile::diagnostics::Diagnostic) -> (
    crate::transpile::diagnostics::Severity,
    Seq<char>,
    Option<(usize, usize, Option<Seq<char>>)>,
) {
    (d.severity, d.message@, match d.span {
        Some(sp) => Some((sp.start, sp.end, match sp.source_id {
            Some(x) => Some(x@),
            None => None,
        })),
        None => None,
    })
}

/// Diagnostics as values.
pub open spec fn diag_views(d: Seq<crate::transpile::diagnostics::Diagnostic>) -> Seq<
    (crate::transpile::diagnostics::Severity, Seq<char>, Option<(usize, usize, Option<Seq<char>>)>),
> {
    d.map_values(|x: crate::transpile::diagnostics::Diagnostic| diag_view(x))
}

/// `p` occurs in `s`.
pub open spec fn occurs_in(s: Seq<char>, p: Seq<char>) -> bool {
    exists|i: int| 0 <= i <= s.len() && p.is_prefix_of(#[trigger] s.skip(i))
}

/// Enum `id` named `enum_<entry id>`.
pub open spec fn enum_pairs(es: Seq<(u32, u32)>) -> Seq<(u64, Seq<char>)> {
    es.map_values(|e: (u32, u32)| (e.0 as u64, "enum_"@ + crate::text::dec_int(e.1 as int)))
}

/// Parameter `id` named `param_<entry id>`.
pub open spec fn param_pairs(es: Seq<(u32, u32)>) -> Seq<(u64, Seq<char>)> {
    es.map_values(|e: (u32, u32)| (e.0 as u64, "param_"@ + crate::text::dec_int(e.1 as int)))
}

/// Variables by key: domain and id modulo 65536.
pub open spec fn var_pairs(vs: Seq<(VarDomain, u32, String)>) -> Seq<(u64, Seq<char>)> {
    vs.map_values(|v: (VarDomain, u32, String)| (crate::transpile::scope::var_key(v.0, v.1 as u16), v.2@))
}

/// Names by id modulo 65536.
pub open spec fn varbit_pairs(vs: Seq<(u32, String)>) -> Seq<(u64, Seq<char>)> {
    vs.map_values(|v: (u32, String)| ((v.0 as u16) as u64, v.1@))
}

/// Names by id.
pub open spec fn id_pairs(vs: Seq<(u32, String)>) -> Seq<(u64, Seq<char>)> {
    vs.map_values(|v: (u32, String)| (v.0 as u64, v.1@))
}

pub struct Transpiler {
    symbol_table: SymbolTable,
    script_signatures: SignatureMap,
    script_catalog: ScriptCatalog,
    limits: TranspileLimits,
    build: u32,
    subbuild: u32,
}

/// A transpiled script: its reversible source, what it references, whether
/// it can be edited in structured form, and its diagnostics.
pub struct TranspiledScript {
    pub source: String,
    pub referenced_vars: Vec<(VarDomain, u16)>,
    pub referenced_varbits: Vec<u16>,
    pub referenced_enums: Vec<u32>,
    pub referenced_scripts: Vec<ScriptId>,
    pub editable_structured: bool,
    pub blocking_diagnostics: Vec<String>,
    pub diagnostics: Diagnostics,
}

/// The variables a script names, in order.
pub open spec fn var_refs(code: Seq<Instruction>) -> Seq<(VarDomain, u16)>
    decreases code.len(),
{
    if code.len() == 0 {
        Seq::empty()
    } else {
        var_refs(code.drop_last()) + match code.last().operand {
            Operand::VarRef(v) => seq![(v.domain, v.id)],
            _ => Seq::empty(),
        }
    }
}

/// The variable bits a script names, in order.
pub open spec fn varbit_refs(code: Seq<Instruction>) -> Seq<u16>
    decreases code.len(),
{
    if code.len() == 0 {
        Seq::empty()
    } else {
        varbit_refs(code.drop_last()) + match code.last().operand {
            Operand::VarBitRef(v) => seq![v.id],
            _ => Seq::empty(),
        }
    }
}

/// The positive integer operands, which may name enums, in order.
pub open spec fn enum_refs(code: Seq<Instruction>) -> Seq<u32>
    decreases code.len(),
{
    if code.len() == 0 {
        Seq::empty()
    } else {
        enum_refs(code.drop_last()) + match code.last().operand {
            Operand::Int(v) => if v > 0 {
                seq![v as u32]
            } else {
                Seq::empty()
            },
            _ => Seq::empty(),
        }
    }
}

/// The scripts a script calls, in order.
pub open spec fn script_refs(code: Seq<Instruction>) -> Seq<ScriptId>
    decreases code.len(),
{
    if code.len() == 0 {
        Seq::empty()
    } else {
        script_refs(code.drop_last()) + match code.last().operand {
            Operand::Script(id) => seq![ScriptId(id)],
            _ => Seq::empty(),
        }
    }
}

fn collect_var_refs(script: &CompiledScript) -> (r: Vec<(VarDomain, u16)>)
    ensures
        r@ == var_refs(script.code@),
{
    let mut refs: Vec<(VarDomain, u16)> = Vec::new();
    let mut i: usize = 0;
    while i < script.code.len()
        invariant
            i <= script.code@.len(),
            refs@ == var_refs(script.code@.take(i as int)),
        decreases script.code@.len() - i,
    {
        if let Operand::VarRef(v) = &script.code[i].operand {
            refs.push((v.domain, v.id));
        }
        proof {
            assert(script.code@.take(i + 1).drop_last() =~= script.code@.take(i as int));
            assert(refs@ =~= var_refs(script.code@.take(i + 1)));
        }
        i = i + 1;
    }
    proof {
        assert(script.code@.take(script.code@.len() as int) =~= script.code@);
    }
    refs
}

fn collect_varbit_refs(script: &CompiledScript) -> (r: Vec<u16>)
    ensures
        r@ == varbit_refs(script.code@),
{
    let mut refs: Vec<u16> = Vec::new();
    let mut i: usize = 0;
    while i < script.code.len()
        invariant
            i <= script.code@.len(),
            refs@ == varbit_refs(script.code@.take(i as int)),
        decreases script.code@.len() - i,
    {
        if let Operand::VarBitRef(v) = &script.code[i].operand {
            refs.push(v.id);
        }
        proof {
            assert(script.code@.take(i + 1).drop_last() =~= script.code@.take(i as int));
            assert(refs@ =~= varbit_refs(script.code@.take(i + 1)));
        }
        i = i + 1;
    }
    proof {
        assert(script.code@.take(script.code@.len() as int) =~= script.code@);
    }
    refs
}

fn collect_enum_refs(script: &CompiledScript) -> (r: Vec<u32>)
    ensures
        r@ == enum_refs(script.code@),
{
    let mut refs: Vec<u32> = Vec::new();
    let mut i: usize = 0;
    while i < script.code.len()
        invariant
            i <= script.code@.len(),
            refs@ == enum_refs(script.code@.take(i as int)),
        decreases script.code@.len() - i,
    {
        if let Operand::Int(v) = &script.code[i].operand {
            if *v > 0 {
                refs.push(*v as u32);
            }
        }
        proof {
            assert(script.code@.take(i + 1).drop_last() =~= script.code@.take(i as int));
            assert(refs@ =~= enum_refs(script.code@.take(i + 1)));
        }
        i = i + 1;
    }
    proof {
        assert(script.code@.take(script.code@.len() as int) =~= script.code@);
    }
    refs
}

fn collect_script_refs(script: &CompiledScript) -> (r: Vec<ScriptId>)
    ensures
        r@ == script_refs(script.code@),
{
    let mut refs: Vec<ScriptId> = Vec::new();
    let mut i: usize = 0;
    while i < script.code.len()
        invariant
            i <= script.code@.len(),
            refs@ == script_refs(script.code@.take(i as int)),
        decreases script.code@.len() - i,
    {
        if let Operand::Script(id) = &script.code[i].operand {
            refs.push(ScriptId(*id));
        }
        proof {
            assert(script.code@.take(i + 1).drop_last() =~= script.code@.take(i as int));
            assert(refs@ =~= script_refs(script.code@.take(i + 1)));
        }
        i = i + 1;
    }
    proof {
        assert(script.code@.take(script.code@.len() as int) =~= script.code@);
    }
    refs
}

/// What one character of an enum value's name becomes in constant case.
pub open spec fn snake_char(c: char) -> Seq<char> {
    if 'a' <= c <= 'z' {
        seq![crate::transpile::exprs::upper(c)]
    } else if ('A' <= c <= 'Z') || ('0' <= c <= '9') {
        seq![c]
    } else if c == ' ' || c == '-' || c == '/' || c == '.' {
        seq!['_']
    } else {
        seq![]
    }
}

/// The characters of a name in constant case, before trimming.
pub open spec fn snake_chars(s: Seq<char>) -> Seq<char>
    decreases s.len(),
{
    if s.len() == 0 {
        seq![]
    } else {
        snake_chars(s.drop_last()) + snake_char(s.last())
    }
}

/// `s` without its leading underscores.
pub open spec fn drop_leading_underscores(s: Seq<char>) -> Seq<char>
    decreases s.len(),
{
    if s.len() > 0 && s[0] == '_' {
        drop_leading_underscores(s.drop_first())
    } else {
        s
    }
}

/// `s` without its trailing underscores.
pub open spec fn drop_trailing_underscores(s: Seq<char>) -> Seq<char>
    decreases s.len(),
{
    if s.len() > 0 && s.last() == '_' {
        drop_trailing_underscores(s.drop_last())
    } else {
        s
    }
}

/// The name of an enum value in constant case.
pub open spec fn screaming_snake(s: Seq<char>) -> Seq<char> {
    let t = drop_trailing_underscores(drop_leading_underscores(snake_chars(s)));
    if t.len() > 0 && '0' <= t[0] <= '9' {
        seq!['_'] + t
    } else {
        t
    }
}

/// The name of an enum value in constant case: ASCII letters and digits
/// upper-cased, spaces, `-`, `/` and `.` as `_`, others dropped; `_`
/// trimmed at both ends, and a leading digit prefixed with `_`.
pub fn str_to_screaming_snake(s: &str) -> (r: String)
    ensures
        r@ == screaming_snake(s@),
{
    let cs = chars_of(s);
    let mut out: Vec<char> = Vec::new();
    let mut i: usize = 0;
    while i < cs.len()
        invariant
            i <= cs@.len(),
            out@ == snake_chars(cs@.take(i as int)),
        decreases cs@.len() - i,
    {
        proof {
            assert(cs@.take(i + 1).drop_last() =~= cs@.take(i as int));
            assert(cs@.take(i + 1).last() == cs@[i as int]);
        }
        let c = cs[i];
        let ghost before = out@;
        if 'a' <= c && c <= 'z' {
            out.push(crate::transpile::exprs::to_upper(c));
        } else if ('A' <= c && c <= 'Z') || ('0' <= c && c <= '9') {
            out.push(c);
        } else if c == ' ' || c == '-' || c == '/' || c == '.' {
            out.push('_');
        }
        proof {
            assert(out@ =~= before + snake_char(c));
        }
        i = i + 1;
    }
    proof {
        assert(cs@.take(i as int) =~= cs@);
        assert(out@.skip(0) =~= out@);
    }
    let mut lo: usize = 0;
    while lo < out.len() && out[lo] == '_'
        invariant
            lo <= out@.len(),
            drop_leading_underscores(out@) == drop_leading_underscores(out@.skip(lo as int)),
        decreases out@.len() - lo,
    {
        proof {
            assert(out@.skip(lo as int).drop_first() =~= out@.skip(lo + 1));
        }
        lo = lo + 1;
    }
    proof {
        assert(out@.skip(lo as int) =~= out@.subrange(lo as int, out@.len() as int));
    }
    let mut hi: usize = out.len();
    while hi > lo && out[hi - 1] == '_'
        invariant
            lo <= hi <= out@.len(),
            drop_trailing_underscores(drop_leading_underscores(out@)) == drop_trailing_underscores(
                out@.subrange(lo as int, hi as int),
            ),
        decreases hi,
    {
        proof {
            assert(out@.subrange(lo as int, hi as int).drop_last() =~= out@.subrange(lo as int, hi - 1));
        }
        hi = hi - 1;
    }
    let trimmed = crate::text::slice_vec(&out, lo, hi);
    proof {
        if trimmed@.len() > 0 {
            assert(trimmed@.last() == out@[hi - 1]);
        }
        assert(trimmed@ == drop_trailing_underscores(drop_leading_underscores(out@)));
    }
    if trimmed.len() > 0 && '0' <= trimmed[0] && trimmed[0] <= '9' {
        let mut r = string_from("_");
        crate::text::push_chars(&mut r, &trimmed);
        proof {
            reveal_strlit("_");
            assert(r@ =~= seq!['_'] + trimmed@);
        }
        r
    } else {
        crate::text::string_of(&trimmed)
    }
}

/// The metadata line of a transpiled script: its catalog ids (or ids
/// derived from the script id), export name, editability, digest and
/// blocking kinds.
fn build_reversible_metadata(
    script: &StructuredScript,
    diagnostics: &Diagnostics,
    build: u32,
    subbuild: u32,
    metadata: Option<&ScriptMetadata>,
) -> (r: ReversibleMetadata)
    ensures
        r.format_version == REVERSIBLE_FORMAT_VERSION,
        r.build == build,
        r.subbuild == subbuild,
        r.script_id == script.script_id.0,
{
    let packed_id = match metadata {
        Some(m) => m.packed_id.0,
        None => script.script_id.0,
    };
    let group_id = match metadata {
        Some(m) => m.group_id.0,
        None => packed_id >> 16,
    };
    let file_id = match metadata {
        Some(m) => m.file_id,
        None => (packed_id & 0xffff) as u16,
    };
    ReversibleMetadata {
        format_version: REVERSIBLE_FORMAT_VERSION,
        build,
        subbuild,
        packed_id,
        group_id,
        file_id,
        script_id: script.script_id.0,
        export_name: script.function_name.clone(),
        raw_name: script.raw_name.clone(),
        editable_structured: editable_structured(diagnostics),
        structured_digest: structured_digest(script),
        blocking_diagnostics: blocking_diagnostics(diagnostics),
    }
}

/// The message of a limit error: `transpile guard hit for script <id>:
/// <what> <n><unit> exceeds limit <m>`.
pub open spec fn guard_message(id: i32, what: Seq<char>, amount: nat, unit: Seq<char>, limit: nat) -> Seq<char> {
    "transpile guard hit for script "@ + crate::text::dec_int(id as int) + ": "@ + what + " "@
        + crate::text::dec_nat(amount) + unit + " exceeds limit "@ + crate::text::dec_nat(limit)
}

/// A `Limit` error with the message `guard_message` gives.
fn guard_error(script_id: ScriptId, what: &str, amount: usize, unit: &str, limit: usize) -> (r: Error)
    ensures
        r.kind == ErrorKind::Limit,
        r.message@ == guard_message(script_id.0, what@, amount as nat, unit@, limit as nat),
{
    let mut m = string_from("transpile guard hit for script ");
    push_i64(&mut m, script_id.0 as i64);
    push_str(&mut m, ": ");
    push_str(&mut m, what);
    push_str(&mut m, " ");
    push_u64(&mut m, amount as u64);
    push_str(&mut m, unit);
    push_str(&mut m, " exceeds limit ");
    push_u64(&mut m, limit as u64);
    proof {
        assert(m@ =~= guard_message(script_id.0, what@, amount as nat, unit@, limit as nat));
    }
    Error::with_message(ErrorKind::Limit, m)
}

/// A `Limit` error when a non-zero limit is exceeded.
pub open spec fn over_limit(limit: usize, amount: usize) -> bool {
    limit != 0 && amount > limit
}

impl Transpiler {
    /// A transpiler with no names, an empty catalog, default limits and
    /// build 0.
    pub fn new() -> (r: Transpiler)
        ensures
            r.limits_view() == (TranspileLimits {
                max_script_bytes: 16777216,
                max_instructions: 25000,
                max_generated_bytes: 4194304,
            }),
            r.build_view() == 0,
    {
        Transpiler {
            symbol_table: SymbolTable::new(),
            script_signatures: SignatureMap::new(),
            script_catalog: ScriptCatalog::default(),
            limits: TranspileLimits::default(),
            build: 0,
            subbuild: 0,
        }
    }

    /// The signature used for a script: the one given, else the catalog's.
    pub closed spec fn signature_of(&self, id: ScriptId) -> Option<ScriptSignature> {
        match self.script_signatures.get_spec(id) {
            Some(sig) => Some(sig),
            None => match self.script_catalog.get_spec(id) {
                Some(m) => Some(m.signature),
                None => None,
            },
        }
    }

    /// The name used for a script: its catalog export name, else the name
    /// given for its id.
    pub closed spec fn name_of(&self, id: ScriptId) -> Option<Seq<char>> {
        match self.script_catalog.get_spec(id) {
            Some(m) => Some(m.export_name@),
            None => self.symbol_table.script_names.get_spec((id.0 as u32) as u64),
        }
    }

    /// The name tables.
    pub closed spec fn symbols(&self) -> SymbolTable {
        self.symbol_table
    }

    /// The signatures given for scripts.
    pub closed spec fn signatures_given(&self) -> SignatureMap {
        self.script_signatures
    }

    /// The catalog scripts are named and typed from.
    pub closed spec fn catalog(&self) -> ScriptCatalog {
        self.script_catalog
    }

    /// The catalog and the settings are the same in `self` and `other`.
    pub closed spec fn same_catalog_and_settings(&self, other: Transpiler) -> bool {
        &&& self.script_catalog == other.script_catalog
        &&& self.limits == other.limits
        &&& self.build == other.build
        &&& self.subbuild == other.subbuild
    }

    /// Everything but the name tables is the same in `self` and `other`.
    pub closed spec fn same_but_names(&self, other: Transpiler) -> bool {
        &&& self.script_signatures == other.script_signatures
        &&& self.script_catalog == other.script_catalog
        &&& self.limits == other.limits
        &&& self.build == other.build
        &&& self.subbuild == other.subbuild
    }

    /// The name diagnostics give as their source: the script's export
    /// name, else `script<id>`.
    pub closed spec fn source_name(&self, id: ScriptId) -> Seq<char> {
        match self.script_catalog.get_spec(id) {
            Some(m) => m.export_name@,
            None => "script"@ + crate::text::dec_int(id.0 as int),
        }
    }

    /// The diagnostics of one instruction: an error for a call of a script
    /// the catalog cannot resolve, a note for a variable or variable bit
    /// without a name; each spans the instruction.
    pub closed spec fn instruction_diags(&self, id: ScriptId, instr: crate::transpile::ast::InstructionNode) -> Seq<
        (crate::transpile::diagnostics::Severity, Seq<char>, Option<(usize, usize, Option<Seq<char>>)>),
    > {
        let sp = Some((instr.index, crate::transpile::cfg::next_index(instr.index), Some(self.source_name(id))));
        let c = instr.command@;
        if c == "gosub_with_params"@ {
            match instr.operand {
                OperandNode::Script(t) => if self.script_catalog.call_target_spec(t) is None {
                    seq![
                        (
                            crate::transpile::diagnostics::Severity::Error,
                            "unresolved script ref "@ + crate::text::dec_int(t as int),
                            sp,
                        ),
                    ]
                } else {
                    Seq::empty()
                },
                _ => Seq::empty(),
            }
        } else if crate::transpile::expr_recovery::var_command(c) {
            match instr.operand {
                OperandNode::VarRef(v) => if v.name is None {
                    seq![
                        (
                            crate::transpile::diagnostics::Severity::Note,
                            "unresolved var ref "@ + crate::vars::domain_label(v.domain) + ":"@
                                + crate::text::dec_nat(v.id.0 as nat),
                            sp,
                        ),
                    ]
                } else {
                    Seq::empty()
                },
                _ => Seq::empty(),
            }
        } else if c == "push_varbit"@ || c == "pop_varbit"@ || c == "push_varclanbit"@ || c
            == "push_varclansettingbit"@ {
            match instr.operand {
                OperandNode::VarBitRef(v) => if v.name is None {
                    seq![
                        (
                            crate::transpile::diagnostics::Severity::Note,
                            "unresolved varbit ref "@ + crate::text::dec_int(v.id.0 as int),
                            sp,
                        ),
                    ]
                } else {
                    Seq::empty()
                },
                _ => Seq::empty(),
            }
        } else {
            Seq::empty()
        }
    }

    /// The diagnostics of the instructions, in order.
    pub closed spec fn instructions_diags(&self, id: ScriptId, instrs: Seq<crate::transpile::ast::InstructionNode>) -> Seq<
        (crate::transpile::diagnostics::Severity, Seq<char>, Option<(usize, usize, Option<Seq<char>>)>),
    >
        decreases instrs.len(),
    {
        if instrs.len() == 0 {
            Seq::empty()
        } else {
            self.instructions_diags(id, instrs.drop_last()) + self.instruction_diags(id, instrs.last())
        }
    }

    /// The configured limits.
    pub closed spec fn limits_view(&self) -> TranspileLimits {
        self.limits
    }

    /// The configured build.
    pub closed spec fn build_view(&self) -> u32 {
        self.build
    }

    /// With build and sub-build set.
    pub fn with_version(self, build: u32, subbuild: u32) -> (r: Transpiler)
        ensures
            r.build_view() == build,
            r.limits_view() == self.limits_view(),
    {
        let mut t = self;
        t.build = build;
        t.subbuild = subbuild;
        t
    }

    /// With a script catalog; script names and signatures given before are
    /// dropped.
    pub fn with_script_catalog(self, script_catalog: ScriptCatalog) -> (r: Transpiler)
        ensures
            r.limits_view() == self.limits_view(),
            r.build_view() == self.build_view(),
    {
        let mut t = self;
        t.symbol_table.script_names = NameTable::new();
        t.script_signatures = SignatureMap::new();
        t.script_catalog = script_catalog;
        t
    }

    /// With the given limits.
    pub fn with_limits(self, limits: TranspileLimits) -> (r: Transpiler)
        ensures
            r.limits_view() == limits,
            r.build_view() == self.build_view(),
    {
        let mut t = self;
        t.limits = limits;
        t
    }

    /// With enum names: enum `id` is named `enum_<entry id>`.
    pub fn with_enums(self, enums: &Vec<(u32, u32)>) -> (r: Transpiler)
        ensures
            r.limits_view() == self.limits_view(),
            r.build_view() == self.build_view(),
            r.same_but_names(self),
            r.symbols().var_map == self.symbols().var_map,
            r.symbols().varbit_map == self.symbols().varbit_map,
            r.symbols().param_map == self.symbols().param_map,
            r.symbols().script_names == self.symbols().script_names,
            r.symbols().component_names == self.symbols().component_names,
            r.symbols().enum_value_names == self.symbols().enum_value_names,
            forall|k: u64|
                #[trigger] r.symbols().enum_map.get_spec(k) == last_assigned(enum_pairs(enums@), k, self.symbols().enum_map.get_spec(k)),
    {
        let mut t = self;
        let mut i: usize = 0;
        while i < enums.len()
            invariant
                t.limits == self.limits,
                t.build == self.build,
                i <= enums@.len(),
                t.same_but_names(self),
                t.symbol_table.var_map == self.symbol_table.var_map,
                t.symbol_table.varbit_map == self.symbol_table.varbit_map,
                t.symbol_table.param_map == self.symbol_table.param_map,
                t.symbol_table.script_names == self.symbol_table.script_names,
                t.symbol_table.component_names == self.symbol_table.component_names,
                t.symbol_table.enum_value_names == self.symbol_table.enum_value_names,
                forall|k: u64|
                    #[trigger] t.symbol_table.enum_map.get_spec(k) == last_assigned(
                        enum_pairs(enums@).take(i as int),
                        k,
                        self.symbols().enum_map.get_spec(k),
                    ),
            decreases enums@.len() - i,
        {
            let (id, entry_id) = enums[i];
            t.symbol_table.enum_map.insert(id as u64, cat_num("enum_", entry_id as i64));
            proof {
                let ps = enum_pairs(enums@);
                assert(ps.take(i + 1) =~= ps.take(i as int).push(ps[i as int]));
                assert forall|k: u64|
                    #[trigger] t.symbol_table.enum_map.get_spec(k) == last_assigned(
                        ps.take(i + 1),
                        k,
                        self.symbols().enum_map.get_spec(k),
                    ) by {
                    lemma_last_assigned_push(ps.take(i as int), ps[i as int], k, self.symbols().enum_map.get_spec(k));
                }
            }
            i = i + 1;
        }
        proof {
            assert(enum_pairs(enums@).take(i as int) =~= enum_pairs(enums@));
        }
        t
    }

    /// With variable names, by domain and id (ids taken modulo 65536).
    pub fn with_vars(self, vars: &Vec<(VarDomain, u32, String)>) -> (r: Transpiler)
        ensures
            r.limits_view() == self.limits_view(),
            r.build_view() == self.build_view(),
            r.same_but_names(self),
            r.symbols().varbit_map == self.symbols().varbit_map,
            r.symbols().enum_map == self.symbols().enum_map,
            r.symbols().param_map == self.symbols().param_map,
            r.symbols().script_names == self.symbols().script_names,
            r.symbols().component_names == self.symbols().component_names,
            r.symbols().enum_value_names == self.symbols().enum_value_names,
            forall|k: u64|
                #[trigger] r.symbols().var_map.get_spec(k) == last_assigned(var_pairs(vars@), k, self.symbols().var_map.get_spec(k)),
    {
        let mut t = self;
        let mut i: usize = 0;
        while i < vars.len()
            invariant
                t.limits == self.limits,
                t.build == self.build,
                i <= vars@.len(),
                t.same_but_names(self),
                t.symbol_table.varbit_map == self.symbol_table.varbit_map,
                t.symbol_table.enum_map == self.symbol_table.enum_map,
                t.symbol_table.param_map == self.symbol_table.param_map,
                t.symbol_table.script_names == self.symbol_table.script_names,
                t.symbol_table.component_names == self.symbol_table.component_names,
                t.symbol_table.enum_value_names == self.symbol_table.enum_value_names,
                forall|k: u64|
                    #[trigger] t.symbol_table.var_map.get_spec(k) == last_assigned(
                        var_pairs(vars@).take(i as int),
                        k,
                        self.symbols().var_map.get_spec(k),
                    ),
            decreases vars@.len() - i,
        {
            let key = var_key_of(vars[i].0, vars[i].1 as u16);
            t.symbol_table.var_map.insert(key, vars[i].2.clone());
            proof {
                let ps = var_pairs(vars@);
                assert(ps.take(i + 1) =~= ps.take(i as int).push(ps[i as int]));
                assert forall|k: u64|
                    #[trigger] t.symbol_table.var_map.get_spec(k) == last_assigned(
                        ps.take(i + 1),
                        k,
                        self.symbols().var_map.get_spec(k),
                    ) by {
                    lemma_last_assigned_push(ps.take(i as int), ps[i as int], k, self.symbols().var_map.get_spec(k));
                }
            }
            i = i + 1;
        }
        proof {
            assert(var_pairs(vars@).take(i as int) =~= var_pairs(vars@));
        }
        t
    }

    /// With variable bit names by id (ids taken modulo 65536).
    pub fn with_varbits(self, varbits: &Vec<(u32, String)>) -> (r: Transpiler)
        ensures
            r.limits_view() == self.limits_view(),
            r.build_view() == self.build_view(),
            r.same_but_names(self),
            r.symbols().var_map == self.symbols().var_map,
            r.symbols().enum_map == self.symbols().enum_map,
            r.symbols().param_map == self.symbols().param_map,
            r.symbols().script_names == self.symbols().script_names,
            r.symbols().component_names == self.symbols().component_names,
            r.symbols().enum_value_names == self.symbols().enum_value_names,
            forall|k: u64|
                #[trigger] r.symbols().varbit_map.get_spec(k) == last_assigned(varbit_pairs(varbits@), k, self.symbols().varbit_map.get_spec(k)),
    {
        let mut t = self;
        let mut i: usize = 0;
        while i < varbits.len()
            invariant
                t.limits == self.limits,
                t.build == self.build,
                i <= varbits@.len(),
                t.same_but_names(self),
                t.symbol_table.var_map == self.symbol_table.var_map,
                t.symbol_table.enum_map == self.symbol_table.enum_map,
                t.symbol_table.param_map == self.symbol_table.param_map,
                t.symbol_table.script_names == self.symbol_table.script_names,
                t.symbol_table.component_names == self.symbol_table.component_names,
                t.symbol_table.enum_value_names == self.symbol_table.enum_value_names,
                forall|k: u64|
                    #[trigger] t.symbol_table.varbit_map.get_spec(k) == last_assigned(
                        varbit_pairs(varbits@).take(i as int),
                        k,
                        self.symbols().varbit_map.get_spec(k),
                    ),
            decreases varbits@.len() - i,
        {
            t.symbol_table.varbit_map.insert((varbits[i].0 as u16) as u64, varbits[i].1.clone());
            proof {
                let ps = varbit_pairs(varbits@);
                assert(ps.take(i + 1) =~= ps.take(i as int).push(ps[i as int]));
                assert forall|k: u64|
                    #[trigger] t.symbol_table.varbit_map.get_spec(k) == last_assigned(
                        ps.take(i + 1),
                        k,
                        self.symbols().varbit_map.get_spec(k),
                    ) by {
                    lemma_last_assigned_push(ps.take(i as int), ps[i as int], k, self.symbols().varbit_map.get_spec(k));
                }
            }
            i = i + 1;
        }
        proof {
            assert(varbit_pairs(varbits@).take(i as int) =~= varbit_pairs(varbits@));
        }
        t
    }

    /// With parameter names: parameter `id` is named `param_<entry id>`.
    pub fn with_params(self, params: &Vec<(u32, u32)>) -> (r: Transpiler)
        ensures
            r.limits_view() == self.limits_view(),
            r.build_view() == self.build_view(),
            r.same_but_names(self),
            r.symbols().var_map == self.symbols().var_map,
            r.symbols().varbit_map == self.symbols().varbit_map,
            r.symbols().enum_map == self.symbols().enum_map,
            r.symbols().script_names == self.symbols().script_names,
            r.symbols().component_names == self.symbols().component_names,
            r.symbols().enum_value_names == self.symbols().enum_value_names,
            forall|k: u64|
                #[trigger] r.symbols().param_map.get_spec(k) == last_assigned(param_pairs(params@), k, self.symbols().param_map.get_spec(k)),
    {
        let mut t = self;
        let mut i: usize = 0;
        while i < params.len()
            invariant
                t.limits == self.limits,
                t.build == self.build,
                i <= params@.len(),
                t.same_but_names(self),
                t.symbol_table.var_map == self.symbol_table.var_map,
                t.symbol_table.varbit_map == self.symbol_table.varbit_map,
                t.symbol_table.enum_map == self.symbol_table.enum_map,
                t.symbol_table.script_names == self.symbol_table.script_names,
                t.symbol_table.component_names == self.symbol_table.component_names,
                t.symbol_table.enum_value_names == self.symbol_table.enum_value_names,
                forall|k: u64|
                    #[trigger] t.symbol_table.param_map.get_spec(k) == last_assigned(
                        param_pairs(params@).take(i as int),
                        k,
                        self.symbols().param_map.get_spec(k),
                    ),
            decreases params@.len() - i,
        {
            let (id, entry_id) = params[i];
            t.symbol_table.param_map.insert(id as u64, cat_num("param_", entry_id as i64));
            proof {
                let ps = param_pairs(params@);
                assert(ps.take(i + 1) =~= ps.take(i as int).push(ps[i as int]));
                assert forall|k: u64|
                    #[trigger] t.symbol_table.param_map.get_spec(k) == last_assigned(
                        ps.take(i + 1),
                        k,
                        self.symbols().param_map.get_spec(k),
                    ) by {
                    lemma_last_assigned_push(ps.take(i as int), ps[i as int], k, self.symbols().param_map.get_spec(k));
                }
            }
            i = i + 1;
        }
        proof {
            assert(param_pairs(params@).take(i as int) =~= param_pairs(params@));
        }
        t
    }

    /// With script names read from the scripts' own name fields (the part
    /// of a `[kind,name]` tag after the comma); scripts that do not decode
    /// or have no name get none.
    pub fn with_script_names(self, scripts: &Vec<(u32, Vec<u8>)>, opcode_book: &OpcodeBook, version: u32) -> (r:
        Transpiler)
        ensures
            r.limits_view() == self.limits_view(),
            r.build_view() == self.build_view(),
            r.same_but_names(self),
            r.symbols().var_map == self.symbols().var_map,
            r.symbols().varbit_map == self.symbols().varbit_map,
            r.symbols().enum_map == self.symbols().enum_map,
            r.symbols().param_map == self.symbols().param_map,
            r.symbols().component_names == self.symbols().component_names,
            r.symbols().enum_value_names == self.symbols().enum_value_names,
            forall|k: u64|
                #[trigger] r.symbols().script_names.get_spec(k) == decoded_name_after(
                    scripts@,
                    *opcode_book,
                    version,
                    k,
                ),
    {
        let mut t = self;
        let mut names = NameTable::new();
        let mut i: usize = 0;
        while i < scripts.len()
            invariant
                i <= scripts@.len(),
                forall|k: u64|
                    #[trigger] names.get_spec(k) == decoded_name_after(
                        scripts@.take(i as int),
                        *opcode_book,
                        version,
                        k,
                    ),
            decreases scripts@.len() - i,
        {
            proof {
                assert(scripts@.take(i + 1).drop_last() =~= scripts@.take(i as int));
                assert(scripts@.take(i + 1).last() == scripts@[i as int]);
            }
            if let Ok(script) = decode_script(scripts[i].1.as_slice(), opcode_book, version) {
                if let Some(name) = &script.name {
                    names.insert(scripts[i].0 as u64, extract_script_name_suffix(name.as_str()));
                }
            }
            i = i + 1;
        }
        proof {
            assert(scripts@.take(i as int) =~= scripts@);
        }
        t.symbol_table.script_names = names;
        t
    }

    /// With script names from archive group names: a script without a
    /// name gets its group's (`id >> 16`).
    pub fn with_script_group_names(self, script_ids: &Vec<u32>, group_names: &NameTable) -> (r: Transpiler)
        ensures
            r.limits_view() == self.limits_view(),
            r.build_view() == self.build_view(),
            r.same_but_names(self),
            r.symbols().var_map == self.symbols().var_map,
            r.symbols().varbit_map == self.symbols().varbit_map,
            r.symbols().enum_map == self.symbols().enum_map,
            r.symbols().param_map == self.symbols().param_map,
            r.symbols().component_names == self.symbols().component_names,
            r.symbols().enum_value_names == self.symbols().enum_value_names,
            forall|k: u64|
                #[trigger] r.symbols().script_names.get_spec(k) == group_name_after(
                    script_ids@,
                    *group_names,
                    self.symbols().script_names,
                    k,
                ),
    {
        let mut t = self;
        let mut i: usize = 0;
        while i < script_ids.len()
            invariant
                t.limits == self.limits,
                t.build == self.build,
                i <= script_ids@.len(),
                t.same_but_names(self),
                t.symbol_table.var_map == self.symbol_table.var_map,
                t.symbol_table.varbit_map == self.symbol_table.varbit_map,
                t.symbol_table.enum_map == self.symbol_table.enum_map,
                t.symbol_table.param_map == self.symbol_table.param_map,
                t.symbol_table.component_names == self.symbol_table.component_names,
                t.symbol_table.enum_value_names == self.symbol_table.enum_value_names,
                forall|k: u64|
                    #[trigger] t.symbol_table.script_names.get_spec(k) == group_name_after(
                        script_ids@.take(i as int),
                        *group_names,
                        self.symbols().script_names,
                        k,
                    ),
            decreases script_ids@.len() - i,
        {
            proof {
                assert(script_ids@.take(i + 1).drop_last() =~= script_ids@.take(i as int));
                assert(script_ids@.take(i + 1).last() == script_ids@[i as int]);
            }
            let id = script_ids[i];
            let group = id >> 16;
            if let Some(name) = group_names.get(group as u64) {
                if t.symbol_table.script_names.get(id as u64).is_none() {
                    let n = name.clone();
                    t.symbol_table.script_names.insert(id as u64, n);
                }
            }
            i = i + 1;
        }
        proof {
            assert(script_ids@.take(i as int) =~= script_ids@);
        }
        t
    }

    /// With component names by component uid.
    pub fn with_components(self, components: &Vec<(u32, String)>) -> (r: Transpiler)
        ensures
            r.limits_view() == self.limits_view(),
            r.build_view() == self.build_view(),
            r.same_but_names(self),
            r.symbols().var_map == self.symbols().var_map,
            r.symbols().varbit_map == self.symbols().varbit_map,
            r.symbols().enum_map == self.symbols().enum_map,
            r.symbols().param_map == self.symbols().param_map,
            r.symbols().script_names == self.symbols().script_names,
            r.symbols().enum_value_names == self.symbols().enum_value_names,
            forall|k: u64|
                #[trigger] r.symbols().component_names.get_spec(k) == last_assigned(id_pairs(components@), k, None),
    {
        let mut t = self;
        let mut names = NameTable::new();
        let mut i: usize = 0;
        while i < components.len()
            invariant
                i <= components@.len(),
                forall|k: u64|
                    #[trigger] names.get_spec(k) == last_assigned(id_pairs(components@).take(i as int), k, None),
            decreases components@.len() - i,
        {
            names.insert(components[i].0 as u64, components[i].1.clone());
            proof {
                let ps = id_pairs(components@);
                assert(ps.take(i + 1) =~= ps.take(i as int).push(ps[i as int]));
                assert forall|k: u64|
                    #[trigger] names.get_spec(k) == last_assigned(ps.take(i + 1), k, None) by {
                    lemma_last_assigned_push(ps.take(i as int), ps[i as int], k, None);
                }
            }
            i = i + 1;
        }
        proof {
            assert(id_pairs(components@).take(i as int) =~= id_pairs(components@));
        }
        t.symbol_table.component_names = names;
        t
    }

    /// With enum value names: each key of enum `id` is `Enum_<id>.<NAME>`,
    /// its string value in constant case, or `KEY_<key>` when it has none.
    pub fn with_enums_map(self, enums: &Vec<(u32, Vec<(i32, Option<String>)>)>) -> (r: Transpiler)
        ensures
            r.limits_view() == self.limits_view(),
            r.build_view() == self.build_view(),
            r.same_but_names(self),
            r.symbols().var_map == self.symbols().var_map,
            r.symbols().varbit_map == self.symbols().varbit_map,
            r.symbols().enum_map == self.symbols().enum_map,
            r.symbols().param_map == self.symbols().param_map,
            r.symbols().script_names == self.symbols().script_names,
            r.symbols().component_names == self.symbols().component_names,
            forall|k: u64|
                #[trigger] r.symbols().enum_value_names.get_spec(k) == last_assigned(enum_map_pairs(enums@), k, None),
    {
        let mut t = self;
        let mut names = NameTable::new();
        let mut i: usize = 0;
        while i < enums.len()
            invariant
                i <= enums@.len(),
                forall|k: u64|
                    #[trigger] names.get_spec(k) == last_assigned(enum_map_pairs(enums@.take(i as int)), k, None),
            decreases enums@.len() - i,
        {
            let obj = cat_num("Enum_", enums[i].0 as i64);
            let pairs = &enums[i].1;
            let ghost id = enums@[i as int].0;
            let ghost head = enum_map_pairs(enums@.take(i as int));
            let mut j: usize = 0;
            proof {
                assert(head + enum_rows_pairs(id, pairs@.take(0)) =~= head);
            }
            while j < pairs.len()
                invariant
                    j <= pairs@.len(),
                    obj@ == "Enum_"@ + crate::text::dec_int(id as int),
                    *pairs == enums@[i as int].1,
                    forall|k: u64|
                        #[trigger] names.get_spec(k) == last_assigned(
                            head + enum_rows_pairs(id, pairs@.take(j as int)),
                            k,
                            None,
                        ),
                decreases pairs@.len() - j,
            {
                let key = pairs[j].0;
                let prop = match &pairs[j].1 {
                    Some(text) => {
                        let name = str_to_screaming_snake(text.as_str());
                        if name.as_str().unicode_len() == 0 {
                            cat_num("KEY_", key as i64)
                        } else {
                            name
                        }
                    },
                    None => cat_num("KEY_", key as i64),
                };
                let mut q = obj.clone();
                push_str(&mut q, ".");
                push_str(&mut q, prop.as_str());
                names.insert((key as u32) as u64, q);
                proof {
                    let rp = enum_rows_pairs(id, pairs@);
                    assert(enum_rows_pairs(id, pairs@.take(j + 1)) =~= enum_rows_pairs(id, pairs@.take(j as int)).push(
                        rp[j as int],
                    ));
                    assert(head + enum_rows_pairs(id, pairs@.take(j + 1)) =~= (head + enum_rows_pairs(
                        id,
                        pairs@.take(j as int),
                    )).push(rp[j as int]));
                    assert(rp[j as int] == ((key as u32) as u64, q@));
                    assert forall|k: u64|
                        #[trigger] names.get_spec(k) == last_assigned(
                            head + enum_rows_pairs(id, pairs@.take(j + 1)),
                            k,
                            None,
                        ) by {
                        lemma_last_assigned_push(
                            head + enum_rows_pairs(id, pairs@.take(j as int)),
                            rp[j as int],
                            k,
                            None,
                        );
                    }
                }
                j = j + 1;
            }
            proof {
                assert(pairs@.take(j as int) =~= pairs@);
                assert(enums@.take(i + 1).drop_last() =~= enums@.take(i as int));
                assert(enums@.take(i + 1).last() == enums@[i as int]);
            }
            i = i + 1;
        }
        proof {
            assert(enums@.take(i as int) =~= enums@);
        }
        t.symbol_table.enum_value_names = names;
        t
    }

    /// With script signatures read from the scripts: argument counts from
    /// the header and the return type their code implies.
    pub fn with_script_signatures(self, scripts: &Vec<(u32, Vec<u8>)>, opcode_book: &OpcodeBook, version: u32) -> (r:
        Transpiler)
        ensures
            r.limits_view() == self.limits_view(),
            r.build_view() == self.build_view(),
            r.symbols() == self.symbols(),
            r.same_catalog_and_settings(self),
            forall|k: ScriptId|
                match last_decoded(scripts@, *opcode_book, version, k) {
                    Some(sv) => #[trigger] r.signatures_given().get_spec(k) matches Some(sig) && header_signature(
                        sig,
                        sv,
                    ),
                    None => r.signatures_given().get_spec(k) == self.signatures_given().get_spec(k),
                },
    {
        let mut t = self;
        let empty = NameTable::new();
        let empty_catalog = ScriptCatalog::default();
        let mut i: usize = 0;
        while i < scripts.len()
            invariant
                t.limits == self.limits,
                t.build == self.build,
                i <= scripts@.len(),
                t.symbol_table == self.symbol_table,
                t.same_catalog_and_settings(self),
                forall|k: ScriptId|
                    match last_decoded(scripts@.take(i as int), *opcode_book, version, k) {
                        Some(sv) => #[trigger] t.script_signatures.get_spec(k) matches Some(sig) && header_signature(
                            sig,
                            sv,
                        ),
                        None => t.script_signatures.get_spec(k) == self.signatures_given().get_spec(k),
                    },
            decreases scripts@.len() - i,
        {
            proof {
                assert(scripts@.take(i + 1).drop_last() =~= scripts@.take(i as int));
                assert(scripts@.take(i + 1).last() == scripts@[i as int]);
            }
            if let Ok(script) = decode_script(scripts[i].1.as_slice(), opcode_book, version) {
                let script_id = ScriptId(scripts[i].0 as i32);
                let return_type = crate::transpile::infer_return_type_for_script(
                    &script,
                    script_id,
                    version,
                    &empty,
                    &empty,
                    &empty_catalog,
                    &t.script_signatures,
                );
                t.script_signatures.insert(
                    script_id,
                    ScriptSignature {
                        arg_count_int: script.argument_count_int,
                        arg_count_obj: script.argument_count_object,
                        arg_count_long: script.argument_count_long,
                        return_count_int: 0,
                        return_count_obj: 0,
                        return_count_long: 0,
                        return_type,
                    },
                );
            }
            i = i + 1;
        }
        proof {
            assert(scripts@.take(i as int) =~= scripts@);
        }
        t
    }

    /// Sets the signature of one script.
    pub fn set_script_signature(&mut self, script_id: ScriptId, signature: ScriptSignature)
        ensures
            final(self).signature_of(script_id) == Some(signature),
            final(self).limits_view() == old(self).limits_view(),
            final(self).build_view() == old(self).build_view(),
    {
        self.script_signatures.insert(script_id, signature);
    }

    /// The signature of a script: the one given, else the catalog's.
    pub fn script_signature(&self, id: ScriptId) -> (r: Option<&ScriptSignature>)
        ensures
            match r {
                Some(sig) => self.signature_of(id) == Some(*sig),
                None => self.signature_of(id) is None,
            },
    {
        resolve_script_signature(&self.script_catalog, &self.script_signatures, id)
    }

    /// A script's name: its catalog export name, else the name given.
    pub fn script_name_for(&self, script_id: ScriptId) -> (r: Option<String>)
        ensures
            match r {
                Some(n) => self.name_of(script_id) == Some(n@),
                None => self.name_of(script_id) is None,
            },
    {
        match self.script_catalog.export_name(script_id) {
            Some(n) => Some(n.clone()),
            None => match self.symbol_table.script_names.get((script_id.0 as u32) as u64) {
                Some(n) => Some(n.clone()),
                None => None,
            },
        }
    }

    /// Decodes and transpiles a script. A `Limit` error when the bytes
    /// exceed the byte limit.
    pub fn transpile_from_bytes(&self, data: &[u8], opcode_book: &OpcodeBook, version: u32, script_id: ScriptId) -> (r:
        Result<TranspiledScript, Error>)
        ensures
            over_limit(self.limits_view().max_script_bytes, data@.len() as usize) ==> (r matches Err(e)
                && e.kind == ErrorKind::Limit && e.message@ == guard_message(
                script_id.0,
                "compiled size"@,
                data@.len(),
                " bytes"@,
                self.limits_view().max_script_bytes as nat,
            )),
            !over_limit(self.limits_view().max_script_bytes, data@.len() as usize) ==> (
                crate::script::decode_script_spec(*opcode_book, data@, version) is None ==> r is Err),
            r is Ok ==> crate::script::decode_script_spec(*opcode_book, data@, version) is Some,
    {
        if self.limits.max_script_bytes != 0 && data.len() > self.limits.max_script_bytes {
            return Err(guard_error(script_id, "compiled size", data.len(), " bytes", self.limits.max_script_bytes));
        }
        let script = decode_script(data, opcode_book, version)?;
        self.transpile(&script, script_id)
    }

    /// Transpiles a script to reversible structured source.
    pub fn transpile(&self, script: &CompiledScript, script_id: ScriptId) -> (r: Result<TranspiledScript, Error>)
        ensures
            r matches Ok(t) ==> exists|s: crate::transpile::structured::StructuredScript, decl: Declaration, m: crate::transpile::reversible_format::ReversibleMetadata|
                {
                    &&& crate::transpile::codegen::generated_declaration(decl, *script, script_id, self.symbols())
                    &&& crate::transpile::structured_writer::script_shell(s, decl, self.catalog(), self.signatures_given())
                    &&& m.build == self.build_view()
                    &&& m.script_id == script_id.0
                    &&& t.source@ == crate::transpile::reversible_format::reversible_text(
                        crate::transpile::structured::render_script(s, false),
                        crate::transpile::reversible_format::metadata_json_text(m),
                        crate::pragma::asm_text(script@),
                    )
                },
            r is Ok <== !over_limit(self.limits_view().max_instructions, script.code@.len() as usize)
                && self.limits_view().max_generated_bytes == 0,
            r matches Err(e) ==> e.kind == ErrorKind::Limit,
            over_limit(self.limits_view().max_instructions, script.code@.len() as usize) ==> (r matches Err(
                e,
            ) && e.kind == ErrorKind::Limit && e.message@ == guard_message(
                script_id.0,
                "instruction count"@,
                script.code@.len(),
                ""@,
                self.limits_view().max_instructions as nat,
            )),
            r matches Ok(t) ==> t.referenced_vars@ == var_refs(script.code@) && t.referenced_varbits@
                == varbit_refs(script.code@) && t.referenced_enums@ == enum_refs(script.code@)
                && t.referenced_scripts@ == script_refs(script.code@),
    {
        self.transpile_structured(script, script_id)
    }

    /// The declaration code generation gives a script.
    pub fn transpile_to_ast(&self, script: &CompiledScript, script_id: ScriptId) -> (r: Declaration)
        ensures
            crate::transpile::codegen::generated_declaration(r, *script, script_id, self.symbols()),
    {
        let codegen = CodeGen::new(&self.symbol_table);
        codegen.generate(script, script_id)
    }

    /// Transpiles a script: code generation, structuring and the reversible
    /// footer. `Limit` errors when the instruction count or the generated
    /// source length exceeds its (non-zero) limit.
    pub fn transpile_structured(&self, script: &CompiledScript, script_id: ScriptId) -> (r: Result<
        TranspiledScript,
        Error,
    >)
        ensures
            r matches Ok(t) ==> exists|s: crate::transpile::structured::StructuredScript, decl: Declaration, m: crate::transpile::reversible_format::ReversibleMetadata|
                {
                    &&& crate::transpile::codegen::generated_declaration(decl, *script, script_id, self.symbols())
                    &&& crate::transpile::structured_writer::script_shell(s, decl, self.catalog(), self.signatures_given())
                    &&& m.build == self.build_view()
                    &&& m.script_id == script_id.0
                    &&& t.source@ == crate::transpile::reversible_format::reversible_text(
                        crate::transpile::structured::render_script(s, false),
                        crate::transpile::reversible_format::metadata_json_text(m),
                        crate::pragma::asm_text(script@),
                    )
                },
            r is Ok <== !over_limit(self.limits_view().max_instructions, script.code@.len() as usize)
                && self.limits_view().max_generated_bytes == 0,
            r matches Err(e) ==> e.kind == ErrorKind::Limit,
            over_limit(self.limits_view().max_instructions, script.code@.len() as usize) ==> (r matches Err(
                e,
            ) && e.kind == ErrorKind::Limit && e.message@ == guard_message(
                script_id.0,
                "instruction count"@,
                script.code@.len(),
                ""@,
                self.limits_view().max_instructions as nat,
            )),
            r matches Ok(t) ==> t.referenced_vars@ == var_refs(script.code@) && t.referenced_varbits@
                == varbit_refs(script.code@) && t.referenced_enums@ == enum_refs(script.code@)
                && t.referenced_scripts@ == script_refs(script.code@),
    {
        let n = script.code.len();
        if self.limits.max_instructions != 0 && n > self.limits.max_instructions {
            return Err(guard_error(script_id, "instruction count", n, "", self.limits.max_instructions));
        }
        let codegen = CodeGen::new(&self.symbol_table);
        let decl = codegen.generate(script, script_id);
        let diagnostics = self.collect_transpile_diagnostics(script_id, &decl);
        let writer = StructuredWriter::new(
            &self.symbol_table.var_map,
            &self.symbol_table.component_names,
            &self.symbol_table.enum_value_names,
            &self.script_catalog,
            &self.script_signatures,
            self.build,
        );
        let structured_script = writer.build_script(&decl);
        let body_source = structured_script.render();
        let generated_bytes = crate::text::utf8_len(body_source.as_str());
        if self.limits.max_generated_bytes != 0 && generated_bytes > self.limits.max_generated_bytes {
            return Err(
                guard_error(script_id, "generated source", generated_bytes, " bytes", self.limits.max_generated_bytes),
            );
        }
        let diagnostics = self.finish_transpile_diagnostics(diagnostics, script_id, body_source.as_str());
        let metadata = build_reversible_metadata(
            &structured_script,
            &diagnostics,
            self.build,
            self.subbuild,
            self.script_catalog.get(script_id),
        );
        let mut source = body_source;
        let listing = script_to_asm(script);
        append_reversible_footer(&mut source, &metadata, listing.as_str());
        proof {
            assert(crate::transpile::codegen::generated_declaration(decl, *script, script_id, self.symbols()));
            assert(crate::transpile::structured_writer::script_shell(
                structured_script,
                decl,
                self.catalog(),
                self.signatures_given(),
            ));
        }
        Ok(
            TranspiledScript {
                source,
                referenced_vars: collect_var_refs(script),
                referenced_varbits: collect_varbit_refs(script),
                referenced_enums: collect_enum_refs(script),
                referenced_scripts: collect_script_refs(script),
                editable_structured: metadata.editable_structured,
                blocking_diagnostics: metadata.blocking_diagnostics.clone(),
                diagnostics,
            },
        )
    }

    /// The name diagnostics are reported under: the export name, else
    /// `script<id>`.
    fn source_id(&self, script_id: ScriptId) -> (r: String)
        ensures
            r@ == self.source_name(script_id),
    {
        match self.script_catalog.export_name(script_id) {
            Some(n) => n.clone(),
            None => cat_num("script", script_id.0 as i64),
        }
    }

    /// An error for each call of a script the catalog cannot resolve, and a
    /// note for each variable or variable bit without a name.
    fn collect_transpile_diagnostics(&self, script_id: ScriptId, decl: &Declaration) -> (r: Diagnostics)
        ensures
            diag_views(r.diagnostics@) == self.instructions_diags(script_id, decl.instructions@),
    {
        let mut diagnostics = Diagnostics::new();
        let source_id = self.source_id(script_id);
        let mut i: usize = 0;
        while i < decl.instructions.len()
            invariant
                i <= decl.instructions@.len(),
                source_id@ == self.source_name(script_id),
                diag_views(diagnostics.diagnostics@) == self.instructions_diags(
                    script_id,
                    decl.instructions@.take(i as int),
                ),
            decreases decl.instructions@.len() - i,
        {
            proof {
                assert(decl.instructions@.take(i + 1).drop_last() =~= decl.instructions@.take(i as int));
                assert(decl.instructions@.take(i + 1).last() == decl.instructions@[i as int]);
            }
            let ghost before = diag_views(diagnostics.diagnostics@);
            let instruction = &decl.instructions[i];
            let start = instruction.index;
            let end = if instruction.index == usize::MAX {
                0
            } else {
                instruction.index + 1
            };
            let span = Span::new(start, end).with_source(source_id.clone());
            let cmd = chars_of(instruction.command.as_str());
            if crate::text::chars_eq(&cmd, "gosub_with_params") {
                if let OperandNode::Script(id) = instruction.operand {
                    if self.script_catalog.resolve_call_target(id).is_none() {
                        diagnostics.error_at(span, cat_num("unresolved script ref ", id as i64));
                    }
                }
            } else if crate::transpile::expr_recovery::is_var_command(&cmd) {
                if let OperandNode::VarRef(v) = &instruction.operand {
                    if v.name.is_none() {
                        let mut m = string_from("unresolved var ref ");
                        push_str(&mut m, v.domain.as_label());
                        push_str(&mut m, ":");
                        push_u64(&mut m, v.id.0 as u64);
                        diagnostics.note_at(span, m);
                    }
                }
            } else if crate::transpile::expr_recovery::is_varbit_command(&cmd) {
                if let OperandNode::VarBitRef(v) = &instruction.operand {
                    if v.name.is_none() {
                        diagnostics.note_at(span, cat_num("unresolved varbit ref ", v.id.0 as i64));
                    }
                }
            }
            proof {
                assert(diag_views(diagnostics.diagnostics@) =~= before + self.instruction_diags(
                    script_id,
                    decl.instructions@[i as int],
                ));
            }
            i = i + 1;
        }
        proof {
            assert(decl.instructions@.take(i as int) =~= decl.instructions@);
        }
        diagnostics
    }

    /// Warnings for a residual `goto(` or `pop()` in the source, and a note
    /// for a commented branch.
    fn finish_transpile_diagnostics(&self, diagnostics: Diagnostics, script_id: ScriptId, source: &str) -> (r:
        Diagnostics)
        ensures
            ({
                let sp = Some((0usize, 0usize, Some(self.source_name(script_id))));
                let w1 = if occurs_in(source@, "goto("@) {
                    seq![
                        (
                            crate::transpile::diagnostics::Severity::Warning,
                            "parity miss: residual goto in output"@,
                            sp,
                        ),
                    ]
                } else {
                    Seq::empty()
                };
                let w2 = if occurs_in(source@, "pop()"@) {
                    seq![
                        (
                            crate::transpile::diagnostics::Severity::Warning,
                            "bad stack state: residual pop() in output"@,
                            sp,
                        ),
                    ]
                } else {
                    Seq::empty()
                };
                let n = if occurs_in(source@, "// if ("@) {
                    seq![
                        (
                            crate::transpile::diagnostics::Severity::Note,
                            "parity miss: commented branch remains in structured output"@,
                            sp,
                        ),
                    ]
                } else {
                    Seq::empty()
                };
                diag_views(r.diagnostics@) == diag_views(diagnostics.diagnostics@) + w1 + w2 + n
            }),
    {
        let ghost d0 = diag_views(diagnostics.diagnostics@);
        let mut diagnostics = diagnostics;
        let sid = self.source_id(script_id);
        let ghost spv = Some((0usize, 0usize, Some(sid@)));
        let ghost after1 = if occurs_in(source@, "goto("@) {
            d0.push((crate::transpile::diagnostics::Severity::Warning, "parity miss: residual goto in output"@, spv))
        } else {
            d0
        };
        if contains_sub_str(source, "goto(") {
            let sp = Span::new(0, 0).with_source(sid.clone());
            diagnostics.warning_at(sp, string_from("parity miss: residual goto in output"));
            proof {
                assert(diag_views(diagnostics.diagnostics@) =~= after1);
            }
        }
        let ghost after2 = if occurs_in(source@, "pop()"@) {
            after1.push(
                (crate::transpile::diagnostics::Severity::Warning, "bad stack state: residual pop() in output"@, spv),
            )
        } else {
            after1
        };
        if contains_sub_str(source, "pop()") {
            let sp = Span::new(0, 0).with_source(sid.clone());
            diagnostics.warning_at(sp, string_from("bad stack state: residual pop() in output"));
            proof {
                assert(diag_views(diagnostics.diagnostics@) =~= after2);
            }
        }
        if contains_sub_str(source, "// if (") {
            let sp = Span::new(0, 0).with_source(sid.clone());
            diagnostics.note_at(sp, string_from("parity miss: commented branch remains in structured output"));
        }
        proof {
            assert(diag_views(diagnostics.diagnostics@) =~= d0 + (if occurs_in(source@, "goto("@) {
                seq![
                    (
                        crate::transpile::diagnostics::Severity::Warning,
                        "parity miss: residual goto in output"@,
                        spv,
                    ),
                ]
            } else {
                Seq::empty()
            }) + (if occurs_in(source@, "pop()"@) {
                seq![
                    (
                        crate::transpile::diagnostics::Severity::Warning,
                        "bad stack state: residual pop() in output"@,
                        spv,
                    ),
                ]
            } else {
                Seq::empty()
            }) + (if occurs_in(source@, "// if ("@) {
                seq![
                    (
                        crate::transpile::diagnostics::Severity::Note,
                        "parity miss: commented branch remains in structured output"@,
                        spv,
                    ),
                ]
            } else {
                Seq::empty()
            }));
        }
        diagnostics
    }
}

impl Default for Transpiler {
    fn default() -> (r: Transpiler)
        ensures
            r.limits_view() == (TranspileLimits {
                max_script_bytes: 16777216,
                max_instructions: 25000,
                max_generated_bytes: 4194304,
            }),
            r.build_view() == 0,
    {
        Transpiler::new()
    }
}

} // verus!
