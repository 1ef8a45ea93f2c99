//! Transpiling compiled scripts into structured source.
pub mod ast;
pub mod diagnostics;
pub mod scope;
pub mod names;
pub mod catalog;
pub mod codegen;
pub mod effects;
pub mod exprs;
pub mod expr_recovery;
pub mod structured;
pub mod cfg;
pub mod graph;
pub mod structurer;
pub mod structured_writer;
pub mod reversible_format;
pub mod transpiler;
pub mod runescript;
pub mod rs_parse;
pub mod sema;

use crate::script::{CompiledScript, MIN_SCRIPT_BUILD};
use crate::transpile::ast::ScriptId;
use crate::transpile::catalog::{ScriptCatalog, SignatureMap};
use crate::transpile::cfg::{build_cfg, detect_return_type, emit_structured};
use crate::transpile::codegen::CodeGen;
use crate::transpile::expr_recovery::{detect_return_type_from_recovered, ExprRecovery, ReturnValueKind};
use crate::transpile::scope::{NameTable, SymbolTable};
use crate::script::{decode_script, decode_script_spec, opt_view, OpcodeBook, ScriptV};
use crate::text::{chars_of, dec_int, push_str, str_eq};
use crate::transpile::catalog::{ScriptGroupId, ScriptMetadata, ScriptSignature};
use crate::transpile::diagnostics::{Diagnostic, Severity};
use crate::transpile::names::{export_name_spec, parse_script_name_tag, parse_tag_spec, sanitize_export_name, ScriptKind};
use vstd::prelude::*;

verus! {

/// The return type a script's code implies: from its structured form for
/// builds that have a reliable block graph, else from the recovered
/// statements directly. It is `void` or a value type, with `| void` when
/// some path returns nothing.
pub fn infer_return_type_for_script(
    script: &CompiledScript,
    script_id: ScriptId,
    build: u32,
    component_names: &NameTable,
    enum_value_names: &NameTable,
    script_catalog: &ScriptCatalog,
    script_signatures: &SignatureMap,
) -> (r: String)
    ensures
        r@ == "void"@ || exists|k: ReturnValueKind, v: bool| r@ == expr_recovery::return_type_label(k, v),
        build >= MIN_SCRIPT_BUILD ==> exists|stmts: Seq<crate::transpile::structured::StructuredStmt>|
            r@ == crate::transpile::cfg::structured_return_type(stmts, None),
        build < MIN_SCRIPT_BUILD ==> exists|rec: Seq<Option<expr_recovery::RecoveredStmt>>|
            rec.len() == script.code@.len() && r@ == expr_recovery::recovered_return_type(rec, None),
{
    let symbol_table = SymbolTable::new();
    let codegen = CodeGen::new(&symbol_table);
    let decl = codegen.generate(script, script_id);
    if build >= MIN_SCRIPT_BUILD {
        let blocks = build_cfg(
            &decl.instructions,
            &symbol_table.var_map,
            component_names,
            enum_value_names,
            script_catalog,
            script_signatures,
        );
        let structured = emit_structured(&blocks);
        return crate::text::string_from(detect_return_type(&structured));
    }
    let recovered = ExprRecovery::new(
        &decl.instructions,
        &symbol_table.var_map,
        component_names,
        enum_value_names,
        script_catalog,
        script_signatures,
    ).recover();
    crate::text::string_from(detect_return_type_from_recovered(&recovered))
}


// ---------------------------------------------------------------------------
// Building the script catalog
// ---------------------------------------------------------------------------

/// A script's catalog entry before its export name is settled.
pub struct PendingScriptMetadata {
    pub packed_id: ScriptId,
    pub group_id: ScriptGroupId,
    pub file_id: u16,
    pub kind: ScriptKind,
    pub raw_name: Option<String>,
    pub short_name: String,
    pub signature: ScriptSignature,
}

/// The kind and short name of a script: those of its `[kind,name]` tag,
/// else the name of its group, else `script<group>`.
pub open spec fn kind_and_short_name(name: Option<Seq<char>>, groups: NameTable, group: int) -> (
    ScriptKind,
    Seq<char>,
) {
    let fallback = match groups.get_spec(group as u64) {
        Some(g) => g,
        None => "script"@ + dec_int(group),
    };
    match name {
        Some(n) => match parse_tag_spec(n) {
            Some((k, s)) => (k, s),
            None => (ScriptKind::Unknown, fallback),
        },
        None => (ScriptKind::Unknown, fallback),
    }
}

/// `p` is the pending entry of the script `sv` packed as `raw`: its ids,
/// name, argument counts, no counted returns, and a return type that is
/// `unknown` unless return types are inferred (then `void` or a type
/// label).
pub open spec fn pending_matches(p: PendingScriptMetadata, raw: u32, sv: ScriptV, groups: NameTable, infer: bool) -> bool {
    let group = (raw / 65536) as int;
    let ks = kind_and_short_name(sv.name, groups, group);
    &&& p.packed_id == ScriptId(raw as i32)
    &&& p.group_id == ScriptGroupId(group as i32)
    &&& p.file_id == (raw % 65536) as u16
    &&& p.kind == ks.0
    &&& p.short_name@ == ks.1
    &&& opt_view(p.raw_name) == sv.name
    &&& p.signature.arg_count_int == sv.argument_count_int
    &&& p.signature.arg_count_obj == sv.argument_count_object
    &&& p.signature.arg_count_long == sv.argument_count_long
    &&& p.signature.return_count_int == 0
    &&& p.signature.return_count_obj == 0
    &&& p.signature.return_count_long == 0
    &&& !infer ==> p.signature.return_type@ == "unknown"@
    &&& infer ==> (p.signature.return_type@ == "void"@ || exists|k: ReturnValueKind, v: bool|
        p.signature.return_type@ == expr_recovery::return_type_label(k, v))
}

/// The export name a script would have alone: its sanitized short name,
/// or `script<group>` when that is empty or `script`.
pub open spec fn base_export_name(p: PendingScriptMetadata) -> Seq<char> {
    let b = export_name_spec(p.short_name@);
    if b.len() == 0 || b == "script"@ {
        "script"@ + dec_int(p.group_id.0 as int)
    } else {
        b
    }
}

/// How often `x` occurs in `s`.
pub open spec fn count_of(s: Seq<Seq<char>>, x: Seq<char>) -> nat
    decreases s.len(),
{
    if s.len() == 0 {
        0
    } else {
        count_of(s.drop_last(), x) + if s.last() == x {
            1nat
        } else {
            0nat
        }
    }
}

/// The base export names of the pending entries.
pub open spec fn base_names(ps: Seq<PendingScriptMetadata>) -> Seq<Seq<char>> {
    ps.map_values(|p: PendingScriptMetadata| base_export_name(p))
}

/// The name of entry `i` after the first pass: its base name when no other
/// entry shares it, else the base name with the kind's suffix (or the
/// group id) after an underscore.
pub open spec fn first_pass_name(ps: Seq<PendingScriptMetadata>, i: int) -> Seq<char> {
    let b = base_names(ps)[i];
    if count_of(base_names(ps), b) == 1 {
        b
    } else {
        match ps[i].kind {
            ScriptKind::ClientScript => b + "_clientscript"@,
            ScriptKind::Proc => b + "_proc"@,
            ScriptKind::Unknown => b + "_"@ + dec_int(ps[i].group_id.0 as int),
        }
    }
}

/// The first-pass names of the pending entries.
pub open spec fn first_pass_names(ps: Seq<PendingScriptMetadata>) -> Seq<Seq<char>> {
    Seq::new(ps.len(), |i: int| first_pass_name(ps, i))
}

/// The export name of entry `i`: its first-pass name, with `_<packed id>`
/// appended when another entry got the same.
pub open spec fn final_export_name(ps: Seq<PendingScriptMetadata>, i: int) -> Seq<char> {
    let f = first_pass_names(ps)[i];
    if count_of(first_pass_names(ps), f) > 1 {
        f + "_"@ + dec_int(ps[i].packed_id.0 as int)
    } else {
        f
    }
}

/// The packed ids of the entries among the first `upto` whose base name is
/// `b`, joined with `, `.
pub open spec fn ids_with_base(ps: Seq<PendingScriptMetadata>, b: Seq<char>, upto: int) -> Seq<char>
    decreases upto,
{
    if upto <= 0 {
        Seq::empty()
    } else {
        let prev = ids_with_base(ps, b, upto - 1);
        if base_names(ps)[upto - 1] == b {
            if prev.len() == 0 {
                dec_int(ps[upto - 1].packed_id.0 as int)
            } else {
                prev + ", "@ + dec_int(ps[upto - 1].packed_id.0 as int)
            }
        } else {
            prev
        }
    }
}

/// Entry `i` is the first with its base name, and others share it.
pub open spec fn first_ambiguous(ps: Seq<PendingScriptMetadata>, i: int) -> bool {
    &&& count_of(base_names(ps), base_names(ps)[i]) > 1
    &&& forall|j: int| 0 <= j < i ==> #[trigger] base_names(ps)[j] != base_names(ps)[i]
}

/// The warnings on shared base names among the first `upto` entries, one
/// per name at its first entry.
pub open spec fn ambiguity_messages(ps: Seq<PendingScriptMetadata>, upto: int) -> Seq<Seq<char>>
    decreases upto,
{
    if upto <= 0 {
        Seq::empty()
    } else {
        let prev = ambiguity_messages(ps, upto - 1);
        let i = upto - 1;
        if first_ambiguous(ps, i) {
            prev.push(
                "ambiguous script export name '"@ + base_names(ps)[i] + "' for packed ids ["@ + ids_with_base(
                    ps,
                    base_names(ps)[i],
                    ps.len() as int,
                ) + "]; applying disambiguation"@,
            )
        } else {
            prev
        }
    }
}

/// The warnings on first-pass names that still collide, among the first
/// `upto` entries, one per entry.
pub open spec fn collision_messages(ps: Seq<PendingScriptMetadata>, upto: int) -> Seq<Seq<char>>
    decreases upto,
{
    if upto <= 0 {
        Seq::empty()
    } else {
        let prev = collision_messages(ps, upto - 1);
        let i = upto - 1;
        let f = first_pass_names(ps)[i];
        if count_of(first_pass_names(ps), f) > 1 {
            prev.push(
                "ambiguous disambiguated export '"@ + f + "' still collided; appending packed id "@ + dec_int(
                    ps[i].packed_id.0 as int,
                ),
            )
        } else {
            prev
        }
    }
}

/// The index of the last entry for `id`, or -1.
pub open spec fn last_entry_index(ps: Seq<PendingScriptMetadata>, id: ScriptId) -> int
    decreases ps.len(),
{
    if ps.len() == 0 {
        -1
    } else if ps.last().packed_id == id {
        ps.len() - 1
    } else {
        last_entry_index(ps.drop_last(), id)
    }
}

/// `m` is the catalog entry made of pending entry `i`.
pub open spec fn entry_made_of(m: ScriptMetadata, ps: Seq<PendingScriptMetadata>, i: int) -> bool {
    let p = ps[i];
    &&& m.packed_id == p.packed_id
    &&& m.group_id == p.group_id
    &&& m.file_id == p.file_id
    &&& m.kind == p.kind
    &&& opt_view(m.raw_name) == opt_view(p.raw_name)
    &&& m.short_name@ == p.short_name@
    &&& m.export_name@ == final_export_name(ps, i)
    &&& m.module_name@ == final_export_name(ps, i)
    &&& m.signature.arg_count_int == p.signature.arg_count_int
    &&& m.signature.arg_count_obj == p.signature.arg_count_obj
    &&& m.signature.arg_count_long == p.signature.arg_count_long
    &&& m.signature.return_count_int == p.signature.return_count_int
    &&& m.signature.return_count_obj == p.signature.return_count_obj
    &&& m.signature.return_count_long == p.signature.return_count_long
    &&& m.signature.return_type@ == p.signature.return_type@
}

/// Collects the scripts of a cache into a catalog, settling export names.
pub struct ScriptCatalogBuilder<'a> {
    group_names: &'a NameTable,
    opcode_book: &'a OpcodeBook,
    version: u32,
    infer_return_types: bool,
    pending: Vec<PendingScriptMetadata>,
}

impl<'a> ScriptCatalogBuilder<'a> {
    /// The entries added so far, in order.
    pub closed spec fn pending_view(&self) -> Seq<PendingScriptMetadata> {
        self.pending@
    }

    /// Whether return types are inferred from the code.
    pub closed spec fn infers_return_types(&self) -> bool {
        self.infer_return_types
    }

    /// The group names short names fall back to.
    pub closed spec fn groups_view(&self) -> NameTable {
        *self.group_names
    }

    /// The opcode table scripts are decoded with.
    pub closed spec fn book_view(&self) -> OpcodeBook {
        *self.opcode_book
    }

    /// The client build scripts are decoded for.
    pub closed spec fn version_view(&self) -> u32 {
        self.version
    }

    /// A builder with no scripts yet, inferring return types.
    pub fn new(group_names: &'a NameTable, opcode_book: &'a OpcodeBook, version: u32) -> (r: Self)
        ensures
            r.pending_view() == Seq::<PendingScriptMetadata>::empty(),
            r.infers_return_types(),
            r.groups_view() == *group_names,
            r.book_view() == *opcode_book,
            r.version_view() == version,
    {
        ScriptCatalogBuilder {
            group_names,
            opcode_book,
            version,
            infer_return_types: true,
            pending: Vec::new(),
        }
    }

    /// The same builder, recording `unknown` return types.
    pub fn without_return_types(self) -> (r: Self)
        ensures
            r.pending_view() == self.pending_view(),
            !r.infers_return_types(),
            r.groups_view() == self.groups_view(),
            r.book_view() == self.book_view(),
            r.version_view() == self.version_view(),
    {
        ScriptCatalogBuilder { infer_return_types: false, ..self }
    }

    /// Adds the script packed as `packed_id_raw`; bytes that do not decode
    /// add nothing.
    pub fn add_script(&mut self, packed_id_raw: u32, data: &[u8])
        ensures
            final(self).groups_view() == old(self).groups_view(),
            final(self).book_view() == old(self).book_view(),
            final(self).version_view() == old(self).version_view(),
            final(self).infers_return_types() == old(self).infers_return_types(),
            match decode_script_spec(old(self).book_view(), data@, old(self).version_view()) {
                Some(sv) => {
                    &&& final(self).pending_view().len() == old(self).pending_view().len() + 1
                    &&& final(self).pending_view().drop_last() == old(self).pending_view()
                    &&& pending_matches(
                        final(self).pending_view().last(),
                        packed_id_raw,
                        sv,
                        old(self).groups_view(),
                        old(self).infers_return_types(),
                    )
                },
                None => final(self).pending_view() == old(self).pending_view(),
            },
    {
        let script = match decode_script(data, self.opcode_book, self.version) {
            Ok(s) => s,
            Err(_) => return,
        };
        let ghost sv = script@;
        let group: u32 = packed_id_raw / 65536;
        let packed_id = ScriptId(packed_id_raw as i32);
        let group_id = ScriptGroupId(group as i32);
        let file_id = (packed_id_raw % 65536) as u16;
        let parsed = match &script.name {
            Some(n) => parse_script_name_tag(n.as_str()),
            None => None,
        };
        let (kind, short_name) = match parsed {
            Some(p) => (p.kind, p.short_name),
            None => {
                let s = match self.group_names.get(group as u64) {
                    Some(g) => g.clone(),
                    None => crate::transpile::exprs::cat_num("script", group as i64),
                };
                (ScriptKind::Unknown, s)
            },
        };
        let return_type = if self.infer_return_types {
            let empty_names = NameTable::new();
            let empty_catalog = ScriptCatalog::default();
            let empty_signatures = SignatureMap::new();
            infer_return_type_for_script(
                &script,
                packed_id,
                self.version,
                &empty_names,
                &empty_names,
                &empty_catalog,
                &empty_signatures,
            )
        } else {
            crate::text::string_from("unknown")
        };
        let signature = ScriptSignature {
            arg_count_int: script.argument_count_int,
            arg_count_obj: script.argument_count_object,
            arg_count_long: script.argument_count_long,
            return_count_int: 0,
            return_count_obj: 0,
            return_count_long: 0,
            return_type,
        };
        let p = PendingScriptMetadata {
            packed_id,
            group_id,
            file_id,
            kind,
            raw_name: script.name,
            short_name,
            signature,
        };
        proof {
            assert(group as int == (packed_id_raw / 65536) as int);
        }
        self.pending.push(p);
        proof {
            assert(self.pending@.drop_last() =~= old(self).pending@);
        }
    }

    /// The catalog of the added scripts, in order (a later script with the
    /// same packed id replacing an earlier one), each named by
    /// `final_export_name`, with a warning for each shared base name and
    /// for each name that still collided.
    pub fn build(self) -> (r: ScriptCatalog)
        ensures
            r.diagnostics@.map_values(|d: Diagnostic| d.message@) == ambiguity_messages(
                self.pending_view(),
                self.pending_view().len() as int,
            ) + collision_messages(self.pending_view(), self.pending_view().len() as int),
            forall|k: int| 0 <= k < r.diagnostics@.len() ==> (#[trigger] r.diagnostics@[k]).severity
                == Severity::Warning && r.diagnostics@[k].span is None,
            forall|id: ScriptId|
                #![trigger r.get_spec(id)]
                {
                    let i = last_entry_index(self.pending_view(), id);
                    &&& i < 0 ==> r.get_spec(id) is None
                    &&& i >= 0 ==> (r.get_spec(id) matches Some(m) && entry_made_of(m, self.pending_view(), i))
                },
    {
        let ps = self.pending;
        let ghost psv = ps@;
        let n = ps.len();
        let bases = collect_base_names(&ps);
        let firsts = collect_first_pass_names(&ps, &bases);
        let mut diagnostics: Vec<Diagnostic> = Vec::new();
        push_ambiguity_warnings(&ps, &bases, &mut diagnostics);
        push_collision_warnings(&ps, &firsts, &mut diagnostics);
        let mut catalog = ScriptCatalog { entries: Vec::new(), diagnostics };
        let mut i: usize = 0;
        while i < n
            invariant
                n == psv.len(),
                ps@ == psv,
                i <= n,
                firsts@.len() == n,
                forall|j: int| 0 <= j < n ==> (#[trigger] firsts@[j])@ == first_pass_names(psv)[j],
                catalog.diagnostics@.map_values(|d: Diagnostic| d.message@) == ambiguity_messages(psv, n as int)
                    + collision_messages(psv, n as int),
                forall|k: int| 0 <= k < catalog.diagnostics@.len() ==> (#[trigger] catalog.diagnostics@[k]).severity
                    == Severity::Warning && catalog.diagnostics@[k].span is None,
                forall|id: ScriptId|
                    #![trigger catalog.get_spec(id)]
                    {
                        let j = last_entry_index(psv.take(i as int), id);
                        &&& j < 0 ==> catalog.get_spec(id) is None
                        &&& j >= 0 ==> (catalog.get_spec(id) matches Some(m) && entry_made_of(m, psv, j))
                    },
            decreases n - i,
        {
            let name = export_name_at(&ps, &firsts, i);
            let p = &ps[i];
            let raw_name = match &p.raw_name {
                Some(r) => Some(r.clone()),
                None => None,
            };
            let m = ScriptMetadata {
                packed_id: p.packed_id,
                group_id: p.group_id,
                file_id: p.file_id,
                kind: p.kind,
                raw_name,
                short_name: p.short_name.clone(),
                export_name: name.clone(),
                module_name: name,
                signature: ScriptSignature {
                    arg_count_int: p.signature.arg_count_int,
                    arg_count_obj: p.signature.arg_count_obj,
                    arg_count_long: p.signature.arg_count_long,
                    return_count_int: p.signature.return_count_int,
                    return_count_obj: p.signature.return_count_obj,
                    return_count_long: p.signature.return_count_long,
                    return_type: p.signature.return_type.clone(),
                },
            };
            let ghost before = catalog;
            proof {
                assert(entry_made_of(m, psv, i as int));
            }
            catalog.insert(m);
            proof {
                assert(psv.take(i + 1).drop_last() =~= psv.take(i as int));
                assert(psv.take(i + 1).last() == psv[i as int]);
                assert forall|id: ScriptId| #![trigger catalog.get_spec(id)] {
                    let j = last_entry_index(psv.take(i + 1), id);
                    &&& j < 0 ==> catalog.get_spec(id) is None
                    &&& j >= 0 ==> (catalog.get_spec(id) matches Some(mm) && entry_made_of(mm, psv, j))
                } by {
                    if id != psv[i as int].packed_id {
                        assert(before.get_spec(id) == catalog.get_spec(id));
                    }
                }
            }
            i = i + 1;
        }
        proof {
            assert(psv.take(n as int) =~= psv);
        }
        catalog
    }
}

/// The export name of entry `i`.
fn export_name_at(ps: &Vec<PendingScriptMetadata>, firsts: &Vec<String>, i: usize) -> (r: String)
    requires
        i < ps@.len(),
        firsts@.len() == ps@.len(),
        forall|j: int| 0 <= j < ps@.len() ==> (#[trigger] firsts@[j])@ == first_pass_names(ps@)[j],
    ensures
        r@ == final_export_name(ps@, i as int),
{
    let f = firsts[i].as_str();
    let c = count_strings(firsts, f);
    proof {
        assert(crate::text::views(firsts@) =~= first_pass_names(ps@));
    }
    if c > 1 {
        let mut s = crate::text::string_from(f);
        push_str(&mut s, "_");
        crate::text::push_i64(&mut s, ps[i].packed_id.0 as i64);
        s
    } else {
        firsts[i].clone()
    }
}

/// How often `x` occurs among `v`.
fn count_strings(v: &Vec<String>, x: &str) -> (r: usize)
    ensures
        r == count_of(crate::text::views(v@), x@),
{
    let mut c: usize = 0;
    let mut i: usize = 0;
    while i < v.len()
        invariant
            i <= v@.len(),
            c <= i,
            c == count_of(crate::text::views(v@).take(i as int), x@),
        decreases v@.len() - i,
    {
        proof {
            assert(crate::text::views(v@).take(i + 1).drop_last() =~= crate::text::views(v@).take(i as int));
            assert(crate::text::views(v@).take(i + 1).last() == v@[i as int]@);
        }
        if str_eq(v[i].as_str(), x) {
            c = c + 1;
        }
        i = i + 1;
    }
    proof {
        assert(crate::text::views(v@).take(i as int) =~= crate::text::views(v@));
    }
    c
}

/// The base export names of the entries.
fn collect_base_names(ps: &Vec<PendingScriptMetadata>) -> (r: Vec<String>)
    ensures
        crate::text::views(r@) == base_names(ps@),
{
    let mut out: Vec<String> = Vec::new();
    let mut i: usize = 0;
    while i < ps.len()
        invariant
            i <= ps@.len(),
            crate::text::views(out@) == base_names(ps@).take(i as int),
        decreases ps@.len() - i,
    {
        let b = sanitize_export_name(ps[i].short_name.as_str());
        let bc = chars_of(b.as_str());
        let name = if bc.len() == 0 || crate::text::chars_eq(&bc, "script") {
            crate::transpile::exprs::cat_num("script", ps[i].group_id.0 as i64)
        } else {
            b
        };
        let ghost before = out@;
        out.push(name);
        proof {
            assert(crate::text::views(out@) =~= crate::text::views(before).push(name@));
            assert(base_names(ps@).take(i + 1) =~= base_names(ps@).take(i as int).push(base_export_name(ps@[i as int])));
        }
        i = i + 1;
    }
    proof {
        assert(base_names(ps@).take(i as int) =~= base_names(ps@));
    }
    out
}

/// The first-pass names of the entries.
fn collect_first_pass_names(ps: &Vec<PendingScriptMetadata>, bases: &Vec<String>) -> (r: Vec<String>)
    requires
        crate::text::views(bases@) == base_names(ps@),
    ensures
        r@.len() == ps@.len(),
        forall|j: int| 0 <= j < ps@.len() ==> (#[trigger] r@[j])@ == first_pass_names(ps@)[j],
{
    proof {
        assert(crate::text::views(bases@).len() == bases@.len());
        assert(base_names(ps@).len() == ps@.len());
    }
    let mut out: Vec<String> = Vec::new();
    let mut i: usize = 0;
    while i < ps.len()
        invariant
            i <= ps@.len(),
            crate::text::views(bases@) == base_names(ps@),
            bases@.len() == ps@.len(),
            out@.len() == i,
            forall|j: int| 0 <= j < i ==> (#[trigger] out@[j])@ == first_pass_names(ps@)[j],
        decreases ps@.len() - i,
    {
        proof {
            assert(bases@[i as int]@ == crate::text::views(bases@)[i as int]);
        }
        let b = bases[i].as_str();
        let c = count_strings(bases, b);
        let name = if c == 1 {
            bases[i].clone()
        } else {
            let mut s = crate::text::string_from(b);
            match ps[i].kind {
                ScriptKind::ClientScript => push_str(&mut s, "_clientscript"),
                ScriptKind::Proc => push_str(&mut s, "_proc"),
                ScriptKind::Unknown => {
                    push_str(&mut s, "_");
                    crate::text::push_i64(&mut s, ps[i].group_id.0 as i64);
                },
            }
            s
        };
        let ghost before = out@;
        out.push(name);
        proof {
            assert forall|j: int| 0 <= j < i + 1 implies (#[trigger] out@[j])@ == first_pass_names(ps@)[j] by {
                if j < i {
                    assert(out@[j] == before[j]);
                }
            }
        }
        i = i + 1;
    }
    out
}

/// The packed ids of the entries whose base name is `b`, joined with `, `.
fn ids_text(ps: &Vec<PendingScriptMetadata>, bases: &Vec<String>, b: &str) -> (r: String)
    requires
        crate::text::views(bases@) == base_names(ps@),
    ensures
        r@ == ids_with_base(ps@, b@, ps@.len() as int),
{
    proof {
        assert(crate::text::views(bases@).len() == bases@.len());
        assert(base_names(ps@).len() == ps@.len());
    }
    let mut out = String::new();
    let mut any = false;
    let mut i: usize = 0;
    while i < ps.len()
        invariant
            i <= ps@.len(),
            crate::text::views(bases@) == base_names(ps@),
            bases@.len() == ps@.len(),
            out@ == ids_with_base(ps@, b@, i as int),
            any <==> out@.len() > 0,
        decreases ps@.len() - i,
    {
        proof {
            assert(bases@[i as int]@ == crate::text::views(bases@)[i as int]);
        }
        if str_eq(bases[i].as_str(), b) {
            if any {
                push_str(&mut out, ", ");
            }
            crate::text::push_i64(&mut out, ps[i].packed_id.0 as i64);
            proof {
                let v = ps@[i as int].packed_id.0 as int;
                if v >= 0 {
                    crate::text::lemma_dec_nat_digits(v as nat);
                }
            }
            any = true;
        }
        i = i + 1;
    }
    out
}

/// Appends a warning for each base name that several entries share, at
/// its first entry.
fn push_ambiguity_warnings(ps: &Vec<PendingScriptMetadata>, bases: &Vec<String>, out: &mut Vec<Diagnostic>)
    requires
        crate::text::views(bases@) == base_names(ps@),
        old(out)@.len() == 0,
    ensures
        final(out)@.map_values(|d: Diagnostic| d.message@) == ambiguity_messages(ps@, ps@.len() as int),
        forall|k: int| 0 <= k < final(out)@.len() ==> (#[trigger] final(out)@[k]).severity == Severity::Warning
            && final(out)@[k].span is None,
{
    proof {
        assert(crate::text::views(bases@).len() == bases@.len());
        assert(base_names(ps@).len() == ps@.len());
    }
    let mut i: usize = 0;
    while i < ps.len()
        invariant
            i <= ps@.len(),
            crate::text::views(bases@) == base_names(ps@),
            bases@.len() == ps@.len(),
            out@.map_values(|d: Diagnostic| d.message@) == ambiguity_messages(ps@, i as int),
            forall|k: int| 0 <= k < out@.len() ==> (#[trigger] out@[k]).severity == Severity::Warning
                && out@[k].span is None,
        decreases ps@.len() - i,
    {
        proof {
            assert(bases@[i as int]@ == crate::text::views(bases@)[i as int]);
        }
        let b = bases[i].as_str();
        let c = count_strings(bases, b);
        let mut seen = false;
        let mut j: usize = 0;
        while j < i
            invariant
                j <= i < ps@.len(),
                crate::text::views(bases@) == base_names(ps@),
                bases@.len() == ps@.len(),
            bases@.len() == ps@.len(),
                b@ == base_names(ps@)[i as int],
                seen <==> exists|q: int| 0 <= q < j && #[trigger] base_names(ps@)[q] == base_names(ps@)[i as int],
            decreases i - j,
        {
            proof {
                assert(bases@[j as int]@ == crate::text::views(bases@)[j as int]);
            }
            if str_eq(bases[j].as_str(), b) {
                seen = true;
            }
            j = j + 1;
        }
        if c > 1 && !seen {
            let mut msg = crate::text::string_from("ambiguous script export name '");
            push_str(&mut msg, b);
            push_str(&mut msg, "' for packed ids [");
            let ids = ids_text(ps, bases, b);
            push_str(&mut msg, ids.as_str());
            push_str(&mut msg, "]; applying disambiguation");
            let ghost before = out@;
            out.push(Diagnostic::warning(msg));
            proof {
                assert(out@.map_values(|d: Diagnostic| d.message@) =~= before.map_values(|d: Diagnostic| d.message@).push(
                    msg@,
                ));
            }
        }
        i = i + 1;
    }
}

/// Appends a warning for each entry whose first-pass name another entry
/// also got.
fn push_collision_warnings(ps: &Vec<PendingScriptMetadata>, firsts: &Vec<String>, out: &mut Vec<Diagnostic>)
    requires
        firsts@.len() == ps@.len(),
        forall|j: int| 0 <= j < ps@.len() ==> (#[trigger] firsts@[j])@ == first_pass_names(ps@)[j],
        forall|k: int| 0 <= k < old(out)@.len() ==> (#[trigger] old(out)@[k]).severity == Severity::Warning
            && old(out)@[k].span is None,
    ensures
        final(out)@.map_values(|d: Diagnostic| d.message@) == old(out)@.map_values(|d: Diagnostic| d.message@)
            + collision_messages(ps@, ps@.len() as int),
        forall|k: int| 0 <= k < final(out)@.len() ==> (#[trigger] final(out)@[k]).severity == Severity::Warning
            && final(out)@[k].span is None,
{
    let ghost start = out@.map_values(|d: Diagnostic| d.message@);
    proof {
        assert(crate::text::views(firsts@) =~= first_pass_names(ps@));
        assert(start + collision_messages(ps@, 0) =~= start);
    }
    let mut i: usize = 0;
    while i < ps.len()
        invariant
            i <= ps@.len(),
            firsts@.len() == ps@.len(),
            forall|j: int| 0 <= j < ps@.len() ==> (#[trigger] firsts@[j])@ == first_pass_names(ps@)[j],
            crate::text::views(firsts@) == first_pass_names(ps@),
            out@.map_values(|d: Diagnostic| d.message@) == start + collision_messages(ps@, i as int),
            forall|k: int| 0 <= k < out@.len() ==> (#[trigger] out@[k]).severity == Severity::Warning
                && out@[k].span is None,
        decreases ps@.len() - i,
    {
        let f = firsts[i].as_str();
        let c = count_strings(firsts, f);
        if c > 1 {
            let mut msg = crate::text::string_from("ambiguous disambiguated export '");
            push_str(&mut msg, f);
            push_str(&mut msg, "' still collided; appending packed id ");
            crate::text::push_i64(&mut msg, ps[i].packed_id.0 as i64);
            let ghost before = out@;
            out.push(Diagnostic::warning(msg));
            proof {
                assert(out@.map_values(|d: Diagnostic| d.message@) =~= before.map_values(|d: Diagnostic| d.message@).push(
                    msg@,
                ));
            }
        }
        i = i + 1;
    }
}

/// The catalog of the scripts of a cache, by packed id in ascending
/// order.
pub fn build_script_catalog(
    scripts: &Vec<(u32, Vec<u8>)>,
    group_names: &NameTable,
    opcode_book: &OpcodeBook,
    version: u32,
) -> (r: ScriptCatalog)
    ensures
        exists|ps: Seq<PendingScriptMetadata>|
            #![trigger pending_from_scripts(ps, scripts@, *group_names, *opcode_book, version)]
            {
                &&& pending_from_scripts(ps, scripts@, *group_names, *opcode_book, version)
                &&& r.diagnostics@.map_values(|d: Diagnostic| d.message@) == ambiguity_messages(ps, ps.len() as int)
                    + collision_messages(ps, ps.len() as int)
                &&& forall|id: ScriptId|
                    #![trigger r.get_spec(id)]
                    {
                        let i = last_entry_index(ps, id);
                        &&& i < 0 ==> r.get_spec(id) is None
                        &&& i >= 0 ==> (r.get_spec(id) matches Some(m) && entry_made_of(m, ps, i))
                    }
            },
{
    let mut builder = ScriptCatalogBuilder::new(group_names, opcode_book, version);
    let mut i: usize = 0;
    while i < scripts.len()
        invariant
            i <= scripts@.len(),
            builder.infers_return_types(),
            builder.groups_view() == *group_names,
            builder.book_view() == *opcode_book,
            builder.version_view() == version,
            pending_from_scripts(builder.pending_view(), scripts@.take(i as int), *group_names, *opcode_book, version),
        decreases scripts@.len() - i,
    {
        let ghost before = builder.pending_view();
        builder.add_script(scripts[i].0, scripts[i].1.as_slice());
        proof {
            assert(scripts@.take(i + 1).drop_last() =~= scripts@.take(i as int));
            assert(scripts@.take(i + 1).last() == scripts@[i as int]);
        }
        i = i + 1;
    }
    proof {
        assert(scripts@.take(i as int) =~= scripts@);
    }
    let ghost ps = builder.pending_view();
    let r = builder.build();
    proof {
        assert(pending_from_scripts(ps, scripts@, *group_names, *opcode_book, version));
    }
    r
}

/// `ps` holds one entry for each script of `scripts` that decodes, in
/// order, made of it.
pub open spec fn pending_from_scripts(
    ps: Seq<PendingScriptMetadata>,
    scripts: Seq<(u32, Vec<u8>)>,
    groups: NameTable,
    book: OpcodeBook,
    version: u32,
) -> bool
    decreases scripts.len(),
{
    if scripts.len() == 0 {
        ps.len() == 0
    } else {
        match decode_script_spec(book, scripts.last().1@, version) {
            Some(sv) => ps.len() > 0 && pending_matches(ps.last(), scripts.last().0, sv, groups, true)
                && pending_from_scripts(ps.drop_last(), scripts.drop_last(), groups, book, version),
            None => pending_from_scripts(ps, scripts.drop_last(), groups, book, version),
        }
    }
}

} // verus!
