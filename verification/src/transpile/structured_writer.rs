//! From a script declaration to a structured script: blocks, structuring,
//! return type, header comments and imports.
use crate::text::{chars_lt, chars_of, push_i64, push_str, push_u64, split_once, str_eq, string_from, string_of};
use crate::transpile::ast::{
    Declaration, ImportStatement, InstructionNode, OperandNode, ScriptId, TypeAnnotation,
};
use crate::transpile::catalog::{resolve_script_signature, ScriptCatalog, SignatureMap};
use crate::transpile::cfg::{build_cfg_for_build, detect_return_type_with_signatures, emit_linear_structured};
use crate::transpile::scope::NameTable;
use crate::transpile::structured::{StructuredScript, StructuredStmt};
use crate::transpile::structurer::{structure_with_options, StructureOptions};
use vstd::prelude::*;

verus! {

broadcast use vstd::string::group_string_axioms;

/// Builds structured scripts from declarations.
pub struct StructuredWriter<'a> {
    var_names: &'a NameTable,
    component_names: &'a NameTable,
    enum_value_names: &'a NameTable,
    script_catalog: &'a ScriptCatalog,
    script_signatures: &'a SignatureMap,
    build: u32,
}

/// A structured script, and why its control flow was left linear, if it
/// was.
pub struct BuiltStructuredScript {
    pub script: StructuredScript,
    pub control_flow_fallback_reason: Option<String>,
}

/// Some entry of `v` spells `x`.
pub open spec fn has_name(v: Seq<String>, x: Seq<char>) -> bool {
    exists|i: int| 0 <= i < v.len() && #[trigger] v[i]@ == x
}

/// Inserts `s` at its sorted place unless it is already there.
pub(crate) fn insert_sorted(v: &mut Vec<String>, s: String)
    ensures
        forall|x: Seq<char>| #[trigger] has_name(final(v)@, x) <==> (x == s@ || has_name(old(v)@, x)),
{
    let sc = chars_of(s.as_str());
    let mut pos: usize = 0;
    while pos < v.len()
        invariant
            pos <= v@.len(),
            v@ == old(v)@,
            forall|j: int| 0 <= j < pos ==> v@[j]@ != s@,
        decreases v@.len() - pos,
    {
        let cur = chars_of(v[pos].as_str());
        if crate::text::chars_eq(&cur, s.as_str()) {
            proof {
                assert(v@[pos as int]@ == s@);
                assert forall|x: Seq<char>| #[trigger] has_name(v@, x) <==> (x == s@ || has_name(old(v)@, x)) by {
                    if x == s@ {
                        assert(v@[pos as int]@ == x);
                    }
                }
            }
            return;
        }
        if chars_lt(&sc, &cur) {
            break;
        }
        pos = pos + 1;
    }
    let ghost before = v@;
    v.insert(pos, s);
    proof {
        assert forall|x: Seq<char>| #[trigger] has_name(v@, x) <==> (x == s@ || has_name(before, x)) by {
            if exists|i: int| 0 <= i < v@.len() && #[trigger] v@[i]@ == x {
                let i = choose|i: int| 0 <= i < v@.len() && #[trigger] v@[i]@ == x;
                if i < pos {
                    assert(before[i] == v@[i]);
                } else if i > pos {
                    assert(before[i - 1] == v@[i]);
                }
            }
            if x == s@ {
                assert(v@[pos as int] == s);
            }
            if exists|i: int| 0 <= i < before.len() && #[trigger] before[i]@ == x {
                let i = choose|i: int| 0 <= i < before.len() && #[trigger] before[i]@ == x;
                if i < pos {
                    assert(v@[i] == before[i]);
                } else {
                    assert(v@[i + 1] == before[i]);
                }
            }
        }
    }
}

/// Whether `instr` defines the array whose id, as a `u32`, is `x`.
pub open spec fn defines_array(instr: InstructionNode, x: u32) -> bool {
    instr.command@ == "define_array"@ && (instr.operand matches OperandNode::Array(id) && id as u32 == x)
}

/// The array ids the script defines, increasing and each once.
pub fn collect_array_ids(instructions: &[InstructionNode]) -> (r: Vec<u32>)
    ensures
        forall|a: int, b: int| 0 <= a < b < r@.len() ==> r@[a] < r@[b],
        forall|x: u32|
            r@.contains(x) <==> exists|j: int| 0 <= j < instructions@.len() && defines_array(
                #[trigger] instructions@[j],
                x,
            ),
{
    let mut ids: Vec<u32> = Vec::new();
    let mut i: usize = 0;
    while i < instructions.len()
        invariant
            i <= instructions@.len(),
            forall|a: int, b: int| 0 <= a < b < ids@.len() ==> ids@[a] < ids@[b],
            forall|x: u32|
                ids@.contains(x) <==> exists|j: int| 0 <= j < i && defines_array(#[trigger] instructions@[j], x),
        decreases instructions@.len() - i,
    {
        let ghost prev = ids@;
        assert(forall|y: u32|
            prev.contains(y) <==> exists|j: int| 0 <= j < i && defines_array(#[trigger] instructions@[j], y));
        if str_eq(instructions[i].command.as_str(), "define_array") {
            if let OperandNode::Array(id) = instructions[i].operand {
                let x = id as u32;
                assert(instructions@[i as int].command@ == "define_array"@);
                assert(instructions@[i as int].operand == OperandNode::Array(id));
                assert(forall|y: u32| defines_array(instructions@[i as int], y) <==> y == x);
                let mut pos: usize = 0;
                while pos < ids.len() && ids[pos] < x
                    invariant
                        pos <= ids@.len(),
                        forall|q: int| 0 <= q < pos ==> ids@[q] < x,
                        ids@ == prev,
                    decreases ids@.len() - pos,
                {
                    pos = pos + 1;
                }
                if pos == ids.len() || ids[pos] != x {
                    let ghost before = ids@;
                    ids.insert(pos, x);
                    proof {
                        assert forall|y: u32| ids@.contains(y) <==> (before.contains(y) || y == x) by {
                            if ids@.contains(y) {
                                let q = choose|q: int| 0 <= q < ids@.len() && ids@[q] == y;
                                if q < pos {
                                    assert(before[q] == y);
                                } else if q > pos {
                                    assert(before[q - 1] == y);
                                }
                            }
                            if before.contains(y) {
                                let q = choose|q: int| 0 <= q < before.len() && before[q] == y;
                                if q < pos {
                                    assert(ids@[q] == y);
                                } else {
                                    assert(ids@[q + 1] == y);
                                }
                            }
                            if y == x {
                                assert(ids@[pos as int] == y);
                            }
                        }
                        assert forall|a: int, b: int| 0 <= a < b < ids@.len() implies ids@[a] < ids@[b] by {
                            if b < pos {
                                assert(ids@[a] == before[a] && ids@[b] == before[b]);
                            } else if b == pos {
                                assert(ids@[a] == before[a]);
                            } else if a < pos {
                                assert(ids@[a] == before[a] && ids@[b] == before[b - 1]);
                                assert(before[b - 1] >= before[pos as int] || b - 1 == pos as int);
                            } else if a == pos {
                                assert(ids@[b] == before[b - 1]);
                            } else {
                                assert(ids@[a] == before[a - 1] && ids@[b] == before[b - 1]);
                            }
                        }
                    }
                    proof {
                        assert forall|y: u32|
                            ids@.contains(y) <==> (prev.contains(y) || defines_array(
                                instructions@[i as int],
                                y,
                            )) by {
                            assert(before == prev);
                            assert(ids@.contains(y) <==> (before.contains(y) || y == x));
                            assert(defines_array(instructions@[i as int], y) <==> y == x);
                        }
                    }
                } else {
                    assert(ids@[pos as int] == x);
                    assert forall|y: u32|
                        ids@.contains(y) <==> (prev.contains(y) || defines_array(instructions@[i as int], y)) by {}
                }
            } else {
                assert forall|y: u32|
                    ids@.contains(y) <==> (prev.contains(y) || defines_array(instructions@[i as int], y)) by {}
            }
        } else {
            assert forall|y: u32|
                ids@.contains(y) <==> (prev.contains(y) || defines_array(instructions@[i as int], y)) by {}
        }
        assert(forall|y: u32|
            ids@.contains(y) <==> (prev.contains(y) || defines_array(instructions@[i as int], y)));
        proof {
            assert forall|y: u32|
                ids@.contains(y) <==> exists|j: int| 0 <= j < i + 1 && defines_array(
                    #[trigger] instructions@[j],
                    y,
                ) by {
                assert(ids@.contains(y) <==> (prev.contains(y) || defines_array(instructions@[i as int], y)));
                assert(prev.contains(y) <==> exists|j: int|
                    0 <= j < i && defines_array(#[trigger] instructions@[j], y));
                if prev.contains(y) {
                    let j = choose|j: int| 0 <= j < i && defines_array(#[trigger] instructions@[j], y);
                    assert(0 <= j < i + 1 && defines_array(instructions@[j], y));
                }
                if exists|j: int| 0 <= j < i + 1 && defines_array(#[trigger] instructions@[j], y) {
                    let j = choose|j: int| 0 <= j < i + 1 && defines_array(#[trigger] instructions@[j], y);
                    if j < i {
                        assert(prev.contains(y));
                    }
                }
            }
        }
        i = i + 1;
    }
    ids
}

/// How many of `v` have type `t`.
pub open spec fn count_typed(v: Seq<TypeAnnotation>, t: TypeAnnotation) -> nat
    decreases v.len(),
{
    if v.len() == 0 {
        0
    } else {
        count_typed(v.drop_last(), t) + if v.last() == t {
            1nat
        } else {
            0nat
        }
    }
}

proof fn lemma_count_typed_bound(v: Seq<TypeAnnotation>, t: TypeAnnotation)
    ensures
        count_typed(v, t) <= v.len(),
    decreases v.len(),
{
    if v.len() > 0 {
        lemma_count_typed_bound(v.drop_last(), t);
    }
}

/// How many entries have type `t`.
fn count_locals(v: &Vec<crate::transpile::ast::LocalVariable>, t: TypeAnnotation) -> (r: u64)
    ensures
        r <= v@.len(),
        r == count_typed(v@.map_values(|l: crate::transpile::ast::LocalVariable| l.type_annotation), t),
{
    let ghost tys = v@.map_values(|l: crate::transpile::ast::LocalVariable| l.type_annotation);
    let mut n: u64 = 0;
    let mut i: usize = 0;
    while i < v.len()
        invariant
            i <= v@.len(),
            n <= i,
            tys == v@.map_values(|l: crate::transpile::ast::LocalVariable| l.type_annotation),
            n == count_typed(tys.take(i as int), t),
        decreases v@.len() - i,
    {
        proof {
            assert(tys.take(i + 1).drop_last() =~= tys.take(i as int));
            assert(tys.take(i + 1).last() == v@[i as int].type_annotation);
        }
        if v[i].type_annotation == t {
            n = n + 1;
        }
        i = i + 1;
    }
    proof {
        assert(tys.take(i as int) =~= tys);
    }
    n
}

/// How many arguments have type `t`.
fn count_arguments(v: &Vec<crate::transpile::ast::ArgumentVariable>, t: TypeAnnotation) -> (r: u64)
    ensures
        r <= v@.len(),
        r == count_typed(v@.map_values(|l: crate::transpile::ast::ArgumentVariable| l.type_annotation), t),
{
    let ghost tys = v@.map_values(|l: crate::transpile::ast::ArgumentVariable| l.type_annotation);
    let mut n: u64 = 0;
    let mut i: usize = 0;
    while i < v.len()
        invariant
            i <= v@.len(),
            n <= i,
            tys == v@.map_values(|l: crate::transpile::ast::ArgumentVariable| l.type_annotation),
            n == count_typed(tys.take(i as int), t),
        decreases v@.len() - i,
    {
        proof {
            assert(tys.take(i + 1).drop_last() =~= tys.take(i as int));
            assert(tys.take(i + 1).last() == v@[i as int].type_annotation);
        }
        if v[i].type_annotation == t {
            n = n + 1;
        }
        i = i + 1;
    }
    proof {
        assert(tys.take(i as int) =~= tys);
    }
    n
}

/// The header comments: a banner, the script's name, its catalog entry,
/// and its local and argument counts per stack.
pub fn build_header_comments(decl: &Declaration, script_catalog: &ScriptCatalog) -> (r: Vec<String>)
    ensures
        r@.len() >= 2,
        r@[0]@ == "Auto-generated CS2 to TypeScript"@,
{
    let mut comments: Vec<String> = Vec::new();
    comments.push(string_from("Auto-generated CS2 to TypeScript"));
    if let Some(name) = &decl.name {
        let mut c = string_from("Script name: ");
        push_str(&mut c, name.as_str());
        comments.push(c);
    }
    if let Some(m) = script_catalog.get(decl.script_id) {
        let mut c = string_from("Meta: packed=");
        push_i64(&mut c, m.packed_id.0 as i64);
        push_str(&mut c, " group=");
        push_i64(&mut c, m.group_id.0 as i64);
        push_str(&mut c, " file=");
        push_u64(&mut c, m.file_id as u64);
        push_str(&mut c, " kind=");
        push_str(&mut c, m.kind.as_label());
        push_str(&mut c, " short_name=");
        push_str(&mut c, m.short_name.as_str());
        comments.push(c);
    }
    let mut c = string_from("script_");
    push_i64(&mut c, decl.script_id.0 as i64);
    push_str(&mut c, ": locals(int=");
    push_u64(&mut c, count_locals(&decl.locals, TypeAnnotation::Number));
    push_str(&mut c, ", obj=");
    push_u64(&mut c, count_locals(&decl.locals, TypeAnnotation::String));
    push_str(&mut c, ", long=");
    push_u64(&mut c, count_locals(&decl.locals, TypeAnnotation::BigInt));
    push_str(&mut c, ") args(int=");
    push_u64(&mut c, count_arguments(&decl.arguments, TypeAnnotation::Number));
    push_str(&mut c, ", obj=");
    push_u64(&mut c, count_arguments(&decl.arguments, TypeAnnotation::String));
    push_str(&mut c, ", long=");
    push_u64(&mut c, count_arguments(&decl.arguments, TypeAnnotation::BigInt));
    push_str(&mut c, ")");
    comments.push(c);
    comments
}

/// The declared return type of `id`: its signature's, unless that is
/// `unknown`.
pub open spec fn declared_return_type(catalog: ScriptCatalog, sigs: SignatureMap, id: ScriptId) -> Option<Seq<char>> {
    match crate::transpile::catalog::signature_for(catalog, sigs, id) {
        Some(sig) => if sig.return_type@ != "unknown"@ {
            Some(sig.return_type@)
        } else {
            None
        },
        None => None,
    }
}

/// What a structured script holds apart from its body, given that body:
/// the declaration's id and raw name, the export name of the script (or
/// `script<id>`), the arrays the code defines in ascending order, and the
/// declared return type or the one the body implies.
pub open spec fn script_shell(
    r: StructuredScript,
    decl: Declaration,
    catalog: ScriptCatalog,
    sigs: SignatureMap,
) -> bool {
    &&& r.script_id == decl.script_id
    &&& opt_str_view(r.raw_name) == opt_str_view(decl.name)
    &&& r.function_name@ == (match catalog.get_spec(decl.script_id) {
        Some(m) => m.export_name@,
        None => "script"@ + crate::text::dec_int(decl.script_id.0 as int),
    })
    &&& (forall|a: int, b: int| 0 <= a < b < r.arrays@.len() ==> r.arrays@[a] < r.arrays@[b])
    &&& (forall|x: u32|
        r.arrays@.contains(x) <==> exists|j: int|
            0 <= j < decl.instructions@.len() && defines_array(#[trigger] decl.instructions@[j], x))
    &&& r.return_type@ == (match declared_return_type(catalog, sigs, decl.script_id) {
        Some(t) => t,
        None => crate::transpile::cfg::structured_return_type(r.body@, Some((&catalog, &sigs))),
    })
}

/// An optional string by its characters.
pub open spec fn opt_str_view(s: Option<String>) -> Option<Seq<char>> {
    match s {
        Some(t) => Some(t@),
        None => None,
    }
}

impl<'a> StructuredWriter<'a> {
    /// A writer for build `build` over the given name tables, catalog and
    /// signatures.
    pub fn new(
        var_names: &'a NameTable,
        component_names: &'a NameTable,
        enum_value_names: &'a NameTable,
        script_catalog: &'a ScriptCatalog,
        script_signatures: &'a SignatureMap,
        build: u32,
    ) -> (r: Self)
        ensures
            r.build_view() == build,
            r.catalog_view() == script_catalog,
            r.signatures_view() == script_signatures,
    {
        StructuredWriter {
            var_names,
            component_names,
            enum_value_names,
            script_catalog,
            script_signatures,
            build,
        }
    }

    /// The build whose stack effects apply.
    pub closed spec fn build_view(&self) -> u32 {
        self.build
    }

    /// The catalog scripts are named and typed from.
    pub closed spec fn catalog_view(&self) -> &ScriptCatalog {
        self.script_catalog
    }

    /// The signatures that take precedence over the catalog's.
    pub closed spec fn signatures_view(&self) -> &SignatureMap {
        self.script_signatures
    }

    /// The structured script of `decl`.
    pub fn build_script(&self, decl: &Declaration) -> (r: StructuredScript)
        ensures
            script_shell(r, *decl, *self.catalog_view(), *self.signatures_view()),
    {
        self.build_script_with_report(decl).script
    }

    /// The structured script of `decl`, with the reason its control flow
    /// was left linear, if it was.
    pub fn build_script_with_report(&self, decl: &Declaration) -> (r: BuiltStructuredScript)
        ensures
            script_shell(r.script, *decl, *self.catalog_view(), *self.signatures_view()),
    {
        self.build_script_with_options(decl, StructureOptions::aggressive())
    }

    /// As `build_script_with_report`, with the given structuring options.
    pub fn build_script_with_options(&self, decl: &Declaration, options: StructureOptions) -> (r:
        BuiltStructuredScript)
        ensures
            script_shell(r.script, *decl, *self.catalog_view(), *self.signatures_view()),
    {
        let blocks = build_cfg_for_build(
            &decl.instructions,
            self.var_names,
            self.component_names,
            self.enum_value_names,
            self.script_catalog,
            self.script_signatures,
            self.build,
        );
        let structured = structure_with_options(&blocks, options);
        BuiltStructuredScript {
            script: self.build_script_with_body(decl, structured.statements),
            control_flow_fallback_reason: structured.fallback_reason,
        }
    }

    /// The linear-form script of `decl`.
    pub fn build_linear_script(&self, decl: &Declaration) -> (r: StructuredScript)
        ensures
            script_shell(r, *decl, *self.catalog_view(), *self.signatures_view()),
    {
        let blocks = build_cfg_for_build(
            &decl.instructions,
            self.var_names,
            self.component_names,
            self.enum_value_names,
            self.script_catalog,
            self.script_signatures,
            self.build,
        );
        let structured = emit_linear_structured(&blocks);
        self.build_script_with_body(decl, structured)
    }

    /// The script around `structured`: its declared return type (unless
    /// unknown) or the one the body implies, its export name or
    /// `script<id>`, header comments, imports, arguments, locals and arrays.
    fn build_script_with_body(&self, decl: &Declaration, structured: Vec<StructuredStmt>) -> (r:
        StructuredScript)
        ensures
            script_shell(r, *decl, *self.catalog_view(), *self.signatures_view()),
            r.body == structured,
    {
        let return_type = match resolve_script_signature(
            self.script_catalog,
            self.script_signatures,
            decl.script_id,
        ) {
            Some(sig) => if !str_eq(sig.return_type.as_str(), "unknown") {
                sig.return_type.clone()
            } else {
                string_from(
                    detect_return_type_with_signatures(
                        &structured,
                        self.script_catalog,
                        self.script_signatures,
                    ),
                )
            },
            None => string_from(
                detect_return_type_with_signatures(&structured, self.script_catalog, self.script_signatures),
            ),
        };
        let function_name = match self.script_catalog.export_name(decl.script_id) {
            Some(n) => n.clone(),
            None => crate::transpile::exprs::cat_num("script", decl.script_id.0 as i64),
        };
        StructuredScript {
            script_id: decl.script_id,
            raw_name: decl.name.clone(),
            header_comments: build_header_comments(decl, self.script_catalog),
            imports: self.collect_imports(decl),
            function_name,
            arguments: decl.arguments.clone(),
            locals: decl.locals.clone(),
            arrays: collect_array_ids(&decl.instructions),
            return_type,
            body: structured,
        }
    }

    /// The imports the code needs: `VARS`/`VARBITS` for unnamed variables,
    /// `ComponentId` for named components, the enums of named constants and
    /// the modules of called scripts, each list sorted.
    fn collect_imports(&self, decl: &Declaration) -> (r: Vec<ImportStatement>) {
        let mut needs_vars = false;
        let mut needs_varbits = false;
        let mut needs_components = false;
        let mut enum_imports: Vec<String> = Vec::new();
        let mut modules: Vec<String> = Vec::new();
        let mut module_names: Vec<Vec<String>> = Vec::new();
        let mut i: usize = 0;
        while i < decl.instructions.len()
            invariant
                modules@.len() == module_names@.len(),
            decreases decl.instructions@.len() - i,
        {
            let instr = &decl.instructions[i];
            let cmd = chars_of(instr.command.as_str());
            if crate::transpile::expr_recovery::is_var_command(&cmd) {
                if let OperandNode::VarRef(v) = &instr.operand {
                    if v.name.is_none() {
                        needs_vars = true;
                    }
                }
            } else if crate::transpile::expr_recovery::is_varbit_command(&cmd) {
                if let OperandNode::VarBitRef(v) = &instr.operand {
                    if v.name.is_none() {
                        needs_varbits = true;
                    }
                }
            } else if crate::text::chars_eq(&cmd, "cc_create") {
                if let OperandNode::Int(component_id) = instr.operand {
                    if self.component_names.get((component_id as u32) as u64).is_some() {
                        needs_components = true;
                    }
                }
            } else if crate::text::chars_eq(&cmd, "push_constant_string") {
                if let OperandNode::Int(value) = instr.operand {
                    if let Some(q) = self.enum_value_names.get((value as u32) as u64) {
                        let qc = chars_of(q.as_str());
                        if let Some((object, _)) = split_once(&qc, '.') {
                            insert_sorted(&mut enum_imports, string_of(&object));
                        }
                    }
                }
            } else if crate::text::chars_eq(&cmd, "gosub_with_params") {
                if let OperandNode::Script(group_id) = instr.operand {
                    if let Some(target) = self.script_catalog.resolve_call_target(group_id) {
                        if target.packed_id != decl.script_id {
                            let mut module = string_from("./");
                            push_str(&mut module, target.module_name.as_str());
                            add_module_import(&mut modules, &mut module_names, module, target.export_name.clone());
                        }
                    }
                }
            }
            i = i + 1;
        }
        let mut imports: Vec<ImportStatement> = Vec::new();
        if needs_vars || needs_varbits || needs_components {
            let mut names: Vec<String> = Vec::new();
            if needs_components {
                names.push(string_from("ComponentId"));
            }
            if needs_varbits {
                names.push(string_from("VARBITS"));
            }
            if needs_vars {
                names.push(string_from("VARS"));
            }
            imports.push(ImportStatement { module: string_from("./index"), named_exports: names, is_type_only: false });
        }
        if enum_imports.len() > 0 {
            imports.push(
                ImportStatement { module: string_from("./enums"), named_exports: enum_imports, is_type_only: false },
            );
        }
        let mut m: usize = 0;
        while m < modules.len()
            invariant
                modules@.len() == module_names@.len(),
            decreases modules@.len() - m,
        {
            imports.push(
                ImportStatement {
                    module: modules[m].clone(),
                    named_exports: module_names[m].clone(),
                    is_type_only: false,
                },
            );
            m = m + 1;
        }
        imports
    }
}

/// Adds `name` to the sorted names of `module`, adding the module at its
/// sorted place when new.
fn add_module_import(modules: &mut Vec<String>, names: &mut Vec<Vec<String>>, module: String, name: String)
    requires
        old(modules)@.len() == old(names)@.len(),
    ensures
        final(modules)@.len() == final(names)@.len(),
{
    let mc = chars_of(module.as_str());
    let mut pos: usize = 0;
    while pos < modules.len()
        invariant
            pos <= modules@.len(),
            modules@.len() == names@.len(),
        decreases modules@.len() - pos,
    {
        let cur = chars_of(modules[pos].as_str());
        if crate::text::chars_eq(&cur, module.as_str()) {
            let mut list = names[pos].clone();
            insert_sorted(&mut list, name);
            names.set(pos, list);
            return;
        }
        if chars_lt(&mc, &cur) {
            break;
        }
        pos = pos + 1;
    }
    let mut list: Vec<String> = Vec::new();
    list.push(name);
    modules.insert(pos, module);
    names.insert(pos, list);
}

} // verus!
