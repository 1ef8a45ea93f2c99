//! From a compiled script to its declaration: typed locals and arguments,
//! and the instructions as nodes with names resolved.
use crate::script::{CompiledScript, Instruction, Operand, VarBitRef, VarRef};
use crate::text::{dec_nat, push_u64, string_from};
use crate::transpile::ast::{
    ArgumentVariable, Declaration, InstructionNode, LocalVariable, OperandNode, ScriptId, SwitchCase,
    TypeAnnotation, VarBitId, VarBitRefNode, VarId, VarRefNode,
};
use crate::transpile::scope::{var_key, SymbolTable};
use vstd::prelude::*;

verus! {

broadcast use vstd::string::group_string_axioms;

/// The name `prefix` followed by the decimal `i`.
pub open spec fn indexed_name(prefix: Seq<char>, i: int) -> Seq<char> {
    prefix + dec_nat(i as nat)
}

fn indexed(prefix: &str, i: usize) -> (r: String)
    ensures
        r@ == indexed_name(prefix@, i as int),
{
    let mut s = string_from(prefix);
    push_u64(&mut s, i as u64);
    s
}

/// Whether `n` is the node of `op`, with names resolved from `table`.
pub open spec fn node_matches(op: Operand, n: OperandNode, table: SymbolTable) -> bool {
    match (op, n) {
        (Operand::Int(a), OperandNode::Int(b)) => a == b,
        (Operand::Long(a), OperandNode::Long(b)) => a == b,
        (Operand::Str(a), OperandNode::String(b)) => a@ == b@,
        (Operand::Local(a), OperandNode::Local(b)) => b == a as usize,
        (Operand::VarRef(a), OperandNode::VarRef(b)) => {
            &&& b.domain == a.domain
            &&& b.id == VarId(a.id)
            &&& b.is_transmog == a.transmog
            &&& match b.name {
                Some(x) => table.var_map.get_spec(var_key(a.domain, a.id)) == Some(x@),
                None => table.var_map.get_spec(var_key(a.domain, a.id)) is None,
            }
        },
        (Operand::VarBitRef(a), OperandNode::VarBitRef(b)) => {
            &&& b.id == VarBitId(a.id)
            &&& b.is_transmog == a.transmog
            &&& match b.name {
                Some(x) => table.varbit_map.get_spec(a.id as u64) == Some(x@),
                None => table.varbit_map.get_spec(a.id as u64) is None,
            }
        },
        (Operand::Branch(a), OperandNode::Branch(b)) => b == a as usize,
        (Operand::Switch(a), OperandNode::Switch(b)) => {
            &&& b@.len() == a@.len()
            &&& forall|i: int|
                0 <= i < a@.len() ==> b@[i].value == a@[i].value && b@[i].target
                    == a@[i].target as usize
        },
        (Operand::Script(a), OperandNode::Script(b)) => a == b,
        (Operand::Array(a), OperandNode::Array(b)) => a == b,
        (Operand::Count(a), OperandNode::Count(b)) => b == a as usize,
        (Operand::Byte(a), OperandNode::Byte(b)) => a == b,
        _ => false,
    }
}

/// The declaration code generation gives `script`: its id and name;
/// arguments `arg_int_<i>`, `arg_obj_<i>`, `arg_long_<i>` and locals
/// `local_int_<i>`, `local_obj_<i>`, `local_long_<i>` with running indices;
/// and one node per instruction with its index, opcode, command and the
/// operand named from `table`.
pub open spec fn generated_declaration(r: Declaration, script: CompiledScript, script_id: ScriptId, table: SymbolTable) -> bool {
    let (ai, ao, al) = (script.argument_count_int as int, script.argument_count_object as int, script.argument_count_long as int);
    let (li, lo, ll) = (script.local_count_int as int, script.local_count_object as int, script.local_count_long as int);
    &&& r.script_id == script_id
    &&& r.name == script.name
    &&& r.arguments@.len() == ai + ao + al
    &&& r.locals@.len() == li + lo + ll
    &&& forall|i: int| 0 <= i < r.arguments@.len() ==> r.arguments@[i].index == i
    &&& forall|i: int| 0 <= i < r.locals@.len() ==> r.locals@[i].index == i
    &&& forall|i: int|
        #![trigger r.arguments@[i]]
        0 <= i < ai ==> r.arguments@[i].name@ == indexed_name("arg_int_"@, i) && r.arguments@[i].type_annotation
            == TypeAnnotation::Number
    &&& forall|i: int|
        #![trigger r.arguments@[i]]
        ai <= i < ai + ao ==> r.arguments@[i].name@ == indexed_name("arg_obj_"@, i - ai)
            && r.arguments@[i].type_annotation == TypeAnnotation::String
    &&& forall|i: int|
        #![trigger r.arguments@[i]]
        ai + ao <= i < ai + ao + al ==> r.arguments@[i].name@ == indexed_name("arg_long_"@, i - ai - ao)
            && r.arguments@[i].type_annotation == TypeAnnotation::BigInt
    &&& forall|i: int|
        #![trigger r.locals@[i]]
        0 <= i < li ==> r.locals@[i].name@ == indexed_name("local_int_"@, i) && r.locals@[i].type_annotation
            == TypeAnnotation::Number
    &&& forall|i: int|
        #![trigger r.locals@[i]]
        li <= i < li + lo ==> r.locals@[i].name@ == indexed_name("local_obj_"@, i - li)
            && r.locals@[i].type_annotation == TypeAnnotation::String
    &&& forall|i: int|
        #![trigger r.locals@[i]]
        li + lo <= i < li + lo + ll ==> r.locals@[i].name@ == indexed_name("local_long_"@, i - li - lo)
            && r.locals@[i].type_annotation == TypeAnnotation::BigInt
    &&& r.instructions@.len() == script.code@.len()
    &&& forall|i: int|
        #![trigger r.instructions@[i]]
        0 <= i < r.instructions@.len() ==> {
            &&& r.instructions@[i].index == i
            &&& r.instructions@[i].opcode == script.code@[i].opcode
            &&& r.instructions@[i].command@ == script.code@[i].command@
            &&& node_matches(script.code@[i].operand, r.instructions@[i].operand, table)
        }
}

/// Builds declarations with the names of a symbol table.
pub struct CodeGen<'a> {
    pub symbol_table: &'a SymbolTable,
}

impl<'a> CodeGen<'a> {
    /// A generator naming with `symbol_table`.
    pub fn new(symbol_table: &'a SymbolTable) -> (r: CodeGen<'a>)
        ensures
            r.symbol_table == symbol_table,
    {
        CodeGen { symbol_table }
    }

    /// The declaration of `script`: arguments and locals per stack (int,
    /// then object, then long) with running indices, and one node per
    /// instruction.
    pub fn generate(&self, script: &CompiledScript, script_id: ScriptId) -> (r: Declaration)
        ensures
            generated_declaration(r, *script, script_id, *self.symbol_table),
    {
        let arguments = build_variables_args(
            script.argument_count_int,
            script.argument_count_object,
            script.argument_count_long,
        );
        let locals = build_variables_locals(
            script.local_count_int,
            script.local_count_object,
            script.local_count_long,
        );
        let instructions = self.build_instructions(script);
        Declaration { script_id, name: script.name.clone(), locals, arguments, instructions }
    }

    fn build_instructions(&self, script: &CompiledScript) -> (r: Vec<InstructionNode>)
        ensures
            r@.len() == script.code@.len(),
            forall|i: int|
                #![trigger r@[i]]
                0 <= i < r@.len() ==> {
                    &&& r@[i].index == i
                    &&& r@[i].opcode == script.code@[i].opcode
                    &&& r@[i].command@ == script.code@[i].command@
                    &&& node_matches(script.code@[i].operand, r@[i].operand, *self.symbol_table)
                },
    {
        let mut out: Vec<InstructionNode> = Vec::new();
        let mut i: usize = 0;
        while i < script.code.len()
            invariant
                i <= script.code@.len(),
                out@.len() == i,
                forall|j: int|
                    #![trigger out@[j]]
                    0 <= j < i ==> {
                        &&& out@[j].index == j
                        &&& out@[j].opcode == script.code@[j].opcode
                        &&& out@[j].command@ == script.code@[j].command@
                        &&& node_matches(script.code@[j].operand, out@[j].operand, *self.symbol_table)
                    },
            decreases script.code@.len() - i,
        {
            out.push(self.convert_instruction(i, &script.code[i]));
            i = i + 1;
        }
        out
    }

    fn convert_instruction(&self, index: usize, instr: &Instruction) -> (r: InstructionNode)
        ensures
            r.index == index,
            r.opcode == instr.opcode,
            r.command@ == instr.command@,
            node_matches(instr.operand, r.operand, *self.symbol_table),
    {
        InstructionNode {
            index,
            opcode: instr.opcode,
            command: instr.command.clone(),
            operand: self.convert_operand(&instr.operand),
        }
    }

    fn convert_operand(&self, operand: &Operand) -> (r: OperandNode)
        ensures
            node_matches(*operand, r, *self.symbol_table),
    {
        match operand {
            Operand::Int(v) => OperandNode::Int(*v),
            Operand::Long(v) => OperandNode::Long(*v),
            Operand::Str(s) => OperandNode::String(s.clone()),
            Operand::Local(idx) => OperandNode::Local(*idx as usize),
            Operand::VarRef(vr) => OperandNode::VarRef(self.convert_var_ref(vr)),
            Operand::VarBitRef(vbr) => OperandNode::VarBitRef(self.convert_varbit_ref(vbr)),
            Operand::Branch(target) => OperandNode::Branch(*target as usize),
            Operand::Switch(cases) => {
                let mut out: Vec<SwitchCase> = Vec::new();
                let mut i: usize = 0;
                while i < cases.len()
                    invariant
                        i <= cases@.len(),
                        out@.len() == i,
                        forall|j: int|
                            #![trigger out@[j]]
                            0 <= j < i ==> out@[j].value == cases@[j].value && out@[j].target
                                == cases@[j].target as usize,
                    decreases cases@.len() - i,
                {
                    out.push(SwitchCase { value: cases[i].value, target: cases[i].target as usize });
                    i = i + 1;
                }
                OperandNode::Switch(out)
            },
            Operand::Script(id) => OperandNode::Script(*id),
            Operand::Array(id) => OperandNode::Array(*id),
            Operand::Count(n) => OperandNode::Count(*n as usize),
            Operand::Byte(b) => OperandNode::Byte(*b),
        }
    }

    fn convert_var_ref(&self, vr: &VarRef) -> (r: VarRefNode)
        ensures
            node_matches(Operand::VarRef(*vr), OperandNode::VarRef(r), *self.symbol_table),
    {
        let name = match self.symbol_table.var_name(vr.domain, vr.id) {
            Some(n) => Some(n.clone()),
            None => None,
        };
        VarRefNode { domain: vr.domain, id: VarId(vr.id), name, is_transmog: vr.transmog }
    }

    fn convert_varbit_ref(&self, vbr: &VarBitRef) -> (r: VarBitRefNode)
        ensures
            node_matches(Operand::VarBitRef(*vbr), OperandNode::VarBitRef(r), *self.symbol_table),
    {
        let name = match self.symbol_table.varbit_name(vbr.id) {
            Some(n) => Some(n.clone()),
            None => None,
        };
        VarBitRefNode { id: VarBitId(vbr.id), name, is_transmog: vbr.transmog }
    }
}

/// The arguments of a script: `arg_int_<i>`, `arg_obj_<i>`, `arg_long_<i>`
/// with running indices.
fn build_variables_args(n_int: u16, n_obj: u16, n_long: u16) -> (r: Vec<ArgumentVariable>)
    ensures
        r@.len() == n_int + n_obj + n_long,
        forall|i: int| 0 <= i < r@.len() ==> r@[i].index == i,
        forall|i: int|
            #![trigger r@[i]]
            0 <= i < n_int ==> r@[i].name@ == indexed_name("arg_int_"@, i) && r@[i].type_annotation
                == TypeAnnotation::Number,
        forall|i: int|
            #![trigger r@[i]]
            n_int <= i < n_int + n_obj ==> r@[i].name@ == indexed_name("arg_obj_"@, i - n_int)
                && r@[i].type_annotation == TypeAnnotation::String,
        forall|i: int|
            #![trigger r@[i]]
            n_int + n_obj <= i < n_int + n_obj + n_long ==> r@[i].name@ == indexed_name(
                "arg_long_"@,
                i - n_int - n_obj,
            ) && r@[i].type_annotation == TypeAnnotation::BigInt,
{
    let mut out: Vec<ArgumentVariable> = Vec::new();
    let mut i: usize = 0;
    while i < n_int as usize
        invariant
            i <= n_int,
            out@.len() == i,
            forall|j: int| 0 <= j < out@.len() ==> out@[j].index == j,
            forall|j: int|
                #![trigger out@[j]]
                0 <= j < i ==> out@[j].name@ == indexed_name("arg_int_"@, j)
                    && out@[j].type_annotation == TypeAnnotation::Number,
        decreases n_int - i,
    {
        let nm = indexed("arg_int_", i);
        let ghost before = out@;
        out.push(ArgumentVariable { index: i, name: nm, type_annotation: TypeAnnotation::Number });
        proof {
            assert(out@[i as int].name@ == indexed_name("arg_int_"@, i as int));
            assert(forall|j: int| 0 <= j < i ==> out@[j] == before[j]);
        }
        i = i + 1;
    }
    let mut k: usize = 0;
    while k < n_obj as usize
        invariant
            k <= n_obj,
            out@.len() == n_int + k,
            forall|j: int| 0 <= j < out@.len() ==> out@[j].index == j,
            forall|j: int|
                #![trigger out@[j]]
                0 <= j < n_int ==> out@[j].name@ == indexed_name("arg_int_"@, j)
                    && out@[j].type_annotation == TypeAnnotation::Number,
            forall|j: int|
                #![trigger out@[j]]
                n_int <= j < n_int + k ==> out@[j].name@ == indexed_name("arg_obj_"@, j - n_int)
                    && out@[j].type_annotation == TypeAnnotation::String,
        decreases n_obj - k,
    {
        out.push(ArgumentVariable { index: n_int as usize + k, name: indexed("arg_obj_", k), type_annotation: TypeAnnotation::String });
        k = k + 1;
    }
    let mut m: usize = 0;
    while m < n_long as usize
        invariant
            m <= n_long,
            out@.len() == n_int + n_obj + m,
            forall|j: int| 0 <= j < out@.len() ==> out@[j].index == j,
            forall|j: int|
                #![trigger out@[j]]
                0 <= j < n_int ==> out@[j].name@ == indexed_name("arg_int_"@, j)
                    && out@[j].type_annotation == TypeAnnotation::Number,
            forall|j: int|
                #![trigger out@[j]]
                n_int <= j < n_int + n_obj ==> out@[j].name@ == indexed_name("arg_obj_"@, j - n_int)
                    && out@[j].type_annotation == TypeAnnotation::String,
            forall|j: int|
                #![trigger out@[j]]
                n_int + n_obj <= j < n_int + n_obj + m ==> out@[j].name@ == indexed_name(
                    "arg_long_"@,
                    j - n_int - n_obj,
                ) && out@[j].type_annotation == TypeAnnotation::BigInt,
        decreases n_long - m,
    {
        out.push(ArgumentVariable { index: n_int as usize + n_obj as usize + m, name: indexed("arg_long_", m), type_annotation: TypeAnnotation::BigInt });
        m = m + 1;
    }
    out
}

/// The locals of a script: `local_int_<i>`, `local_obj_<i>`,
/// `local_long_<i>` with running indices.
fn build_variables_locals(n_int: u16, n_obj: u16, n_long: u16) -> (r: Vec<LocalVariable>)
    ensures
        r@.len() == n_int + n_obj + n_long,
        forall|i: int| 0 <= i < r@.len() ==> r@[i].index == i,
        forall|i: int|
            #![trigger r@[i]]
            0 <= i < n_int ==> r@[i].name@ == indexed_name("local_int_"@, i)
                && r@[i].type_annotation == TypeAnnotation::Number,
        forall|i: int|
            #![trigger r@[i]]
            n_int <= i < n_int + n_obj ==> r@[i].name@ == indexed_name("local_obj_"@, i - n_int)
                && r@[i].type_annotation == TypeAnnotation::String,
        forall|i: int|
            #![trigger r@[i]]
            n_int + n_obj <= i < n_int + n_obj + n_long ==> r@[i].name@ == indexed_name(
                "local_long_"@,
                i - n_int - n_obj,
            ) && r@[i].type_annotation == TypeAnnotation::BigInt,
{
    let mut out: Vec<LocalVariable> = Vec::new();
    let mut i: usize = 0;
    while i < n_int as usize
        invariant
            i <= n_int,
            out@.len() == i,
            forall|j: int| 0 <= j < out@.len() ==> out@[j].index == j,
            forall|j: int|
                #![trigger out@[j]]
                0 <= j < i ==> out@[j].name@ == indexed_name("local_int_"@, j)
                    && out@[j].type_annotation == TypeAnnotation::Number,
        decreases n_int - i,
    {
        out.push(LocalVariable { index: i, name: indexed("local_int_", i), type_annotation: TypeAnnotation::Number });
        i = i + 1;
    }
    let mut k: usize = 0;
    while k < n_obj as usize
        invariant
            k <= n_obj,
            out@.len() == n_int + k,
            forall|j: int| 0 <= j < out@.len() ==> out@[j].index == j,
            forall|j: int|
                #![trigger out@[j]]
                0 <= j < n_int ==> out@[j].name@ == indexed_name("local_int_"@, j)
                    && out@[j].type_annotation == TypeAnnotation::Number,
            forall|j: int|
                #![trigger out@[j]]
                n_int <= j < n_int + k ==> out@[j].name@ == indexed_name("local_obj_"@, j - n_int)
                    && out@[j].type_annotation == TypeAnnotation::String,
        decreases n_obj - k,
    {
        out.push(LocalVariable { index: n_int as usize + k, name: indexed("local_obj_", k), type_annotation: TypeAnnotation::String });
        k = k + 1;
    }
    let mut m: usize = 0;
    while m < n_long as usize
        invariant
            m <= n_long,
            out@.len() == n_int + n_obj + m,
            forall|j: int| 0 <= j < out@.len() ==> out@[j].index == j,
            forall|j: int|
                #![trigger out@[j]]
                0 <= j < n_int ==> out@[j].name@ == indexed_name("local_int_"@, j)
                    && out@[j].type_annotation == TypeAnnotation::Number,
            forall|j: int|
                #![trigger out@[j]]
                n_int <= j < n_int + n_obj ==> out@[j].name@ == indexed_name("local_obj_"@, j - n_int)
                    && out@[j].type_annotation == TypeAnnotation::String,
            forall|j: int|
                #![trigger out@[j]]
                n_int + n_obj <= j < n_int + n_obj + m ==> out@[j].name@ == indexed_name(
                    "local_long_"@,
                    j - n_int - n_obj,
                ) && out@[j].type_annotation == TypeAnnotation::BigInt,
        decreases n_long - m,
    {
        out.push(LocalVariable { index: n_int as usize + n_obj as usize + m, name: indexed("local_long_", m), type_annotation: TypeAnnotation::BigInt });
        m = m + 1;
    }
    out
}

} // verus!
