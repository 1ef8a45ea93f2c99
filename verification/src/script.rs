//! Compiled client scripts: the opcode table, the bytecode decoder and
//! encoder, and the lossless assembly text form.
use crate::error::{Error, ErrorKind};
use crate::packet::{
    be16, be32, be64, bytes16, bytes32, bytes64, jstr_bytes, latin1, signed32, signed64, unsigned32,
    unsigned64, zero_from, ByteWriter, Packet,
};
use crate::text::{chars_eq, chars_of, index_of, lines_spec, parse_in_range, seq_lt, str_eq, trim};
use crate::vars::{domain_from_id, domain_id, VarDomain};
use vstd::prelude::*;

verus! {

broadcast use vstd::string::group_string_axioms;

/// Builds from this one on use the classic bytecode layout with a full
/// opcode table, and the decoder checks the instruction count.
pub const MIN_SCRIPT_BUILD: u32 = 947;

// ---------------------------------------------------------------------------
// Data model
// ---------------------------------------------------------------------------

/// A reference to a game variable.
#[derive(Clone, Copy, Debug, PartialEq, Eq, Structural)]
pub struct VarRef {
    pub domain: VarDomain,
    pub id: u16,
    pub transmog: bool,
}

/// A reference to a variable bit field.
#[derive(Clone, Copy, Debug, PartialEq, Eq, Structural)]
pub struct VarBitRef {
    pub id: u16,
    pub transmog: bool,
}

/// One arm of a switch: jump to instruction `target` when the value is `value`.
#[derive(Clone, Copy, Debug, PartialEq, Eq, Structural)]
pub struct SwitchCase {
    pub value: i32,
    pub target: i32,
}

/// The immediate operand of an instruction.
#[derive(Clone, Debug)]
pub enum Operand {
    Int(i32),
    Long(i64),
    Str(String),
    Local(i32),
    VarRef(VarRef),
    VarBitRef(VarBitRef),
    Branch(i32),
    Switch(Vec<SwitchCase>),
    Script(i32),
    Array(i32),
    Count(i32),
    Byte(u8),
}

/// The mathematical value of an operand.
pub enum OperandV {
    Int(i32),
    Long(i64),
    Str(Seq<char>),
    Local(i32),
    VarRef(VarRef),
    VarBitRef(VarBitRef),
    Branch(i32),
    Switch(Seq<SwitchCase>),
    Script(i32),
    Array(i32),
    Count(i32),
    Byte(u8),
}

impl View for Operand {
    type V = OperandV;

    open spec fn view(&self) -> OperandV {
        match self {
            Operand::Int(v) => OperandV::Int(*v),
            Operand::Long(v) => OperandV::Long(*v),
            Operand::Str(s) => OperandV::Str(s@),
            Operand::Local(v) => OperandV::Local(*v),
            Operand::VarRef(v) => OperandV::VarRef(*v),
            Operand::VarBitRef(v) => OperandV::VarBitRef(*v),
            Operand::Branch(v) => OperandV::Branch(*v),
            Operand::Switch(c) => OperandV::Switch(c@),
            Operand::Script(v) => OperandV::Script(*v),
            Operand::Array(v) => OperandV::Array(*v),
            Operand::Count(v) => OperandV::Count(*v),
            Operand::Byte(v) => OperandV::Byte(*v),
        }
    }
}

impl Operand {
    /// A copy of this operand.
    pub fn duplicate(&self) -> (r: Operand)
        ensures
            r@ == self@,
    {
        match self {
            Operand::Int(v) => Operand::Int(*v),
            Operand::Long(v) => Operand::Long(*v),
            Operand::Str(s) => Operand::Str(s.clone()),
            Operand::Local(v) => Operand::Local(*v),
            Operand::VarRef(v) => Operand::VarRef(*v),
            Operand::VarBitRef(v) => Operand::VarBitRef(*v),
            Operand::Branch(v) => Operand::Branch(*v),
            Operand::Switch(c) => Operand::Switch(copy_cases(c)),
            Operand::Script(v) => Operand::Script(*v),
            Operand::Array(v) => Operand::Array(*v),
            Operand::Count(v) => Operand::Count(*v),
            Operand::Byte(v) => Operand::Byte(*v),
        }
    }
}

/// A copy of a list of switch cases.
pub fn copy_cases(c: &Vec<SwitchCase>) -> (r: Vec<SwitchCase>)
    ensures
        r@ == c@,
{
    let mut out: Vec<SwitchCase> = Vec::new();
    let mut i: usize = 0;
    while i < c.len()
        invariant
            i <= c@.len(),
            out@ == c@.take(i as int),
        decreases c@.len() - i,
    {
        out.push(c[i]);
        i = i + 1;
        proof {
            assert(out@ =~= c@.take(i as int));
        }
    }
    proof {
        assert(c@.take(i as int) =~= c@);
    }
    out
}

/// One instruction: its opcode, command name and operand.
#[derive(Clone, Debug)]
pub struct Instruction {
    pub opcode: u16,
    pub command: String,
    pub operand: Operand,
}

/// The mathematical value of an instruction.
pub struct InstructionV {
    pub opcode: u16,
    pub command: Seq<char>,
    pub operand: OperandV,
}

impl View for Instruction {
    type V = InstructionV;

    open spec fn view(&self) -> InstructionV {
        InstructionV { opcode: self.opcode, command: self.command@, operand: self.operand@ }
    }
}

/// A compiled script: its optional name, local and argument counts per
/// stack (int, object, long), and its instructions.
#[derive(Clone, Debug)]
pub struct CompiledScript {
    pub name: Option<String>,
    pub local_count_int: u16,
    pub local_count_object: u16,
    pub local_count_long: u16,
    pub argument_count_int: u16,
    pub argument_count_object: u16,
    pub argument_count_long: u16,
    pub code: Vec<Instruction>,
}

/// The mathematical value of a compiled script.
pub struct ScriptV {
    pub name: Option<Seq<char>>,
    pub local_count_int: u16,
    pub local_count_object: u16,
    pub local_count_long: u16,
    pub argument_count_int: u16,
    pub argument_count_object: u16,
    pub argument_count_long: u16,
    pub code: Seq<InstructionV>,
}

/// The view of an optional string.
pub open spec fn opt_view(s: Option<String>) -> Option<Seq<char>> {
    match s {
        Some(t) => Some(t@),
        None => None,
    }
}

/// The views of a sequence of instructions.
pub open spec fn code_view(c: Seq<Instruction>) -> Seq<InstructionV> {
    c.map_values(|i: Instruction| i@)
}

impl View for CompiledScript {
    type V = ScriptV;

    open spec fn view(&self) -> ScriptV {
        ScriptV {
            name: opt_view(self.name),
            local_count_int: self.local_count_int,
            local_count_object: self.local_count_object,
            local_count_long: self.local_count_long,
            argument_count_int: self.argument_count_int,
            argument_count_object: self.argument_count_object,
            argument_count_long: self.argument_count_long,
            code: code_view(self.code@),
        }
    }
}

// ---------------------------------------------------------------------------
// Operand classes of commands
// ---------------------------------------------------------------------------

/// How a command's operand is encoded.
#[derive(Clone, Copy, Debug, PartialEq, Eq, Structural)]
pub enum OperandKind {
    ConstInt,
    ConstLong,
    ConstString,
    Local,
    Var,
    VarBit,
    FixedVar(VarDomain),
    FixedVarBit,
    Branch,
    Switch,
    Count,
    Script,
    Array,
    Other,
}

pub open spec fn operand_kind(c: Seq<char>) -> OperandKind {
    if c == "push_constant_int"@ {
        OperandKind::ConstInt
    } else if c == "push_long_constant"@ {
        OperandKind::ConstLong
    } else if c == "push_constant_string"@ {
        OperandKind::ConstString
    } else if c == "push_int_local"@ || c == "pop_int_local"@ || c == "push_string_local"@ || c == "pop_string_local"@ || c == "push_long_local"@ || c == "pop_long_local"@ {
        OperandKind::Local
    } else if c == "push_var"@ || c == "pop_var"@ {
        OperandKind::Var
    } else if c == "push_varbit"@ || c == "pop_varbit"@ {
        OperandKind::VarBit
    } else if c == "push_varc_int"@ || c == "pop_varc_int"@ || c == "push_varc_string"@ || c == "pop_varc_string"@ {
        OperandKind::FixedVar(VarDomain::Client)
    } else if c == "push_varclan"@ || c == "push_varclan_long"@ || c == "push_varclan_string"@ {
        OperandKind::FixedVar(VarDomain::Clan)
    } else if c == "push_varclansetting"@ || c == "push_varclansetting_long"@ || c == "push_varclansetting_string"@ {
        OperandKind::FixedVar(VarDomain::ClanSetting)
    } else if c == "push_varclanbit"@ || c == "push_varclansettingbit"@ {
        OperandKind::FixedVarBit
    } else if c == "branch"@ || c == "branch_not"@ || c == "branch_equals"@ || c == "branch_less_than"@ || c == "branch_greater_than"@ || c == "branch_less_than_or_equals"@ || c == "branch_greater_than_or_equals"@ || c == "long_branch_not"@ || c == "long_branch_equals"@ || c == "long_branch_less_than"@ || c == "long_branch_greater_than"@ || c == "long_branch_less_than_or_equals"@ || c == "long_branch_greater_than_or_equals"@ || c == "branch_if_true"@ || c == "branch_if_false"@ {
        OperandKind::Branch
    } else if c == "switch"@ {
        OperandKind::Switch
    } else if c == "join_string"@ {
        OperandKind::Count
    } else if c == "gosub_with_params"@ {
        OperandKind::Script
    } else if c == "define_array"@ || c == "push_array_int"@ || c == "pop_array_int"@ || c == "push_array_int_leave_index_on_stack"@ || c == "push_array_int_and_index"@ || c == "pop_array_int_leave_value_on_stack"@ {
        OperandKind::Array
    } else {
        OperandKind::Other
    }
}

pub fn classify_command(c: &[char]) -> (r: OperandKind)
    ensures
        r == operand_kind(c@),
{
    if chars_eq(c, "push_constant_int") {
        OperandKind::ConstInt
    } else if chars_eq(c, "push_long_constant") {
        OperandKind::ConstLong
    } else if chars_eq(c, "push_constant_string") {
        OperandKind::ConstString
    } else if chars_eq(c, "push_int_local") || chars_eq(c, "pop_int_local") || chars_eq(c, "push_string_local") || chars_eq(c, "pop_string_local") || chars_eq(c, "push_long_local") || chars_eq(c, "pop_long_local") {
        OperandKind::Local
    } else if chars_eq(c, "push_var") || chars_eq(c, "pop_var") {
        OperandKind::Var
    } else if chars_eq(c, "push_varbit") || chars_eq(c, "pop_varbit") {
        OperandKind::VarBit
    } else if chars_eq(c, "push_varc_int") || chars_eq(c, "pop_varc_int") || chars_eq(c, "push_varc_string") || chars_eq(c, "pop_varc_string") {
        OperandKind::FixedVar(VarDomain::Client)
    } else if chars_eq(c, "push_varclan") || chars_eq(c, "push_varclan_long") || chars_eq(c, "push_varclan_string") {
        OperandKind::FixedVar(VarDomain::Clan)
    } else if chars_eq(c, "push_varclansetting") || chars_eq(c, "push_varclansetting_long") || chars_eq(c, "push_varclansetting_string") {
        OperandKind::FixedVar(VarDomain::ClanSetting)
    } else if chars_eq(c, "push_varclanbit") || chars_eq(c, "push_varclansettingbit") {
        OperandKind::FixedVarBit
    } else if chars_eq(c, "branch") || chars_eq(c, "branch_not") || chars_eq(c, "branch_equals") || chars_eq(c, "branch_less_than") || chars_eq(c, "branch_greater_than") || chars_eq(c, "branch_less_than_or_equals") || chars_eq(c, "branch_greater_than_or_equals") || chars_eq(c, "long_branch_not") || chars_eq(c, "long_branch_equals") || chars_eq(c, "long_branch_less_than") || chars_eq(c, "long_branch_greater_than") || chars_eq(c, "long_branch_less_than_or_equals") || chars_eq(c, "long_branch_greater_than_or_equals") || chars_eq(c, "branch_if_true") || chars_eq(c, "branch_if_false") {
        OperandKind::Branch
    } else if chars_eq(c, "switch") {
        OperandKind::Switch
    } else if chars_eq(c, "join_string") {
        OperandKind::Count
    } else if chars_eq(c, "gosub_with_params") {
        OperandKind::Script
    } else if chars_eq(c, "define_array") || chars_eq(c, "push_array_int") || chars_eq(c, "pop_array_int") || chars_eq(c, "push_array_int_leave_index_on_stack") || chars_eq(c, "push_array_int_and_index") || chars_eq(c, "pop_array_int_leave_value_on_stack") {
        OperandKind::Array
    } else {
        OperandKind::Other
    }
}

/// The domain a fixed-domain variable command always addresses.
pub open spec fn fixed_var_domain(c: Seq<char>) -> Option<VarDomain> {
    match operand_kind(c) {
        OperandKind::FixedVar(d) => Some(d),
        _ => None,
    }
}

/// The domain a fixed-domain variable command always addresses.
pub fn fixed_var_command_domain(c: &[char]) -> (r: Option<VarDomain>)
    ensures
        r == fixed_var_domain(c@),
{
    match classify_command(c) {
        OperandKind::FixedVar(d) => Some(d),
        _ => None,
    }
}

/// Whether the command reads a clan variable bit with a fixed domain.
pub fn is_fixed_varbit_command(c: &[char]) -> (r: bool)
    ensures
        r == (operand_kind(c@) == OperandKind::FixedVarBit),
{
    classify_command(c) == OperandKind::FixedVarBit
}

/// Whether the assembly form spells the command's operand in its own way
/// (every command with a known operand class).
pub fn command_has_explicit_asm_operand_format(c: &[char]) -> (r: bool)
    ensures
        r == (operand_kind(c@) != OperandKind::Other),
{
    classify_command(c) != OperandKind::Other
}


// ---------------------------------------------------------------------------
// Opcode table
// ---------------------------------------------------------------------------


// ---------------------------------------------------------------------------
// The opcode tables in text form
// ---------------------------------------------------------------------------

/// Entries by their characters.
pub open spec fn entry_view(t: Seq<(String, u16)>) -> Seq<(Seq<char>, u16)> {
    t.map_values(|e: (String, u16)| (e.0@, e.1))
}

/// The opcode `n` was given last.
pub open spec fn last_id(es: Seq<(Seq<char>, u16)>, n: Seq<char>) -> Option<u16>
    decreases es.len(),
{
    if es.len() == 0 {
        None
    } else if es.last().0 == n {
        Some(es.last().1)
    } else {
        last_id(es.drop_last(), n)
    }
}

/// The last name, in table order, that has opcode `op`.
pub open spec fn last_with_id(t: Seq<(Seq<char>, u16)>, op: u16) -> Option<Seq<char>>
    decreases t.len(),
{
    if t.len() == 0 {
        None
    } else if t.last().1 == op {
        Some(t.last().0)
    } else {
        last_with_id(t.drop_last(), op)
    }
}

/// Names in strictly ascending order.
pub open spec fn sorted_names(t: Seq<(Seq<char>, u16)>) -> bool {
    forall|i: int, j: int| 0 <= i < j < t.len() ==> seq_lt(#[trigger] t[i].0, #[trigger] t[j].0)
}

/// The `n`-th comma-separated field of `t` (`t.split(',').nth(n)`).
pub open spec fn comma_field(t: Seq<char>, n: nat) -> Option<Seq<char>>
    decreases n,
{
    let k = index_of(t, ',');
    if n == 0 {
        Some(t.take(k))
    } else if 0 <= k < t.len() {
        comma_field(t.skip(k + 1), (n - 1) as nat)
    } else {
        None
    }
}

/// Why a row of an opcode table was refused.
#[derive(Clone, Copy, Debug, PartialEq, Eq, Structural)]
pub enum RowFault {
    MissingId,
    BadGate,
    BadId,
    BadLargeId,
    MissingFlag,
    BadFlag,
}

/// The error kind of a refused row.
pub open spec fn fault_kind(f: RowFault) -> ErrorKind {
    match f {
        RowFault::MissingId | RowFault::MissingFlag => ErrorKind::Missing,
        _ => ErrorKind::Invalid,
    }
}

/// What one line of an opcode table holds.
pub enum OpcodeRow {
    Skip,
    Entry(Seq<char>, u16),
    Fault(RowFault),
}

/// An empty or comment line.
pub open spec fn is_blank_row(t: Seq<char>) -> bool {
    t.len() == 0 || "//"@.is_prefix_of(t)
}

/// The build-limit field of a row, trimmed; empty when there is none.
pub open spec fn gate_text(t: Seq<char>) -> Seq<char> {
    match comma_field(t, 2) {
        Some(g) => trim(g),
        None => seq![],
    }
}

/// A row `name,id[,build]`: blank and comment lines and rows limited to a
/// later build are skipped; the id must be a 16-bit number and the build
/// limit, when present, a 32-bit one.
pub open spec fn opcode_row(line: Seq<char>, version: u32) -> OpcodeRow {
    let t = trim(line);
    if is_blank_row(t) {
        OpcodeRow::Skip
    } else {
        match comma_field(t, 1) {
            None => OpcodeRow::Fault(RowFault::MissingId),
            Some(id_text) => {
                let g = gate_text(t);
                if g.len() > 0 && parse_in_range(g, false, 0, u32::MAX as int) is None {
                    OpcodeRow::Fault(RowFault::BadGate)
                } else if g.len() > 0 && parse_in_range(g, false, 0, u32::MAX as int)->0 > version {
                    OpcodeRow::Skip
                } else {
                    match parse_in_range(trim(id_text), false, 0, u16::MAX as int) {
                        Some(id) => OpcodeRow::Entry(trim(comma_field(t, 0)->0), id as u16),
                        None => OpcodeRow::Fault(RowFault::BadId),
                    }
                }
            },
        }
    }
}

/// The entries of an opcode table in line order, or its first refused row.
pub open spec fn opcode_entries(lines: Seq<Seq<char>>, version: u32) -> Result<Seq<(Seq<char>, u16)>, RowFault>
    decreases lines.len(),
{
    if lines.len() == 0 {
        Ok(seq![])
    } else {
        match opcode_entries(lines.drop_last(), version) {
            Err(f) => Err(f),
            Ok(es) => match opcode_row(lines.last(), version) {
                OpcodeRow::Entry(n, id) => Ok(es.push((n, id))),
                OpcodeRow::Fault(f) => Err(f),
                OpcodeRow::Skip => Ok(es),
            },
        }
    }
}

/// What one line of a large-operand table holds.
pub enum LargeRow {
    Skip,
    Flag(int, bool),
    Fault(RowFault),
}

/// A row `id,flag`: a flag other than 0 marks the opcode.
pub open spec fn large_row(line: Seq<char>) -> LargeRow {
    let t = trim(line);
    if is_blank_row(t) {
        LargeRow::Skip
    } else {
        match parse_in_range(trim(comma_field(t, 0)->0), false, 0, usize::MAX as int) {
            None => LargeRow::Fault(RowFault::BadLargeId),
            Some(id) => match comma_field(t, 1) {
                None => LargeRow::Fault(RowFault::MissingFlag),
                Some(f) => match parse_in_range(trim(f), false, 0, u8::MAX as int) {
                    None => LargeRow::Fault(RowFault::BadFlag),
                    Some(v) => LargeRow::Flag(id, v != 0),
                },
            },
        }
    }
}

/// The flags of a large-operand table in line order, or its first refused
/// row.
pub open spec fn large_flags(lines: Seq<Seq<char>>) -> Result<Seq<(int, bool)>, RowFault>
    decreases lines.len(),
{
    if lines.len() == 0 {
        Ok(seq![])
    } else {
        match large_flags(lines.drop_last()) {
            Err(f) => Err(f),
            Ok(fs) => match large_row(lines.last()) {
                LargeRow::Flag(id, b) => Ok(fs.push((id, b))),
                LargeRow::Fault(f) => Err(f),
                LargeRow::Skip => Ok(fs),
            },
        }
    }
}

/// The flag `op` was given last; unmarked opcodes have none.
pub open spec fn last_flag(fs: Seq<(int, bool)>, op: int) -> bool
    decreases fs.len(),
{
    if fs.len() == 0 {
        false
    } else if fs.last().0 == op {
        fs.last().1
    } else {
        last_flag(fs.drop_last(), op)
    }
}

/// The large-operand flags of an optional table (none without one).
pub open spec fn large_table(large: Option<Seq<char>>) -> Result<Seq<(int, bool)>, RowFault> {
    match large {
        Some(l) => large_flags(lines_spec(l)),
        None => Ok(seq![]),
    }
}

proof fn lemma_seq_lt_irreflexive(a: Seq<char>)
    ensures
        !seq_lt(a, a),
    decreases a.len(),
{
    if a.len() > 0 {
        lemma_seq_lt_irreflexive(a.drop_first());
    }
}

proof fn lemma_last_with_id_found(t: Seq<(Seq<char>, u16)>, op: u16)
    ensures
        last_with_id(t, op) matches Some(n) ==> exists|i: int| 0 <= i < t.len() && t[i] == (n, op),
    decreases t.len(),
{
    if t.len() > 0 {
        lemma_last_with_id_found(t.drop_last(), op);
        if last_with_id(t, op) is Some && t.last().1 != op {
            let n = last_with_id(t, op)->Some_0;
            let i = choose|i: int| 0 <= i < t.drop_last().len() && t.drop_last()[i] == (n, op);
            assert(t[i] == t.drop_last()[i]);
        }
        if t.last().1 == op {
            assert(t[t.len() - 1] == (t.last().0, op));
        }
    }
}

proof fn lemma_last_id_unique(t: Seq<(Seq<char>, u16)>, i: int)
    requires
        0 <= i < t.len(),
        forall|j: int| 0 <= j < t.len() && j != i ==> #[trigger] t[j].0 != t[i].0,
    ensures
        last_id(t, t[i].0) == Some(t[i].1),
    decreases t.len(),
{
    if i < t.len() - 1 {
        let d = t.drop_last();
        assert(t.last() == t[t.len() - 1]);
        assert forall|j: int| 0 <= j < d.len() && j != i implies #[trigger] d[j].0 != d[i].0 by {
            assert(d[j] == t[j]);
            assert(d[i] == t[i]);
        }
        lemma_last_id_unique(d, i);
        assert(d[i] == t[i]);
    }
}

/// Mapping between opcode numbers and command names for one build, and
/// which opcodes carry a 4-byte operand when their command is unknown.
#[derive(Clone, Debug)]
pub struct OpcodeBook {
    pub by_id: Vec<Option<String>>,
    by_name: Vec<(String, u16)>,
    large_by_id: Vec<bool>,
}

impl OpcodeBook {
    /// The command name of `opcode`, if the table has one.
    pub closed spec fn name_of(&self, opcode: u16) -> Option<Seq<char>> {
        if (opcode as int) < self.by_id@.len() {
            opt_view(self.by_id@[opcode as int])
        } else {
            None
        }
    }

    /// The opcode of the command `name`, if the table has one.
    pub closed spec fn opcode_of(&self, name: Seq<char>) -> Option<u16> {
        last_id(self.entries(), name)
    }

    /// The (name, opcode) entries of the table, in table order.
    pub closed spec fn entries(&self) -> Seq<(Seq<char>, u16)> {
        entry_view(self.by_name@)
    }

    /// Whether an unknown command at `opcode` carries a 4-byte operand.
    pub closed spec fn large(&self, opcode: u16) -> bool {
        (opcode as int) < self.large_by_id@.len() && self.large_by_id@[opcode as int]
    }

    /// The names of the table, each once.
    pub closed spec fn names(&self) -> Seq<Seq<char>> {
        self.by_name@.map_values(|e: (String, u16)| e.0@)
    }

    /// A table as reading builds it: names in strictly ascending order,
    /// and each opcode named by the last entry that has it.
    pub closed spec fn wf(&self) -> bool {
        &&& sorted_names(self.entries())
        &&& forall|op: u16| #[trigger] self.name_of(op) == last_with_id(self.entries(), op)
    }

    /// Names and opcodes agree: the name a table gives an opcode maps back
    /// to that opcode, and the names come in strictly ascending order, so
    /// none occurs twice.
    pub proof fn lemma_name_opcode_agree(&self, op: u16, n: Seq<char>)
        requires
            self.wf(),
        ensures
            self.name_of(op) == Some(n) ==> self.opcode_of(n) == Some(op),
            forall|i: int, j: int|
                0 <= i < j < self.names().len() ==> seq_lt(#[trigger] self.names()[i], #[trigger] self.names()[j]),
            forall|i: int, j: int| 0 <= i < j < self.names().len() ==> self.names()[i] != self.names()[j],
    {
        let t = self.entries();
        assert forall|i: int, j: int| 0 <= i < j < self.names().len() implies seq_lt(
            #[trigger] self.names()[i],
            #[trigger] self.names()[j],
        ) by {
            assert(self.names()[i] == t[i].0);
            assert(self.names()[j] == t[j].0);
        }
        assert forall|i: int, j: int| 0 <= i < j < self.names().len() implies self.names()[i] != self.names()[j] by {
            assert(seq_lt(self.names()[i], self.names()[j]));
            lemma_seq_lt_irreflexive(self.names()[i]);
        }
        if self.name_of(op) == Some(n) {
            lemma_last_with_id_found(t, op);
            let i = choose|i: int| 0 <= i < t.len() && t[i] == (n, op);
            assert forall|j: int| 0 <= j < t.len() && j != i implies #[trigger] t[j].0 != t[i].0 by {
                if j < i {
                    assert(seq_lt(t[j].0, t[i].0));
                    lemma_seq_lt_irreflexive(t[i].0);
                } else {
                    assert(seq_lt(t[i].0, t[j].0));
                    lemma_seq_lt_irreflexive(t[i].0);
                }
            }
            lemma_last_id_unique(t, i);
        }
    }

    /// The command name of `opcode`; a `Missing` error when there is none.
    pub fn name(&self, opcode: u16) -> (r: Result<&String, Error>)
        ensures
            r is Ok <==> self.name_of(opcode) is Some,
            r matches Ok(n) ==> self.name_of(opcode) == Some(n@),
            r matches Err(e) ==> e.kind == ErrorKind::Missing,
    {
        let i = opcode as usize;
        if i < self.by_id.len() {
            match &self.by_id[i] {
                Some(n) => return Ok(n),
                None => {},
            }
        }
        Err(Error::new(ErrorKind::Missing, "missing opcode mapping for id"))
    }

    /// The opcode of the command `name`; a `Missing` error when there is none.
    pub fn opcode_for(&self, name: &str) -> (r: Result<u16, Error>)
        ensures
            r is Ok <==> self.opcode_of(name@) is Some,
            r matches Ok(v) ==> self.opcode_of(name@) == Some(v),
            r matches Err(e) ==> e.kind == ErrorKind::Missing,
    {
        let ghost t = self.entries();
        let mut i = self.by_name.len();
        proof {
            assert(t.take(i as int) =~= t);
        }
        while i > 0
            invariant
                i <= self.by_name@.len(),
                t == entry_view(self.by_name@),
                last_id(t, name@) == last_id(t.take(i as int), name@),
            decreases i,
        {
            i = i - 1;
            proof {
                assert(t.take(i + 1).drop_last() =~= t.take(i as int));
            }
            if str_eq(self.by_name[i].0.as_str(), name) {
                return Ok(self.by_name[i].1);
            }
        }
        Err(Error::new(ErrorKind::Missing, "missing opcode mapping for name"))
    }

    /// The command names of the table, each once, in ascending order.
    pub fn commands(&self) -> (r: Vec<String>)
        ensures
            crate::text::views(r@) == self.names(),
    {
        let mut out: Vec<String> = Vec::new();
        let mut i: usize = 0;
        while i < self.by_name.len()
            invariant
                i <= self.by_name@.len(),
                crate::text::views(out@) == self.names().take(i as int),
            decreases self.by_name@.len() - i,
        {
            let n = self.by_name[i].0.clone();
            let ghost before = out@;
            out.push(n);
            proof {
                assert(crate::text::views(out@) =~= crate::text::views(before).push(n@));
                assert(self.names().take(i + 1) =~= self.names().take(i as int).push(n@));
            }
            i = i + 1;
        }
        proof {
            assert(self.names().take(i as int) =~= self.names());
        }
        out
    }

    /// Whether an unknown command at `opcode` carries a 4-byte operand.
    pub fn has_large_operand(&self, opcode: u16) -> (r: bool)
        ensures
            r == self.large(opcode),
    {
        let i = opcode as usize;
        i < self.large_by_id.len() && self.large_by_id[i]
    }
}

// ---------------------------------------------------------------------------
// Reading the opcode tables
// ---------------------------------------------------------------------------

/// The `n`-th comma-separated field of `t`.
fn comma_field_of(t: &[char], n: usize) -> (r: Option<Vec<char>>)
    ensures
        match r {
            Some(f) => comma_field(t@, n as nat) == Some(f@),
            None => comma_field(t@, n as nat) is None,
        },
{
    let mut cur: Vec<char> = crate::text::slice_vec(t, 0, t.len());
    proof {
        assert(t@.subrange(0, t@.len() as int) =~= t@);
    }
    let mut j: usize = 0;
    while j < n
        invariant
            j <= n,
            comma_field(t@, n as nat) == comma_field(cur@, (n - j) as nat),
        decreases n - j,
    {
        let k = crate::text::find_char_from(&cur, ',', 0);
        proof {
            assert(cur@.skip(0) =~= cur@);
        }
        if k >= cur.len() {
            return None;
        }
        let ghost prev = cur@;
        cur = crate::text::slice_vec(&cur, k + 1, cur.len());
        proof {
            assert(cur@ =~= prev.skip(k + 1));
        }
        j = j + 1;
    }
    let k = crate::text::find_char_from(&cur, ',', 0);
    proof {
        assert(cur@.skip(0) =~= cur@);
        assert(cur@.subrange(0, k as int) =~= cur@.take(k as int));
    }
    Some(crate::text::slice_vec(&cur, 0, k))
}

proof fn lemma_last_id_found(t: Seq<(Seq<char>, u16)>, n: Seq<char>)
    ensures
        last_id(t, n) matches Some(v) ==> exists|i: int| 0 <= i < t.len() && t[i] == (n, v),
        last_id(t, n) is None ==> forall|i: int| 0 <= i < t.len() ==> t[i].0 != n,
    decreases t.len(),
{
    if t.len() > 0 {
        lemma_last_id_found(t.drop_last(), n);
        if last_id(t, n) is Some && t.last().0 != n {
            let v = last_id(t, n)->0;
            let i = choose|i: int| 0 <= i < t.drop_last().len() && t.drop_last()[i] == (n, v);
            assert(t[i] == t.drop_last()[i]);
        }
        if last_id(t, n) is None {
            assert forall|i: int| 0 <= i < t.len() implies t[i].0 != n by {
                if i < t.len() - 1 {
                    assert(t[i] == t.drop_last()[i]);
                }
            }
        }
    }
}

proof fn lemma_sorted_drop_last(t: Seq<(Seq<char>, u16)>)
    requires
        sorted_names(t),
        t.len() > 0,
    ensures
        sorted_names(t.drop_last()),
{
    let d = t.drop_last();
    assert forall|a: int, b: int| 0 <= a < b < d.len() implies seq_lt(#[trigger] d[a].0, #[trigger] d[b].0) by {
        assert(d[a] == t[a]);
        assert(d[b] == t[b]);
    }
}

proof fn lemma_last_id_sorted(t: Seq<(Seq<char>, u16)>, i: int)
    requires
        sorted_names(t),
        0 <= i < t.len(),
    ensures
        last_id(t, t[i].0) == Some(t[i].1),
    decreases t.len(),
{
    if i < t.len() - 1 {
        assert(seq_lt(t[i].0, t[t.len() - 1].0));
        crate::text::lemma_seq_lt_irreflexive(t[i].0);
        lemma_sorted_drop_last(t);
        assert(t.drop_last()[i] == t[i]);
        lemma_last_id_sorted(t.drop_last(), i);
    }
}

/// In a sorted table, `last_id` is the value of the one entry of a name.
proof fn lemma_last_id_sorted_iff(t: Seq<(Seq<char>, u16)>, n: Seq<char>, v: u16)
    requires
        sorted_names(t),
    ensures
        last_id(t, n) == Some(v) <==> exists|i: int| 0 <= i < t.len() && t[i] == (n, v),
        last_id(t, n) is None <==> forall|i: int| 0 <= i < t.len() ==> t[i].0 != n,
{
    lemma_last_id_found(t, n);
    if exists|i: int| 0 <= i < t.len() && t[i] == (n, v) {
        let i = choose|i: int| 0 <= i < t.len() && t[i] == (n, v);
        lemma_last_id_sorted(t, i);
    }
    if !(forall|i: int| 0 <= i < t.len() ==> t[i].0 != n) {
        let i = choose|i: int| !(0 <= i < t.len() ==> t[i].0 != n);
        lemma_last_id_sorted(t, i);
    }
}

/// The first position whose name does not sort before `name`.
fn lower_bound(t: &Vec<(String, u16)>, name: &[char]) -> (pos: usize)
    ensures
        pos <= t@.len(),
        forall|k: int| 0 <= k < pos ==> seq_lt(#[trigger] entry_view(t@)[k].0, name@),
        pos < t@.len() ==> !seq_lt(entry_view(t@)[pos as int].0, name@),
{
    let mut pos: usize = 0;
    while pos < t.len()
        invariant
            pos <= t@.len(),
            forall|k: int| 0 <= k < pos ==> seq_lt(#[trigger] entry_view(t@)[k].0, name@),
        decreases t@.len() - pos,
    {
        let cur = chars_of(t[pos].0.as_str());
        if !crate::text::chars_lt(&cur, name) {
            return pos;
        }
        pos = pos + 1;
    }
    pos
}

/// Gives `name` the opcode `id` in a sorted table, in place when the name
/// is there, else at its sorted position.
fn insert_entry(t: &mut Vec<(String, u16)>, name: &[char], id: u16)
    requires
        sorted_names(entry_view(old(t)@)),
    ensures
        sorted_names(entry_view(final(t)@)),
        forall|n: Seq<char>|
            #[trigger] last_id(entry_view(final(t)@), n) == if n == name@ {
                Some(id)
            } else {
                last_id(entry_view(old(t)@), n)
            },
{
    let ghost tv = entry_view(t@);
    let pos = lower_bound(t, name);
    let nm = crate::text::string_of(name);
    let same = pos < t.len() && str_eq(t[pos].0.as_str(), nm.as_str());
    if same {
        t.set(pos, (nm, id));
        proof {
            let tw = entry_view(t@);
            assert(tw =~= tv.update(pos as int, (name@, id)));
            assert(sorted_names(tw)) by {
                assert forall|a: int, b: int| 0 <= a < b < tw.len() implies seq_lt(
                    #[trigger] tw[a].0,
                    #[trigger] tw[b].0,
                ) by {
                    assert(tw[a].0 == tv[a].0);
                    assert(tw[b].0 == tv[b].0);
                }
            }
            assert forall|n: Seq<char>| #[trigger]
                last_id(tw, n) == if n == name@ {
                    Some(id)
                } else {
                    last_id(tv, n)
                } by {
                if n == name@ {
                    lemma_last_id_sorted(tw, pos as int);
                } else {
                    match last_id(tv, n) {
                        Some(v) => {
                            lemma_last_id_sorted_iff(tv, n, v);
                            let i = choose|i: int| 0 <= i < tv.len() && tv[i] == (n, v);
                            assert(tw[i] == tv[i]);
                            lemma_last_id_sorted_iff(tw, n, v);
                        },
                        None => {
                            lemma_last_id_sorted_iff(tv, n, 0);
                            assert forall|i: int| 0 <= i < tw.len() implies tw[i].0 != n by {
                                if i != pos {
                                    assert(tw[i] == tv[i]);
                                }
                            }
                            lemma_last_id_sorted_iff(tw, n, 0);
                        },
                    }
                }
            }
        }
    } else {
        t.insert(pos, (nm, id));
        proof {
            let tw = entry_view(t@);
            assert(tw =~= tv.insert(pos as int, (name@, id)));
            // every name at or after `pos` sorts after `name`
            assert forall|k: int| pos <= k < tv.len() implies seq_lt(name@, #[trigger] tv[k].0) by {
                crate::text::lemma_seq_lt_total(name@, tv[pos as int].0);
                if k > pos {
                    crate::text::lemma_seq_lt_transitive(name@, tv[pos as int].0, tv[k].0);
                }
            }
            assert(sorted_names(tw)) by {
                assert forall|a: int, b: int| 0 <= a < b < tw.len() implies seq_lt(
                    #[trigger] tw[a].0,
                    #[trigger] tw[b].0,
                ) by {
                    if b < pos {
                        assert(tw[a] == tv[a]);
                        assert(tw[b] == tv[b]);
                    } else if b == pos {
                        assert(tw[a] == tv[a]);
                    } else if a < pos {
                        assert(tw[a] == tv[a]);
                        assert(tw[b] == tv[b - 1]);
                        assert(seq_lt(tv[a].0, name@));
                        assert(seq_lt(name@, tv[b - 1].0));
                        crate::text::lemma_seq_lt_transitive(tv[a].0, name@, tv[b - 1].0);
                    } else if a == pos {
                        assert(tw[b] == tv[b - 1]);
                    } else {
                        assert(tw[a] == tv[a - 1]);
                        assert(tw[b] == tv[b - 1]);
                    }
                }
            }
            assert forall|n: Seq<char>| #[trigger]
                last_id(tw, n) == if n == name@ {
                    Some(id)
                } else {
                    last_id(tv, n)
                } by {
                if n == name@ {
                    lemma_last_id_sorted(tw, pos as int);
                } else {
                    match last_id(tv, n) {
                        Some(v) => {
                            lemma_last_id_sorted_iff(tv, n, v);
                            let i = choose|i: int| 0 <= i < tv.len() && tv[i] == (n, v);
                            if i < pos {
                                assert(tw[i] == tv[i]);
                            } else {
                                assert(tw[i + 1] == tv[i]);
                            }
                            lemma_last_id_sorted_iff(tw, n, v);
                        },
                        None => {
                            lemma_last_id_sorted_iff(tv, n, 0);
                            assert forall|i: int| 0 <= i < tw.len() implies tw[i].0 != n by {
                                if i < pos {
                                    assert(tw[i] == tv[i]);
                                } else if i > pos {
                                    assert(tw[i] == tv[i - 1]);
                                }
                            }
                            lemma_last_id_sorted_iff(tw, n, 0);
                        },
                    }
                }
            }
        }
    }
}


/// One line of an opcode table, read.
enum RowRead {
    Skip,
    Entry(Vec<char>, u16),
    Fault(RowFault),
}

fn read_opcode_row(line: &[char], version: u32) -> (r: RowRead)
    ensures
        match r {
            RowRead::Skip => opcode_row(line@, version) is Skip,
            RowRead::Entry(n, id) => opcode_row(line@, version) == OpcodeRow::Entry(n@, id),
            RowRead::Fault(f) => opcode_row(line@, version) == OpcodeRow::Fault(f),
        },
{
    let t = crate::text::trim_chars(line);
    if t.len() == 0 || crate::text::starts_with(&t, "//") {
        return RowRead::Skip;
    }
    let id_text = match comma_field_of(&t, 1) {
        Some(x) => x,
        None => return RowRead::Fault(RowFault::MissingId),
    };
    let g = match comma_field_of(&t, 2) {
        Some(x) => crate::text::trim_chars(&x),
        None => Vec::new(),
    };
    proof {
        assert(g@ == gate_text(t@));
    }
    if g.len() > 0 {
        match crate::text::parse_u32(&g) {
            None => return RowRead::Fault(RowFault::BadGate),
            Some(gate) => if gate > version {
                return RowRead::Skip;
            },
        }
    }
    match crate::text::parse_u16(&crate::text::trim_chars(&id_text)) {
        None => RowRead::Fault(RowFault::BadId),
        Some(id) => match comma_field_of(&t, 0) {
            Some(f) => RowRead::Entry(crate::text::trim_chars(&f), id),
            None => RowRead::Fault(RowFault::MissingId),
        },
    }
}

/// One line of a large-operand table, read.
enum LargeRead {
    Skip,
    Flag(usize, bool),
    Fault(RowFault),
}

fn read_large_row(line: &[char]) -> (r: LargeRead)
    ensures
        match r {
            LargeRead::Skip => large_row(line@) is Skip,
            LargeRead::Flag(id, b) => large_row(line@) == LargeRow::Flag(id as int, b),
            LargeRead::Fault(f) => large_row(line@) == LargeRow::Fault(f),
        },
{
    let t = crate::text::trim_chars(line);
    if t.len() == 0 || crate::text::starts_with(&t, "//") {
        return LargeRead::Skip;
    }
    let first = match comma_field_of(&t, 0) {
        Some(x) => x,
        None => return LargeRead::Skip,
    };
    let id = match crate::text::parse_usize(&crate::text::trim_chars(&first)) {
        Some(v) => v,
        None => return LargeRead::Fault(RowFault::BadLargeId),
    };
    let flag = match comma_field_of(&t, 1) {
        Some(x) => x,
        None => return LargeRead::Fault(RowFault::MissingFlag),
    };
    match crate::text::parse_u8(&crate::text::trim_chars(&flag)) {
        Some(v) => LargeRead::Flag(id, v != 0),
        None => LargeRead::Fault(RowFault::BadFlag),
    }
}

fn fault_error(f: RowFault) -> (e: Error)
    ensures
        e.kind == fault_kind(f),
{
    match f {
        RowFault::MissingId => Error::new(ErrorKind::Missing, "opcode row missing id"),
        RowFault::BadGate => Error::new(ErrorKind::Invalid, "invalid opcode version gate"),
        RowFault::BadId => Error::new(ErrorKind::Invalid, "invalid opcode id in row"),
        RowFault::BadLargeId => Error::new(ErrorKind::Invalid, "invalid large-operand id in row"),
        RowFault::MissingFlag => Error::new(ErrorKind::Missing, "large-operand row missing flag"),
        RowFault::BadFlag => Error::new(ErrorKind::Invalid, "invalid large-operand flag in row"),
    }
}

/// The sorted name table of an opcode table text.
fn read_opcode_table(opcodes: &str, version: u32) -> (r: Result<Vec<(String, u16)>, Error>)
    ensures
        r is Ok <==> opcode_entries(lines_spec(opcodes@), version) is Ok,
        r matches Err(e) ==> e.kind == fault_kind(opcode_entries(lines_spec(opcodes@), version)->Err_0),
        r matches Ok(t) ==> sorted_names(entry_view(t@)) && forall|n: Seq<char>| #[trigger]
            last_id(entry_view(t@), n) == last_id(opcode_entries(lines_spec(opcodes@), version)->Ok_0, n),
{
    let cs = chars_of(opcodes);
    let ls = crate::text::lines(&cs);
    let ghost all = lines_spec(opcodes@);
    let mut t: Vec<(String, u16)> = Vec::new();
    let ghost mut es: Seq<(Seq<char>, u16)> = seq![];
    let mut i: usize = 0;
    while i < ls.len()
        invariant
            i <= ls@.len(),
            ls.deep_view() == all,
            all == lines_spec(opcodes@),
            opcode_entries(all.take(i as int), version) == Ok::<Seq<(Seq<char>, u16)>, RowFault>(es),
            sorted_names(entry_view(t@)),
            forall|n: Seq<char>| #[trigger] last_id(entry_view(t@), n) == last_id(es, n),
        decreases ls@.len() - i,
    {
        proof {
            assert(ls.deep_view()[i as int] == ls@[i as int]@);
            assert(all.take(i + 1).drop_last() =~= all.take(i as int));
            assert(all.take(i + 1).last() == all[i as int]);
        }
        match read_opcode_row(&ls[i], version) {
            RowRead::Skip => {},
            RowRead::Entry(n, id) => {
                insert_entry(&mut t, &n, id);
                let ghost old_es = es;
                proof {
                    es = es.push((n@, id));
                    assert(es.drop_last() =~= old_es);
                    assert forall|m: Seq<char>| #[trigger] last_id(entry_view(t@), m) == last_id(es, m) by {
                    }
                }
            },
            RowRead::Fault(f) => {
                proof {
                    lemma_entries_err_stays(all, (i + 1) as int, version);
                }
                return Err(fault_error(f));
            },
        }
        i = i + 1;
    }
    proof {
        assert(all.take(i as int) =~= all);
    }
    Ok(t)
}

proof fn lemma_entries_err_stays(lines: Seq<Seq<char>>, k: int, version: u32)
    requires
        0 <= k <= lines.len(),
        opcode_entries(lines.take(k), version) is Err,
    ensures
        opcode_entries(lines, version) == opcode_entries(lines.take(k), version),
    decreases lines.len() - k,
{
    if k < lines.len() {
        assert(lines.take(k + 1).drop_last() =~= lines.take(k));
        lemma_entries_err_stays(lines, k + 1, version);
    } else {
        assert(lines.take(k) =~= lines);
    }
}

proof fn lemma_flags_err_stays(lines: Seq<Seq<char>>, k: int)
    requires
        0 <= k <= lines.len(),
        large_flags(lines.take(k)) is Err,
    ensures
        large_flags(lines) == large_flags(lines.take(k)),
    decreases lines.len() - k,
{
    if k < lines.len() {
        assert(lines.take(k + 1).drop_last() =~= lines.take(k));
        lemma_flags_err_stays(lines, k + 1);
    } else {
        assert(lines.take(k) =~= lines);
    }
}

/// `by_id` of a sorted table: for each opcode up to the largest, the last
/// name in table order that has it.
fn ids_table(t: &Vec<(String, u16)>) -> (r: Vec<Option<String>>)
    ensures
        r@.len() >= 1,
        forall|op: u16|
            #[trigger] last_with_id(entry_view(t@), op) == if (op as int) < r@.len() {
                opt_view(r@[op as int])
            } else {
                None
            },
{
    let ghost tv = entry_view(t@);
    let mut max_id: u16 = 0;
    let mut k: usize = 0;
    while k < t.len()
        invariant
            k <= t@.len(),
            tv == entry_view(t@),
            forall|j: int| 0 <= j < k ==> #[trigger] tv[j].1 <= max_id,
        decreases t@.len() - k,
    {
        if t[k].1 > max_id {
            max_id = t[k].1;
        }
        k = k + 1;
    }
    let len: usize = max_id as usize + 1;
    let mut by_id: Vec<Option<String>> = Vec::new();
    while by_id.len() < len
        invariant
            by_id@.len() <= len,
            forall|j: int| 0 <= j < by_id@.len() ==> #[trigger] by_id@[j] is None,
        decreases len - by_id@.len(),
    {
        by_id.push(None);
    }
    let mut k: usize = 0;
    while k < t.len()
        invariant
            k <= t@.len(),
            tv == entry_view(t@),
            by_id@.len() == len,
            len == max_id as int + 1,
            forall|j: int| 0 <= j < t@.len() ==> #[trigger] tv[j].1 <= max_id,
            forall|op: int| 0 <= op < len ==> opt_view(#[trigger] by_id@[op]) == last_with_id(tv.take(k as int), op as u16),
        decreases t@.len() - k,
    {
        proof {
            assert(tv.take(k + 1).drop_last() =~= tv.take(k as int));
            assert(tv.take(k + 1).last() == tv[k as int]);
        }
        proof {
            assert(tv[k as int].1 == t@[k as int].1);
        }
        let idx = t[k].1 as usize;
        let n = t[k].0.clone();
        by_id.set(idx, Some(n));
        k = k + 1;
        proof {
            assert forall|op: int| 0 <= op < len implies opt_view(#[trigger] by_id@[op]) == last_with_id(
                tv.take(k as int),
                op as u16,
            ) by {
                assert((op as u16) as int == op);
            }
        }
    }
    proof {
        assert(tv.take(k as int) =~= tv);
        assert forall|op: u16| #[trigger]
            last_with_id(tv, op) == if (op as int) < by_id@.len() {
                opt_view(by_id@[op as int])
            } else {
                None
            } by {
            if (op as int) >= by_id@.len() {
                lemma_last_with_id_absent(tv, op);
            }
        }
    }
    by_id
}

proof fn lemma_last_with_id_absent(t: Seq<(Seq<char>, u16)>, op: u16)
    requires
        forall|j: int| 0 <= j < t.len() ==> #[trigger] t[j].1 != op,
    ensures
        last_with_id(t, op) is None,
    decreases t.len(),
{
    if t.len() > 0 {
        assert forall|j: int| 0 <= j < t.drop_last().len() implies #[trigger] t.drop_last()[j].1 != op by {
            assert(t.drop_last()[j] == t[j]);
        }
        lemma_last_with_id_absent(t.drop_last(), op);
    }
}

/// The large-operand flags of a table text, for a table of `len` opcodes.
fn read_large_table(large: &str, len: usize) -> (r: Result<Vec<bool>, Error>)
    ensures
        r is Ok <==> large_flags(lines_spec(large@)) is Ok,
        r matches Err(e) ==> e.kind == fault_kind(large_flags(lines_spec(large@))->Err_0),
        r matches Ok(v) ==> forall|op: u16|
            #[trigger] last_flag(large_flags(lines_spec(large@))->Ok_0, op as int) == ((op as int) < v@.len()
                && v@[op as int]),
{
    let cs = chars_of(large);
    let ls = crate::text::lines(&cs);
    let ghost all = lines_spec(large@);
    let mut v: Vec<bool> = Vec::new();
    while v.len() < len
        invariant
            forall|j: int| 0 <= j < v@.len() ==> !#[trigger] v@[j],
        decreases len - v@.len(),
    {
        v.push(false);
    }
    let ghost mut fs: Seq<(int, bool)> = seq![];
    let mut i: usize = 0;
    while i < ls.len()
        invariant
            i <= ls@.len(),
            ls.deep_view() == all,
            all == lines_spec(large@),
            large_flags(all.take(i as int)) == Ok::<Seq<(int, bool)>, RowFault>(fs),
            forall|op: u16| #[trigger] last_flag(fs, op as int) == ((op as int) < v@.len() && v@[op as int]),
        decreases ls@.len() - i,
    {
        proof {
            assert(ls.deep_view()[i as int] == ls@[i as int]@);
            assert(all.take(i + 1).drop_last() =~= all.take(i as int));
            assert(all.take(i + 1).last() == all[i as int]);
        }
        match read_large_row(&ls[i]) {
            LargeRead::Skip => {},
            LargeRead::Flag(id, b) => {
                if id <= 65535 {
                    while v.len() <= id
                        invariant
                            forall|op: u16| #[trigger] last_flag(fs, op as int) == ((op as int) < v@.len() && v@[op as int]),
                        decreases id + 1 - v@.len(),
                    {
                        v.push(false);
                    }
                    v.set(id, b);
                }
                let ghost old_fs = fs;
                proof {
                    fs = fs.push((id as int, b));
                    assert(fs.drop_last() =~= old_fs);
                    assert forall|op: u16| #[trigger] last_flag(fs, op as int) == ((op as int) < v@.len()
                        && v@[op as int]) by {
                        assert(last_flag(old_fs, op as int) == ((op as int) < v@.len() && v@[op as int])
                            || op as int == id);
                    }
                }
            },
            LargeRead::Fault(f) => {
                proof {
                    lemma_flags_err_stays(all, (i + 1) as int);
                }
                return Err(fault_error(f));
            },
        }
        i = i + 1;
    }
    proof {
        assert(all.take(i as int) =~= all);
    }
    Ok(v)
}

impl OpcodeBook {
    /// An opcode table read from its text form: lines `name,id[,build]`
    /// (blank lines and `//` comments skipped; rows whose build limit is a later
    /// build than `version` left out; a later row for a name replacing an
    /// earlier one), and optionally a large-operand table of lines
    /// `id,flag`. The first refused row of either table is the error.
    pub fn from_tables(opcodes: &str, large: Option<&str>, version: u32) -> (r: Result<OpcodeBook, Error>)
        ensures
            ({
                let es = opcode_entries(lines_spec(opcodes@), version);
                let fs = large_table(
                    match large {
                        Some(l) => Some(l@),
                        None => None,
                    },
                );
                &&& r is Ok <==> (es is Ok && fs is Ok)
                &&& es matches Err(f) ==> (r matches Err(e) && e.kind == fault_kind(f))
                &&& es is Ok ==> (fs matches Err(f) ==> (r matches Err(e) && e.kind == fault_kind(f)))
                &&& r matches Ok(b) ==> {
                    &&& b.wf()
                    &&& sorted_names(b.entries())
                    &&& forall|n: Seq<char>| #[trigger] b.opcode_of(n) == last_id(es->Ok_0, n)
                    &&& forall|op: u16| #[trigger] b.name_of(op) == last_with_id(b.entries(), op)
                    &&& forall|op: u16| #[trigger] b.large(op) == last_flag(fs->Ok_0, op as int)
                }
            }),
    {
        let table = match read_opcode_table(opcodes, version) {
            Ok(t) => t,
            Err(e) => return Err(e),
        };
        let by_id = ids_table(&table);
        let large_by_id = match large {
            Some(l) => match read_large_table(l, by_id.len()) {
                Ok(v) => v,
                Err(e) => return Err(e),
            },
            None => {
                let mut v: Vec<bool> = Vec::new();
                while v.len() < by_id.len()
                    invariant
                        forall|j: int| 0 <= j < v@.len() ==> !#[trigger] v@[j],
                    decreases by_id@.len() - v@.len(),
                {
                    v.push(false);
                }
                v
            },
        };
        let book = OpcodeBook { by_id, by_name: table, large_by_id };
        proof {
            assert forall|op: u16| #[trigger] book.name_of(op) == last_with_id(book.entries(), op) by {
                assert(book.entries() == entry_view(table@));
            }
        }
        Ok(book)
    }
}

// ---------------------------------------------------------------------------
// Bytecode reading, as a specification
// ---------------------------------------------------------------------------

/// One byte at `p`, and the position after it.
pub open spec fn rd1(b: Seq<u8>, p: int) -> Option<(int, int)> {
    if 0 <= p && p + 1 <= b.len() {
        Some((b[p] as int, p + 1))
    } else {
        None
    }
}

/// An unsigned 16-bit value at `p`, and the position after it.
pub open spec fn rd2(b: Seq<u8>, p: int) -> Option<(int, int)> {
    if 0 <= p && p + 2 <= b.len() {
        Some((be16(b, p), p + 2))
    } else {
        None
    }
}

/// A signed 32-bit value at `p`, and the position after it.
pub open spec fn rd4(b: Seq<u8>, p: int) -> Option<(int, int)> {
    if 0 <= p && p + 4 <= b.len() {
        Some((signed32(be32(b, p)), p + 4))
    } else {
        None
    }
}

/// A signed 64-bit value at `p`, and the position after it.
pub open spec fn rd8(b: Seq<u8>, p: int) -> Option<(int, int)> {
    if 0 <= p && p + 8 <= b.len() {
        Some((signed64(be64(b, p)), p + 8))
    } else {
        None
    }
}

/// A zero-terminated string at `p`, and the position after its terminator.
pub open spec fn rdstr(b: Seq<u8>, p: int) -> Option<(Seq<char>, int)> {
    if 0 <= p <= b.len() && zero_from(b, p) < b.len() {
        Some((latin1(b.subrange(p, zero_from(b, p))), zero_from(b, p) + 1))
    } else {
        None
    }
}

/// A 4-byte value that must fit a `u16` id.
pub open spec fn rd4_id(b: Seq<u8>, p: int) -> Option<(u16, int)> {
    match rd4(b, p) {
        Some((v, q)) => if 0 <= v <= 65535 {
            Some((v as u16, q))
        } else {
            None
        },
        None => None,
    }
}

/// The switch cases of table `t` for the switch at instruction `index`:
/// each target is the index plus the stored offset, which must fit an `i32`.
pub open spec fn switch_cases(t: Seq<(i32, i32)>, index: int) -> Option<Seq<SwitchCase>>
    decreases t.len(),
{
    if t.len() == 0 {
        Some(seq![])
    } else {
        let target = index + t.last().1;
        if i32::MIN <= target <= i32::MAX {
            match switch_cases(t.drop_last(), index) {
                Some(c) => Some(c.push(SwitchCase { value: t.last().0, target: target as i32 })),
                None => None,
            }
        } else {
            None
        }
    }
}

/// Decoding the operand of a command of class `kind` at `p`: the operand and
/// the position after it, or `None` when the bytes do not hold one.
pub open spec fn decode_operand_spec(
    kind: OperandKind,
    large: bool,
    b: Seq<u8>,
    p: int,
    version: u32,
    index: int,
    tables: Seq<Seq<(i32, i32)>>,
) -> Option<(OperandV, int)> {
    match kind {
        OperandKind::ConstInt => match rd4(b, p) {
            Some((v, q)) => Some((OperandV::Int(v as i32), q)),
            None => None,
        },
        OperandKind::ConstLong => match rd8(b, p) {
            Some((v, q)) => Some((OperandV::Long(v as i64), q)),
            None => None,
        },
        OperandKind::ConstString => if version < 800 {
            match rdstr(b, p) {
                Some((s, q)) => Some((OperandV::Str(s), q)),
                None => None,
            }
        } else {
            match rd1(b, p) {
                Some((tag, q)) => if tag == 0 {
                    match rd4(b, q) {
                        Some((v, r)) => Some((OperandV::Int(v as i32), r)),
                        None => None,
                    }
                } else if tag == 1 {
                    match rd8(b, q) {
                        Some((v, r)) => Some((OperandV::Long(v as i64), r)),
                        None => None,
                    }
                } else if tag == 2 {
                    match rdstr(b, q) {
                        Some((s, r)) => Some((OperandV::Str(s), r)),
                        None => None,
                    }
                } else {
                    None
                },
                None => None,
            }
        },
        OperandKind::Local => match rd4(b, p) {
            Some((v, q)) => Some((OperandV::Local(v as i32), q)),
            None => None,
        },
        OperandKind::Var => if version < 800 {
            match rd4_id(b, p) {
                Some((id, q)) => Some(
                    (OperandV::VarRef(VarRef { domain: VarDomain::Player, id, transmog: false }), q),
                ),
                None => None,
            }
        } else {
            match rd1(b, p) {
                Some((d, q)) => match domain_from_id(d as u8) {
                    Some(domain) => match rd2(b, q) {
                        Some((id, r)) => match rd1(b, r) {
                            Some((t, s)) => Some(
                                (
                                    OperandV::VarRef(
                                        VarRef { domain, id: id as u16, transmog: t == 1 },
                                    ),
                                    s,
                                ),
                            ),
                            None => None,
                        },
                        None => None,
                    },
                    None => None,
                },
                None => None,
            }
        },
        OperandKind::VarBit => if version < 800 {
            match rd4_id(b, p) {
                Some((id, q)) => Some((OperandV::VarBitRef(VarBitRef { id, transmog: false }), q)),
                None => None,
            }
        } else {
            match rd2(b, p) {
                Some((id, q)) => match rd1(b, q) {
                    Some((t, r)) => Some(
                        (OperandV::VarBitRef(VarBitRef { id: id as u16, transmog: t == 1 }), r),
                    ),
                    None => None,
                },
                None => None,
            }
        },
        OperandKind::FixedVar(domain) => match rd4_id(b, p) {
            Some((id, q)) => Some((OperandV::VarRef(VarRef { domain, id, transmog: false }), q)),
            None => None,
        },
        OperandKind::FixedVarBit => match rd4_id(b, p) {
            Some((id, q)) => Some((OperandV::VarBitRef(VarBitRef { id, transmog: false }), q)),
            None => None,
        },
        OperandKind::Branch => match rd4(b, p) {
            Some((v, q)) => if i32::MIN <= index + v <= i32::MAX {
                Some((OperandV::Branch((index + v) as i32), q))
            } else {
                None
            },
            None => None,
        },
        OperandKind::Switch => match rd4(b, p) {
            Some((t, q)) => if 0 <= t < tables.len() {
                match switch_cases(tables[t], index) {
                    Some(c) => Some((OperandV::Switch(c), q)),
                    None => None,
                }
            } else {
                None
            },
            None => None,
        },
        OperandKind::Count => match rd4(b, p) {
            Some((v, q)) => Some((OperandV::Count(v as i32), q)),
            None => None,
        },
        OperandKind::Script => match rd4(b, p) {
            Some((v, q)) => Some((OperandV::Script(v as i32), q)),
            None => None,
        },
        OperandKind::Array => match rd4(b, p) {
            Some((v, q)) => Some((OperandV::Array(v as i32), q)),
            None => None,
        },
        OperandKind::Other => if large {
            match rd4(b, p) {
                Some((v, q)) => Some((OperandV::Int(v as i32), q)),
                None => None,
            }
        } else {
            match rd1(b, p) {
                Some((v, q)) => Some((OperandV::Byte(v as u8), q)),
                None => None,
            }
        },
    }
}


// ---------------------------------------------------------------------------
// Bytecode decoder
// ---------------------------------------------------------------------------

fn read_id(packet: &mut Packet) -> (r: Result<u16, Error>)
    requires
        old(packet).wf(),
    ensures
        final(packet).wf(),
        final(packet).data == old(packet).data,
        r is Ok <==> rd4_id(old(packet).data@, old(packet).pos as int) is Some,
        r matches Ok(v) ==> rd4_id(old(packet).data@, old(packet).pos as int) == Some(
            (v, final(packet).pos as int),
        ),
{
    let v = packet.g4s()?;
    if v < 0 || v > 65535 {
        return Err(Error::new(ErrorKind::Overflow, "var id out of range"));
    }
    Ok(v as u16)
}

/// The switch cases of a decoded table for the switch at `index`.
fn build_cases(table: &Vec<(i32, i32)>, index: i32) -> (r: Result<Vec<SwitchCase>, Error>)
    ensures
        r is Ok <==> switch_cases(table@, index as int) is Some,
        r matches Ok(c) ==> switch_cases(table@, index as int) == Some(c@),
{
    let mut out: Vec<SwitchCase> = Vec::new();
    let mut i: usize = 0;
    while i < table.len()
        invariant
            i <= table@.len(),
            switch_cases(table@.take(i as int), index as int) == Some(out@),
        decreases table@.len() - i,
    {
        let (value, offset) = table[i];
        let ghost t = table@.take(i + 1);
        proof {
            assert(t.drop_last() =~= table@.take(i as int));
            assert(t.last() == table@[i as int]);
        }
        match index.checked_add(offset) {
            Some(target) => {
                out.push(SwitchCase { value, target });
                i = i + 1;
            },
            None => {
                proof {
                    lemma_switch_cases_prefix_none(table@, index as int, (i + 1) as int);
                }
                return Err(Error::new(ErrorKind::Overflow, "switch target out of range"));
            },
        }
    }
    proof {
        assert(table@.take(i as int) =~= table@);
    }
    Ok(out)
}

/// When a prefix of a table has an out-of-range target, so has the table.
proof fn lemma_switch_cases_prefix_none(t: Seq<(i32, i32)>, index: int, n: int)
    requires
        0 <= n <= t.len(),
        switch_cases(t.take(n), index) is None,
    ensures
        switch_cases(t, index) is None,
    decreases t.len() - n,
{
    if n < t.len() {
        assert(t.take(n + 1).drop_last() =~= t.take(n));
        lemma_switch_cases_prefix_none(t, index, n + 1);
    } else {
        assert(t.take(n) =~= t);
    }
}

/// Decodes the operand of `command` at the packet position.
pub fn decode_operand(
    command: &[char],
    is_large_operand: bool,
    packet: &mut Packet,
    version: u32,
    index: i32,
    tables: &Vec<Vec<(i32, i32)>>,
) -> (r: Result<Operand, Error>)
    requires
        old(packet).wf(),
    ensures
        final(packet).wf(),
        final(packet).data == old(packet).data,
        ({
            let spec = decode_operand_spec(
                operand_kind(command@),
                is_large_operand,
                old(packet).data@,
                old(packet).pos as int,
                version,
                index as int,
                tables.deep_view(),
            );
            &&& r is Ok <==> spec is Some
            &&& r matches Ok(op) ==> spec == Some((op@, final(packet).pos as int))
        }),
{
    let ghost b = packet.data@;
    let ghost p = packet.pos as int;
    match classify_command(command) {
        OperandKind::ConstInt => Ok(Operand::Int(packet.g4s()?)),
        OperandKind::ConstLong => Ok(Operand::Long(packet.g8s()?)),
        OperandKind::ConstString => {
            if version < 800 {
                Ok(Operand::Str(packet.gjstr()?))
            } else {
                let tag = packet.g1()?;
                if tag == 0 {
                    Ok(Operand::Int(packet.g4s()?))
                } else if tag == 1 {
                    Ok(Operand::Long(packet.g8s()?))
                } else if tag == 2 {
                    Ok(Operand::Str(packet.gjstr()?))
                } else {
                    Err(Error::new(ErrorKind::Invalid, "unsupported typed constant tag"))
                }
            }
        },
        OperandKind::Local => Ok(Operand::Local(packet.g4s()?)),
        OperandKind::Var => {
            if version < 800 {
                let id = read_id(packet)?;
                Ok(Operand::VarRef(VarRef { domain: VarDomain::Player, id, transmog: false }))
            } else {
                let d = packet.g1()?;
                let domain = VarDomain::from_id(d)?;
                let id = packet.g2()?;
                let t = packet.g1()?;
                Ok(Operand::VarRef(VarRef { domain, id, transmog: t == 1 }))
            }
        },
        OperandKind::VarBit => {
            if version < 800 {
                let id = read_id(packet)?;
                Ok(Operand::VarBitRef(VarBitRef { id, transmog: false }))
            } else {
                let id = packet.g2()?;
                let t = packet.g1()?;
                Ok(Operand::VarBitRef(VarBitRef { id, transmog: t == 1 }))
            }
        },
        OperandKind::FixedVar(domain) => {
            let id = read_id(packet)?;
            Ok(Operand::VarRef(VarRef { domain, id, transmog: false }))
        },
        OperandKind::FixedVarBit => {
            let id = read_id(packet)?;
            Ok(Operand::VarBitRef(VarBitRef { id, transmog: false }))
        },
        OperandKind::Branch => {
            let off = packet.g4s()?;
            match index.checked_add(off) {
                Some(t) => Ok(Operand::Branch(t)),
                None => Err(Error::new(ErrorKind::Overflow, "branch target out of range")),
            }
        },
        OperandKind::Switch => {
            let t = packet.g4s()?;
            if t < 0 || (t as usize) >= tables.len() {
                return Err(Error::new(ErrorKind::Invalid, "switch table out of range"));
            }
            proof {
                assert(tables.deep_view()[t as int] == tables@[t as int]@);
            }
            let cases = build_cases(&tables[t as usize], index)?;
            Ok(Operand::Switch(cases))
        },
        OperandKind::Count => Ok(Operand::Count(packet.g4s()?)),
        OperandKind::Script => Ok(Operand::Script(packet.g4s()?)),
        OperandKind::Array => Ok(Operand::Array(packet.g4s()?)),
        OperandKind::Other => {
            if is_large_operand {
                Ok(Operand::Int(packet.g4s()?))
            } else {
                Ok(Operand::Byte(packet.g1()?))
            }
        },
    }
}


/// A decoded operand always takes at least one byte.
proof fn lemma_operand_advances(
    kind: OperandKind,
    large: bool,
    b: Seq<u8>,
    p: int,
    version: u32,
    index: int,
    tables: Seq<Seq<(i32, i32)>>,
)
    requires
        0 <= p <= b.len(),
        decode_operand_spec(kind, large, b, p, version, index, tables) is Some,
    ensures
        decode_operand_spec(kind, large, b, p, version, index, tables).unwrap().1 > p,
{
    crate::packet::lemma_zero_from(b, p);
    if p + 1 <= b.len() {
        crate::packet::lemma_zero_from(b, p + 1);
    }
}

/// An unsigned 16-bit value at `p` when `present`, otherwise zero without
/// reading.
pub open spec fn rd2_if(b: Seq<u8>, p: int, present: bool) -> Option<(int, int)> {
    if present {
        rd2(b, p)
    } else {
        Some((0, p))
    }
}

/// An optional zero-terminated string at `p`: a lone zero byte means none.
pub open spec fn rdstrnull(b: Seq<u8>, p: int) -> Option<(Option<Seq<char>>, int)> {
    if 0 <= p < b.len() && b[p] == 0 {
        Some((None, p + 1))
    } else {
        match rdstr(b, p) {
            Some((s, q)) => Some((Some(s), q)),
            None => None,
        }
    }
}

/// `n` switch cases (value, offset) read from `p`, appended to `acc`.
pub open spec fn decode_cases_spec(b: Seq<u8>, p: int, n: int, acc: Seq<(i32, i32)>) -> Option<
    (Seq<(i32, i32)>, int),
>
    decreases n,
{
    if n <= 0 {
        Some((acc, p))
    } else {
        match rd4(b, p) {
            Some((v, q)) => match rd4(b, q) {
                Some((o, r)) => decode_cases_spec(b, r, n - 1, acc.push((v as i32, o as i32))),
                None => None,
            },
            None => None,
        }
    }
}

/// `n` switch tables read from `p`, appended to `acc`.
pub open spec fn decode_tables_spec(
    b: Seq<u8>,
    p: int,
    n: int,
    acc: Seq<Seq<(i32, i32)>>,
) -> Option<(Seq<Seq<(i32, i32)>>, int)>
    decreases n,
{
    if n <= 0 {
        Some((acc, p))
    } else {
        match rd2(b, p) {
            Some((count, q)) => match decode_cases_spec(b, q, count, seq![]) {
                Some((t, r)) => decode_tables_spec(b, r, n - 1, acc.push(t)),
                None => None,
            },
            None => None,
        }
    }
}

/// The name a decoded instruction gets: the table's, or `cmd_<opcode>`.
pub open spec fn command_name(book: OpcodeBook, opcode: u16) -> Seq<char> {
    match book.name_of(opcode) {
        Some(n) => n,
        None => "cmd_"@ + crate::text::dec_nat(opcode as nat),
    }
}

/// One instruction at `p` (the `index`-th), and the position after it.
pub open spec fn decode_instr_spec(
    book: OpcodeBook,
    b: Seq<u8>,
    p: int,
    version: u32,
    index: int,
    tables: Seq<Seq<(i32, i32)>>,
) -> Option<(InstructionV, int)> {
    match rd2(b, p) {
        Some((op, q)) => {
            let cmd = command_name(book, op as u16);
            match decode_operand_spec(
                operand_kind(cmd),
                book.large(op as u16),
                b,
                q,
                version,
                index,
                tables,
            ) {
                Some((o, r)) => Some((InstructionV { opcode: op as u16, command: cmd, operand: o }, r)),
                None => None,
            }
        },
        None => None,
    }
}

/// The instructions from `p` up to the code end `end`, appended to `acc`:
/// instructions are read while the position is before `end`.
pub open spec fn decode_code_spec(
    book: OpcodeBook,
    b: Seq<u8>,
    p: int,
    end: int,
    version: u32,
    tables: Seq<Seq<(i32, i32)>>,
    acc: Seq<InstructionV>,
) -> Option<Seq<InstructionV>>
    decreases (if p < end {
        end - p
    } else {
        0
    }),
{
    if p >= end {
        Some(acc)
    } else if acc.len() > i32::MAX {
        None
    } else {
        match decode_instr_spec(book, b, p, version, acc.len() as int, tables) {
            Some((i, q)) => if q > p {
                decode_code_spec(book, b, q, end, version, tables, acc.push(i))
            } else {
                None
            },
            None => None,
        }
    }
}

/// The size of the header at the end of the script: the instruction count
/// and six (or four, before build 642) local and argument counts, plus,
/// from build 488, the switch tables and their 2-byte size.
pub open spec fn header_size_spec(b: Seq<u8>, version: u32) -> Option<int> {
    let base: int = if version >= 642 {
        16
    } else {
        12
    };
    if version >= 488 {
        let tp: int = if b.len() >= 2 {
            b.len() - 2
        } else {
            0
        };
        match rd2(b, tp) {
            Some((t, _)) => Some(base + 2 + t),
            None => None,
        }
    } else {
        Some(base)
    }
}

/// The fields of the script header.
pub struct HeaderV {
    pub code_len: int,
    pub counts: (u16, u16, u16, u16, u16, u16),
    pub tables: Seq<Seq<(i32, i32)>>,
}

/// Reading the header that starts at `hp`.
pub open spec fn decode_header_spec(b: Seq<u8>, hp: int, version: u32) -> Option<HeaderV> {
    let modern = version >= 642;
    match rd4(b, hp) {
        Some((code_len, p1)) => if code_len < 0 {
            None
        } else {
            match rd2(b, p1) {
                Some((li, p2)) => match rd2(b, p2) {
                    Some((lo, p3)) => match rd2_if(b, p3, modern) {
                        Some((ll, p4)) => match rd2(b, p4) {
                            Some((ai, p5)) => match rd2(b, p5) {
                                Some((ao, p6)) => match rd2_if(b, p6, modern) {
                                    Some((al, p7)) => {
                                        let counts = (
                                            li as u16,
                                            lo as u16,
                                            ll as u16,
                                            ai as u16,
                                            ao as u16,
                                            al as u16,
                                        );
                                        if version >= 488 {
                                            match rd1(b, p7) {
                                                Some((n, p8)) => match decode_tables_spec(
                                                    b,
                                                    p8,
                                                    n,
                                                    seq![],
                                                ) {
                                                    Some((tables, _)) => Some(
                                                        HeaderV { code_len, counts, tables },
                                                    ),
                                                    None => None,
                                                },
                                                None => None,
                                            }
                                        } else {
                                            Some(HeaderV { code_len, counts, tables: seq![] })
                                        }
                                    },
                                    None => None,
                                },
                                None => None,
                            },
                            None => None,
                        },
                        None => None,
                    },
                    None => None,
                },
                None => None,
            }
        },
        None => None,
    }
}

/// The script built from a decoded header, name and instruction list;
/// from build 947 the instruction count must match the header's.
pub open spec fn assemble_script(
    name: Option<Seq<char>>,
    h: HeaderV,
    code: Option<Seq<InstructionV>>,
    version: u32,
) -> Option<ScriptV> {
    match code {
        Some(code) => if version >= MIN_SCRIPT_BUILD && code.len() != h.code_len {
            None
        } else {
            Some(
                ScriptV {
                    name,
                    local_count_int: h.counts.0,
                    local_count_object: h.counts.1,
                    local_count_long: h.counts.2,
                    argument_count_int: h.counts.3,
                    argument_count_object: h.counts.4,
                    argument_count_long: h.counts.5,
                    code,
                },
            )
        },
        None => None,
    }
}

/// Decoding a whole script: `None` exactly when `decode_script` fails.
pub open spec fn decode_script_spec(book: OpcodeBook, b: Seq<u8>, version: u32) -> Option<ScriptV> {
    match header_size_spec(b, version) {
        Some(hs) => if hs > b.len() {
            None
        } else {
            let hp = b.len() - hs;
            match decode_header_spec(b, hp, version) {
                Some(h) => {
                    let named = if version >= 459 {
                        rdstrnull(b, 0)
                    } else {
                        Some((None, 0))
                    };
                    match named {
                        Some((name, p)) => assemble_script(
                            name,
                            h,
                            decode_code_spec(book, b, p, hp, version, h.tables, seq![]),
                            version,
                        ),
                        None => None,
                    }
                },
                None => None,
            }
        },
        None => None,
    }
}

fn read_cases(packet: &mut Packet, n: u16) -> (r: Result<Vec<(i32, i32)>, Error>)
    requires
        old(packet).wf(),
    ensures
        final(packet).wf(),
        final(packet).data@ == old(packet).data@,
        ({
            let spec = decode_cases_spec(old(packet).data@, old(packet).pos as int, n as int, seq![]);
            &&& r is Ok <==> spec is Some
            &&& r matches Ok(t) ==> spec == Some((t@, final(packet).pos as int))
        }),
{
    let ghost b = packet.data@;
    let ghost p0 = packet.pos as int;
    let mut out: Vec<(i32, i32)> = Vec::new();
    let mut i: u16 = 0;
    while i < n
        invariant
            i <= n,
            packet.wf(),
            packet.data@ == b,
            b == old(packet).data@,
            p0 == old(packet).pos,
            decode_cases_spec(b, p0, n as int, seq![]) == decode_cases_spec(
                b,
                packet.pos as int,
                (n - i) as int,
                out@,
            ),
        decreases n - i,
    {
        let v = packet.g4s()?;
        let o = packet.g4s()?;
        out.push((v, o));
        i = i + 1;
    }
    Ok(out)
}

fn read_tables(packet: &mut Packet, n: u8) -> (r: Result<Vec<Vec<(i32, i32)>>, Error>)
    requires
        old(packet).wf(),
    ensures
        final(packet).wf(),
        final(packet).data@ == old(packet).data@,
        ({
            let spec = decode_tables_spec(old(packet).data@, old(packet).pos as int, n as int, seq![]);
            &&& r is Ok <==> spec is Some
            &&& r matches Ok(t) ==> spec == Some((t.deep_view(), final(packet).pos as int))
        }),
{
    let ghost b = packet.data@;
    let ghost p0 = packet.pos as int;
    let mut out: Vec<Vec<(i32, i32)>> = Vec::new();
    let mut i: u8 = 0;
    proof {
        assert(out.deep_view() =~= Seq::<Seq<(i32, i32)>>::empty());
    }
    while i < n
        invariant
            i <= n,
            packet.wf(),
            packet.data@ == b,
            b == old(packet).data@,
            p0 == old(packet).pos,
            decode_tables_spec(b, p0, n as int, seq![]) == decode_tables_spec(
                b,
                packet.pos as int,
                (n - i) as int,
                out.deep_view(),
            ),
        decreases n - i,
    {
        let count = packet.g2()?;
        let t = read_cases(packet, count)?;
        let ghost old_out = out.deep_view();
        proof {
            assert(t.deep_view() =~= t@);
        }
        out.push(t);
        proof {
            assert(out.deep_view() =~= old_out.push(t@));
        }
        i = i + 1;
    }
    Ok(out)
}

/// The name a decoded instruction gets: the table's, or `cmd_<opcode>`.
fn decoded_command_name(book: &OpcodeBook, opcode: u16) -> (r: String)
    ensures
        r@ == command_name(*book, opcode),
{
    match book.name(opcode) {
        Ok(n) => n.clone(),
        Err(_) => {
            let mut s = crate::text::string_from("cmd_");
            crate::text::push_u64(&mut s, opcode as u64);
            s
        },
    }
}

/// Decodes the instructions from the packet position up to `end`.
fn decode_code(
    packet: &mut Packet,
    book: &OpcodeBook,
    version: u32,
    tables: &Vec<Vec<(i32, i32)>>,
    end: usize,
) -> (r: Result<Vec<Instruction>, Error>)
    requires
        old(packet).wf(),
        end <= old(packet).data@.len(),
    ensures
        ({
            let spec = decode_code_spec(
                *book,
                old(packet).data@,
                old(packet).pos as int,
                end as int,
                version,
                tables.deep_view(),
                seq![],
            );
            &&& r is Ok <==> spec is Some
            &&& r matches Ok(c) ==> spec == Some(code_view(c@))
        }),
{
    let ghost b = packet.data@;
    let ghost tv = tables.deep_view();
    let ghost start = packet.pos as int;
    let mut code: Vec<Instruction> = Vec::new();
    proof {
        assert(code_view(code@) =~= Seq::<InstructionV>::empty());
    }
    while packet.pos() < end
        invariant
            packet.wf(),
            packet.data@ == b,
            end <= b.len(),
            tv == tables.deep_view(),
            b == old(packet).data@,
            start == old(packet).pos as int,
            decode_code_spec(*book, b, start, end as int, version, tv, seq![]) == decode_code_spec(
                *book,
                b,
                packet.pos as int,
                end as int,
                version,
                tv,
                code_view(code@),
            ),
        decreases b.len() - packet.pos,
    {
        let ghost p = packet.pos as int;
        let ghost acc = code_view(code@);
        if code.len() > 2147483647 {
            return Err(Error::new(ErrorKind::Overflow, "script too large"));
        }
        let index = code.len() as i32;
        let opcode = packet.g2()?;
        let command = decoded_command_name(book, opcode);
        let cmd_chars = chars_of(command.as_str());
        let large = book.has_large_operand(opcode);
        let operand = decode_operand(&cmd_chars, large, packet, version, index, tables)?;
        let ghost old_code = code@;
        let ins = Instruction { opcode, command, operand };
        proof {
            assert(decode_instr_spec(*book, b, p, version, acc.len() as int, tv) == Some(
                (ins@, packet.pos as int),
            ));
            lemma_operand_advances(
                operand_kind(command@),
                large,
                b,
                p + 2,
                version,
                acc.len() as int,
                tv,
            );
        }
        code.push(ins);
        proof {
            assert(code_view(code@) =~= code_view(old_code).push(ins@));
        }
    }
    Ok(code)
}

/// Decodes compiled script bytes for `version` with the opcode table `book`.
///
/// Layout: optional name at the start (from build 459), the instructions,
/// then a header at the end holding the instruction count, local and
/// argument counts and (from build 488) the switch tables, whose size is in
/// the last two bytes. Fails exactly when `decode_script_spec` has no value.
pub fn decode_script(data: &[u8], book: &OpcodeBook, version: u32) -> (r: Result<
    CompiledScript,
    Error,
>)
    ensures
        r is Ok <==> decode_script_spec(*book, data@, version) is Some,
        r matches Ok(s) ==> decode_script_spec(*book, data@, version) == Some(s@),
{
    let ghost b = data@;
    let mut packet = Packet::new(data);
    let mut header_size: usize = if version >= 642 {
        16
    } else {
        12
    };
    if version >= 488 {
        let tp: usize = if data.len() >= 2 {
            data.len() - 2
        } else {
            0
        };
        packet.set_pos(tp)?;
        let trailer = packet.g2()?;
        header_size = header_size + 2 + trailer as usize;
    }
    if header_size > data.len() {
        return Err(Error::new(ErrorKind::Invalid, "invalid script header size"));
    }
    let header_pos = data.len() - header_size;
    packet.set_pos(header_pos)?;
    let code_len_raw = packet.g4s()?;
    if code_len_raw < 0 {
        return Err(Error::new(ErrorKind::Invalid, "negative script code length"));
    }
    let code_len = code_len_raw as usize;
    let local_count_int = packet.g2()?;
    let local_count_object = packet.g2()?;
    let local_count_long = if version >= 642 {
        packet.g2()?
    } else {
        0
    };
    let argument_count_int = packet.g2()?;
    let argument_count_object = packet.g2()?;
    let argument_count_long = if version >= 642 {
        packet.g2()?
    } else {
        0
    };
    let tables = if version >= 488 {
        let n = packet.g1()?;
        read_tables(&mut packet, n)?
    } else {
        Vec::new()
    };
    proof {
        assert(tables.deep_view() =~= decode_header_spec(b, header_pos as int, version).unwrap().tables);
    }
    packet.set_pos(0)?;
    let name = if version >= 459 {
        packet.gjstrnull()?
    } else {
        None
    };
    let ghost start = packet.pos as int;
    let ghost h = decode_header_spec(b, header_pos as int, version).unwrap();
    let code = decode_code(&mut packet, book, version, &tables, header_pos)?;
    if version >= MIN_SCRIPT_BUILD && code.len() != code_len {
        return Err(Error::new(ErrorKind::Invalid, "script code length mismatch"));
    }
    Ok(
        CompiledScript {
            name,
            local_count_int,
            local_count_object,
            local_count_long,
            argument_count_int,
            argument_count_object,
            argument_count_long,
            code,
        },
    )
}


/// The names of the build-specific data files of `stem`, most specific
/// first: `<stem>-<version>-<subversion>.txt`, then `<stem>-<version>.txt`;
/// builds before 685 have none.
pub fn scoped_data_file_names(stem: &str, version: u32, subversion: u32) -> (r: Vec<String>)
    ensures
        version < 685 ==> r@.len() == 0,
        version >= 685 ==> r@.len() == 2 && r@[0]@ == stem@ + "-"@ + crate::text::dec_nat(version as nat) + "-"@
            + crate::text::dec_nat(subversion as nat) + ".txt"@ && r@[1]@ == stem@ + "-"@ + crate::text::dec_nat(
            version as nat,
        ) + ".txt"@,
{
    let mut out: Vec<String> = Vec::new();
    if version < 685 {
        return out;
    }
    let mut scoped = crate::text::string_from(stem);
    crate::text::push_str(&mut scoped, "-");
    crate::text::push_u64(&mut scoped, version as u64);
    crate::text::push_str(&mut scoped, "-");
    crate::text::push_u64(&mut scoped, subversion as u64);
    crate::text::push_str(&mut scoped, ".txt");
    let mut fallback = crate::text::string_from(stem);
    crate::text::push_str(&mut fallback, "-");
    crate::text::push_u64(&mut fallback, version as u64);
    crate::text::push_str(&mut fallback, ".txt");
    out.push(scoped);
    out.push(fallback);
    out
}

} // verus!
