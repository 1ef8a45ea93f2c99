//! A plain listing of a compiled script in TypeScript-like pseudo code: a
//! header with the script's name and counts, the declaration of its
//! arguments and locals, and one numbered line per instruction in which
//! known variables, varbits and scripts appear under their names.
use crate::error::Error;
use crate::script::{
    code_view, decode_script, decode_script_spec, CompiledScript, Instruction, InstructionV, OpcodeBook,
    Operand, OperandV, ScriptV, SwitchCase, VarBitRef, VarRef,
};
use crate::text::{
    chars_of, dec_int, dec_nat, join_sep, join_strings, pad5, push_chars, push_i64, push_pad5, push_str,
    push_u64, remove_underscores, str_eq, string_from, string_push, views, without_underscores,
};
use crate::transpile::names::{sanitize_ident_spec, sanitize_ts_ident};
use crate::transpile::structured::{escape_seq, push_escaped};
use crate::vars::{domain_id, domain_label, VarDomain};
use vstd::prelude::*;

verus! {

broadcast use vstd::string::group_string_axioms;

// ---------------------------------------------------------------------------
// Name tables
// ---------------------------------------------------------------------------

/// The latest binding of `k` in `t`.
pub open spec fn last_binding<K>(t: Seq<(K, Seq<char>)>, k: K) -> Option<Seq<char>>
    decreases t.len(),
{
    if t.len() == 0 {
        None
    } else if t.last().0 == k {
        Some(t.last().1)
    } else {
        last_binding(t.drop_last(), k)
    }
}

/// The bindings of a table, names by their characters.
pub open spec fn bindings<K>(t: Seq<(K, String)>) -> Seq<(K, Seq<char>)> {
    t.map_values(|e: (K, String)| (e.0, e.1@))
}

proof fn lemma_bindings_push<K>(t: Seq<(K, String)>, e: (K, String))
    ensures
        bindings(t.push(e)) == bindings(t).push((e.0, e.1@)),
{
    assert(bindings(t.push(e)) =~= bindings(t).push((e.0, e.1@)));
}

/// Enum names, `enum_<id>`, keyed by config id.
pub open spec fn enum_bindings(v: Seq<(u32, u32)>) -> Seq<(u32, Seq<char>)> {
    v.map_values(|e: (u32, u32)| (e.0, "enum_"@ + dec_nat(e.1 as nat)))
}

/// Param names, `param_<id>`, keyed by config id.
pub open spec fn param_bindings(v: Seq<(u32, u32)>) -> Seq<(u32, Seq<char>)> {
    v.map_values(|e: (u32, u32)| (e.0, "param_"@ + dec_nat(e.1 as nat)))
}

/// Variable names keyed by domain and id (the id cut to 16 bits).
pub open spec fn var_bindings(v: Seq<(VarDomain, u32, String)>) -> Seq<((VarDomain, u16), Seq<char>)> {
    v.map_values(|e: (VarDomain, u32, String)| ((e.0, e.1 as u16), e.2@))
}

/// Varbit names keyed by id (cut to 16 bits).
pub open spec fn varbit_bindings(v: Seq<(u32, String)>) -> Seq<(u16, Seq<char>)> {
    v.map_values(|e: (u32, String)| (e.0 as u16, e.1@))
}

/// The scripts' own names: for each script whose bytes decode and that
/// carries a name, that name under its id.
pub open spec fn script_name_bindings(book: OpcodeBook, scripts: Seq<(u32, Vec<u8>)>, version: u32) -> Seq<
    (i32, Seq<char>),
>
    decreases scripts.len(),
{
    if scripts.len() == 0 {
        seq![]
    } else {
        let rest = script_name_bindings(book, scripts.drop_last(), version);
        let (id, data) = scripts.last();
        match decode_script_spec(book, data@, version) {
            Some(s) => match s.name {
                Some(n) => rest.push((id as i32, n)),
                None => rest,
            },
            None => rest,
        }
    }
}

/// Builds pseudo-code listings; holds the names it knows for enums,
/// variables, varbits, params and scripts. A later binding of a key
/// shadows an earlier one.
pub struct Transpiler {
    enum_map: Vec<(u32, String)>,
    var_map: Vec<((VarDomain, u16), String)>,
    varbit_map: Vec<(u16, String)>,
    param_map: Vec<(u32, String)>,
    script_names: Vec<(i32, String)>,
}

impl Transpiler {
    /// The enum bindings, oldest first.
    pub closed spec fn enum_table(&self) -> Seq<(u32, Seq<char>)> {
        bindings(self.enum_map@)
    }

    /// The variable bindings, oldest first.
    pub closed spec fn var_table(&self) -> Seq<((VarDomain, u16), Seq<char>)> {
        bindings(self.var_map@)
    }

    /// The varbit bindings, oldest first.
    pub closed spec fn varbit_table(&self) -> Seq<(u16, Seq<char>)> {
        bindings(self.varbit_map@)
    }

    /// The param bindings, oldest first.
    pub closed spec fn param_table(&self) -> Seq<(u32, Seq<char>)> {
        bindings(self.param_map@)
    }

    /// The script name bindings, oldest first.
    pub closed spec fn script_table(&self) -> Seq<(i32, Seq<char>)> {
        bindings(self.script_names@)
    }

    /// The name of a variable, if one is bound.
    pub open spec fn var_name(&self, d: VarDomain, id: u16) -> Option<Seq<char>> {
        last_binding(self.var_table(), (d, id))
    }

    /// The name of a varbit, if one is bound.
    pub open spec fn varbit_name(&self, id: u16) -> Option<Seq<char>> {
        last_binding(self.varbit_table(), id)
    }

    /// The name of a script, if one is bound.
    pub open spec fn script_name(&self, id: i32) -> Option<Seq<char>> {
        last_binding(self.script_table(), id)
    }

    /// A transpiler that knows no names.
    pub fn new() -> (r: Self)
        ensures
            r.enum_table() == Seq::<(u32, Seq<char>)>::empty(),
            r.var_table() == Seq::<((VarDomain, u16), Seq<char>)>::empty(),
            r.varbit_table() == Seq::<(u16, Seq<char>)>::empty(),
            r.param_table() == Seq::<(u32, Seq<char>)>::empty(),
            r.script_table() == Seq::<(i32, Seq<char>)>::empty(),
    {
        let r = Transpiler {
            enum_map: Vec::new(),
            var_map: Vec::new(),
            varbit_map: Vec::new(),
            param_map: Vec::new(),
            script_names: Vec::new(),
        };
        proof {
            assert(r.enum_table() =~= Seq::<(u32, Seq<char>)>::empty());
            assert(r.var_table() =~= Seq::<((VarDomain, u16), Seq<char>)>::empty());
            assert(r.varbit_table() =~= Seq::<(u16, Seq<char>)>::empty());
            assert(r.param_table() =~= Seq::<(u32, Seq<char>)>::empty());
            assert(r.script_table() =~= Seq::<(i32, Seq<char>)>::empty());
        }
        r
    }

    /// Binds `enum_<entry id>` to each enum config id (pairs of config id
    /// and entry id).
    pub fn with_enums(self, enums: &Vec<(u32, u32)>) -> (r: Self)
        ensures
            r.enum_table() == self.enum_table() + enum_bindings(enums@),
            r.var_table() == self.var_table(),
            r.varbit_table() == self.varbit_table(),
            r.param_table() == self.param_table(),
            r.script_table() == self.script_table(),
    {
        let mut t = self;
        let ghost start = t.enum_table();
        let mut i: usize = 0;
        while i < enums.len()
            invariant
                i <= enums@.len(),
                t.enum_table() == start + enum_bindings(enums@).take(i as int),
                t.var_table() == self.var_table(),
                t.varbit_table() == self.varbit_table(),
                t.param_table() == self.param_table(),
                t.script_table() == self.script_table(),
            decreases enums@.len() - i,
        {
            let (key, id) = enums[i];
            let mut name = string_from("enum_");
            push_u64(&mut name, id as u64);
            let ghost before = t.enum_map@;
            t.enum_map.push((key, name));
            proof {
                lemma_bindings_push(before, (key, name));
                assert(enum_bindings(enums@).take(i + 1) =~= enum_bindings(enums@).take(i as int).push(
                    (key, "enum_"@ + dec_nat(id as nat)),
                ));
            }
            i = i + 1;
        }
        proof {
            assert(enum_bindings(enums@).take(i as int) =~= enum_bindings(enums@));
        }
        t
    }

    /// Binds variable names (domain, id, name), each id cut to 16 bits.
    pub fn with_vars(self, vars: &Vec<(VarDomain, u32, String)>) -> (r: Self)
        ensures
            r.var_table() == self.var_table() + var_bindings(vars@),
            r.enum_table() == self.enum_table(),
            r.varbit_table() == self.varbit_table(),
            r.param_table() == self.param_table(),
            r.script_table() == self.script_table(),
    {
        let mut t = self;
        let ghost start = t.var_table();
        let mut i: usize = 0;
        while i < vars.len()
            invariant
                i <= vars@.len(),
                t.var_table() == start + var_bindings(vars@).take(i as int),
                t.enum_table() == self.enum_table(),
                t.varbit_table() == self.varbit_table(),
                t.param_table() == self.param_table(),
                t.script_table() == self.script_table(),
            decreases vars@.len() - i,
        {
            let d = vars[i].0;
            let id = vars[i].1 as u16;
            let name = vars[i].2.clone();
            let ghost before = t.var_map@;
            t.var_map.push(((d, id), name));
            proof {
                lemma_bindings_push(before, ((d, id), name));
                assert(var_bindings(vars@).take(i + 1) =~= var_bindings(vars@).take(i as int).push(
                    ((d, id), vars@[i as int].2@),
                ));
            }
            i = i + 1;
        }
        proof {
            assert(var_bindings(vars@).take(i as int) =~= var_bindings(vars@));
        }
        t
    }

    /// Binds varbit names (id, name), each id cut to 16 bits.
    pub fn with_varbits(self, varbits: &Vec<(u32, String)>) -> (r: Self)
        ensures
            r.varbit_table() == self.varbit_table() + varbit_bindings(varbits@),
            r.enum_table() == self.enum_table(),
            r.var_table() == self.var_table(),
            r.param_table() == self.param_table(),
            r.script_table() == self.script_table(),
    {
        let mut t = self;
        let ghost start = t.varbit_table();
        let mut i: usize = 0;
        while i < varbits.len()
            invariant
                i <= varbits@.len(),
                t.varbit_table() == start + varbit_bindings(varbits@).take(i as int),
                t.enum_table() == self.enum_table(),
                t.var_table() == self.var_table(),
                t.param_table() == self.param_table(),
                t.script_table() == self.script_table(),
            decreases varbits@.len() - i,
        {
            let id = varbits[i].0 as u16;
            let name = varbits[i].1.clone();
            let ghost before = t.varbit_map@;
            t.varbit_map.push((id, name));
            proof {
                lemma_bindings_push(before, (id, name));
                assert(varbit_bindings(varbits@).take(i + 1) =~= varbit_bindings(varbits@).take(
                    i as int,
                ).push((id, varbits@[i as int].1@)));
            }
            i = i + 1;
        }
        proof {
            assert(varbit_bindings(varbits@).take(i as int) =~= varbit_bindings(varbits@));
        }
        t
    }

    /// Binds `param_<entry id>` to each param config id (pairs of config id
    /// and entry id).
    pub fn with_params(self, params: &Vec<(u32, u32)>) -> (r: Self)
        ensures
            r.param_table() == self.param_table() + param_bindings(params@),
            r.enum_table() == self.enum_table(),
            r.var_table() == self.var_table(),
            r.varbit_table() == self.varbit_table(),
            r.script_table() == self.script_table(),
    {
        let mut t = self;
        let ghost start = t.param_table();
        let mut i: usize = 0;
        while i < params.len()
            invariant
                i <= params@.len(),
                t.param_table() == start + param_bindings(params@).take(i as int),
                t.enum_table() == self.enum_table(),
                t.var_table() == self.var_table(),
                t.varbit_table() == self.varbit_table(),
                t.script_table() == self.script_table(),
            decreases params@.len() - i,
        {
            let (key, id) = params[i];
            let mut name = string_from("param_");
            push_u64(&mut name, id as u64);
            let ghost before = t.param_map@;
            t.param_map.push((key, name));
            proof {
                lemma_bindings_push(before, (key, name));
                assert(param_bindings(params@).take(i + 1) =~= param_bindings(params@).take(i as int).push(
                    (key, "param_"@ + dec_nat(id as nat)),
                ));
            }
            i = i + 1;
        }
        proof {
            assert(param_bindings(params@).take(i as int) =~= param_bindings(params@));
        }
        t
    }

    /// Binds the name each script carries in its own bytes, for the scripts
    /// (id, bytes) that decode with `opcode_book` and carry a name.
    pub fn with_script_names(self, scripts: &Vec<(u32, Vec<u8>)>, opcode_book: &OpcodeBook, version: u32) -> (r:
        Self)
        ensures
            r.script_table() == self.script_table() + script_name_bindings(*opcode_book, scripts@, version),
            r.enum_table() == self.enum_table(),
            r.var_table() == self.var_table(),
            r.varbit_table() == self.varbit_table(),
            r.param_table() == self.param_table(),
    {
        let mut t = self;
        let ghost start = t.script_table();
        let mut i: usize = 0;
        while i < scripts.len()
            invariant
                i <= scripts@.len(),
                t.script_table() == start + script_name_bindings(*opcode_book, scripts@.take(i as int), version),
                t.enum_table() == self.enum_table(),
                t.var_table() == self.var_table(),
                t.varbit_table() == self.varbit_table(),
                t.param_table() == self.param_table(),
            decreases scripts@.len() - i,
        {
            proof {
                assert(scripts@.take(i + 1).drop_last() =~= scripts@.take(i as int));
                assert(scripts@.take(i + 1).last() == scripts@[i as int]);
            }
            let id = scripts[i].0;
            match decode_script(&scripts[i].1, opcode_book, version) {
                Ok(s) => match s.name {
                    Some(n) => {
                        let ghost before = t.script_names@;
                        t.script_names.push((id as i32, n));
                        proof {
                            lemma_bindings_push(before, (id as i32, n));
                            assert(t.script_table() =~= start + script_name_bindings(
                                *opcode_book,
                                scripts@.take(i + 1),
                                version,
                            ));
                        }
                    },
                    None => {},
                },
                Err(_) => {},
            }
            i = i + 1;
        }
        proof {
            assert(scripts@.take(i as int) =~= scripts@);
        }
        t
    }

    /// The name bound to script `script_id`, if any.
    pub fn script_name_for(&self, script_id: i32) -> (r: Option<String>)
        ensures
            match r {
                Some(n) => self.script_name(script_id) == Some(n@),
                None => self.script_name(script_id) is None,
            },
    {
        match lookup_i32(&self.script_names, script_id) {
            Some(n) => Some(n.clone()),
            None => None,
        }
    }
}

impl Default for Transpiler {
    fn default() -> (r: Self)
        ensures
            r.enum_table() == Seq::<(u32, Seq<char>)>::empty(),
            r.var_table() == Seq::<((VarDomain, u16), Seq<char>)>::empty(),
            r.varbit_table() == Seq::<(u16, Seq<char>)>::empty(),
            r.param_table() == Seq::<(u32, Seq<char>)>::empty(),
            r.script_table() == Seq::<(i32, Seq<char>)>::empty(),
    {
        Transpiler::new()
    }
}

fn lookup_var(t: &Vec<((VarDomain, u16), String)>, d: VarDomain, id: u16) -> (r: Option<&String>)
    ensures
        match r {
            Some(n) => last_binding(bindings(t@), (d, id)) == Some(n@),
            None => last_binding(bindings(t@), (d, id)) is None,
        },
{
    let mut i = t.len();
    proof {
        assert(bindings(t@).take(i as int) =~= bindings(t@));
    }
    while i > 0
        invariant
            i <= t@.len(),
            last_binding(bindings(t@), (d, id)) == last_binding(bindings(t@).take(i as int), (d, id)),
        decreases i,
    {
        i = i - 1;
        proof {
            assert(bindings(t@).take(i + 1).drop_last() =~= bindings(t@).take(i as int));
        }
        if t[i].0.0 == d && t[i].0.1 == id {
            return Some(&t[i].1);
        }
    }
    None
}

fn lookup_u16(t: &Vec<(u16, String)>, k: u16) -> (r: Option<&String>)
    ensures
        match r {
            Some(n) => last_binding(bindings(t@), k) == Some(n@),
            None => last_binding(bindings(t@), k) is None,
        },
{
    let mut i = t.len();
    proof {
        assert(bindings(t@).take(i as int) =~= bindings(t@));
    }
    while i > 0
        invariant
            i <= t@.len(),
            last_binding(bindings(t@), k) == last_binding(bindings(t@).take(i as int), k),
        decreases i,
    {
        i = i - 1;
        proof {
            assert(bindings(t@).take(i + 1).drop_last() =~= bindings(t@).take(i as int));
        }
        if t[i].0 == k {
            return Some(&t[i].1);
        }
    }
    None
}

fn lookup_i32(t: &Vec<(i32, String)>, k: i32) -> (r: Option<&String>)
    ensures
        match r {
            Some(n) => last_binding(bindings(t@), k) == Some(n@),
            None => last_binding(bindings(t@), k) is None,
        },
{
    let mut i = t.len();
    proof {
        assert(bindings(t@).take(i as int) =~= bindings(t@));
    }
    while i > 0
        invariant
            i <= t@.len(),
            last_binding(bindings(t@), k) == last_binding(bindings(t@).take(i as int), k),
        decreases i,
    {
        i = i - 1;
        proof {
            assert(bindings(t@).take(i + 1).drop_last() =~= bindings(t@).take(i as int));
        }
        if t[i].0 == k {
            return Some(&t[i].1);
        }
    }
    None
}

// ---------------------------------------------------------------------------
// Text of operands and instructions
// ---------------------------------------------------------------------------

/// `head(inner);`
pub open spec fn call_of(head: Seq<char>, inner: Seq<char>) -> Seq<char> {
    head + "("@ + inner + ");"@
}

/// A switch arm in an operand: `<value>-><target>`.
pub open spec fn arm_raw(c: SwitchCase) -> Seq<char> {
    dec_int(c.value as int) + "->"@ + dec_int(c.target as int)
}

/// The raw spelling of an operand.
pub open spec fn operand_raw(op: OperandV) -> Seq<char> {
    match op {
        OperandV::Int(v) => dec_int(v as int),
        OperandV::Long(v) => dec_int(v as int) + "n"@,
        OperandV::Str(t) => "\""@ + escape_seq(t) + "\""@,
        OperandV::Local(i) => "local_"@ + dec_int(i as int),
        OperandV::VarRef(v) => domain_label(v.domain) + ":"@ + dec_nat(v.id as nat),
        OperandV::VarBitRef(v) => "varbit:"@ + dec_nat(v.id as nat),
        OperandV::Branch(t) => "->"@ + dec_int(t as int),
        OperandV::Switch(cases) => "{"@ + join_sep(cases.map_values(|c: SwitchCase| arm_raw(c)), ", "@) + "}"@,
        OperandV::Script(id) => "script_"@ + dec_int(id as int),
        OperandV::Array(id) => "array_"@ + dec_int(id as int),
        OperandV::Count(n) => "count_"@ + dec_int(n as int),
        OperandV::Byte(b) => dec_nat(b as nat),
    }
}

/// `<domain id> * 1000000 + <id>`.
pub open spec fn var_key_text(v: VarRef) -> Seq<char> {
    dec_nat(domain_id(v.domain) as nat) + " * 1000000 + "@ + dec_nat(v.id as nat)
}

/// Reading a variable: `push(<name>);` under its name, a typed lookup
/// noting the name for a transmog reference, else a raw lookup.
pub open spec fn var_access(name: Option<Seq<char>>, v: VarRef) -> Seq<char> {
    match name {
        Some(n) => if v.transmog {
            "push(VARS.get("@ + var_key_text(v) + ") as "@ + "number"@ + " /* "@ + n + ":transmog */);"@
        } else {
            call_of("push"@, n)
        },
        None => "push(VARS.get("@ + var_key_text(v) + ")!);"@,
    }
}

/// Reading a varbit, as `var_access` does for variables.
pub open spec fn varbit_access(name: Option<Seq<char>>, v: VarBitRef) -> Seq<char> {
    match name {
        Some(n) => if v.transmog {
            "push(VARBITS.get("@ + dec_nat(v.id as nat) + ") as "@ + n + " /* "@ + n + ":transmog */);"@
        } else {
            call_of("push"@, n)
        },
        None => "push(VARBITS.get("@ + dec_nat(v.id as nat) + ")!);"@,
    }
}

/// The commands that push a client, clan or clan-setting variable.
pub open spec fn is_varc_push(c: Seq<char>) -> bool {
    c == "push_varc_int"@ || c == "push_varc_string"@ || c == "push_varclan"@ || c == "push_varclan_long"@
        || c == "push_varclan_string"@ || c == "push_varclansetting"@ || c == "push_varclansetting_long"@ || c
        == "push_varclansetting_string"@
}

impl Transpiler {
    /// The text of constant, variable and varbit instructions; `None` for
    /// other commands.
    pub open spec fn value_text(&self, c: Seq<char>, op: OperandV) -> Option<Seq<char>> {
        let raw = operand_raw(op);
        if c == "push_constant_int"@ {
            Some(
                match op {
                    OperandV::Int(v) => call_of("push"@, dec_int(v as int)),
                    _ => call_of("push"@, raw),
                },
            )
        } else if c == "push_long_constant"@ {
            Some(
                match op {
                    OperandV::Long(v) => call_of("push"@, dec_int(v as int) + "n"@),
                    _ => call_of("push"@, raw),
                },
            )
        } else if c == "push_constant_string"@ {
            Some(
                match op {
                    OperandV::Str(t) => call_of("push"@, "\""@ + escape_seq(t) + "\""@),
                    _ => call_of("push"@, raw),
                },
            )
        } else if c == "push_var"@ || c == "pop_var"@ {
            Some(
                match op {
                    OperandV::VarRef(v) => var_access(self.var_name(v.domain, v.id), v),
                    _ => call_of("VAR"@, raw),
                },
            )
        } else if c == "push_varbit"@ || c == "pop_varbit"@ {
            Some(
                match op {
                    OperandV::VarBitRef(v) => varbit_access(self.varbit_name(v.id), v),
                    _ => call_of("VARBIT"@, raw),
                },
            )
        } else if is_varc_push(c) {
            Some(
                match op {
                    OperandV::VarRef(v) => var_access(self.var_name(v.domain, v.id), v),
                    _ => call_of("push"@, raw),
                },
            )
        } else if c == "pop_varc_int"@ || c == "pop_varc_string"@ {
            Some(
                match op {
                    OperandV::VarRef(v) => match self.var_name(v.domain, v.id) {
                        Some(n) => n + " = pop();"@,
                        None => "VARS.get("@ + var_key_text(v) + ") = pop();"@,
                    },
                    _ => call_of("pop"@, raw),
                },
            )
        } else if c == "push_varclanbit"@ || c == "push_varclansettingbit"@ {
            Some(
                match op {
                    OperandV::VarBitRef(v) => varbit_access(self.varbit_name(v.id), v),
                    _ => call_of("push"@, raw),
                },
            )
        } else {
            None
        }
    }
}

/// The local-variable commands: whether they push, and the stack they
/// name (`int`, `obj`, `long`).
pub open spec fn local_command(c: Seq<char>) -> Option<(bool, Seq<char>)> {
    if c == "push_int_local"@ {
        Some((true, "int"@))
    } else if c == "pop_int_local"@ {
        Some((false, "int"@))
    } else if c == "push_string_local"@ {
        Some((true, "obj"@))
    } else if c == "pop_string_local"@ {
        Some((false, "obj"@))
    } else if c == "push_long_local"@ {
        Some((true, "long"@))
    } else if c == "pop_long_local"@ {
        Some((false, "long"@))
    } else {
        None
    }
}

/// The text of a local-variable instruction.
pub open spec fn local_text(push: bool, stack: Seq<char>, op: OperandV) -> Seq<char> {
    match op {
        OperandV::Local(i) => if push {
            call_of("push"@, "local_"@ + stack + "_"@ + dec_int(i as int))
        } else {
            "local_"@ + stack + "_"@ + dec_int(i as int) + " = pop();"@
        },
        _ => if push {
            call_of("push"@, operand_raw(op))
        } else {
            call_of("pop"@, operand_raw(op))
        },
    }
}

/// A switch arm in a listing: `case <value>: goto(<target>);`.
pub open spec fn arm_text(c: SwitchCase) -> Seq<char> {
    "case "@ + dec_int(c.value as int) + ": "@ + call_of("goto"@, dec_int(c.target as int))
}

/// The conditional jumps and their conditions.
pub open spec fn branch_condition(c: Seq<char>) -> Option<Seq<char>> {
    if c == "branch_not"@ {
        Some("if (!pop()) "@)
    } else if c == "branch_equals"@ {
        Some("if (pop() == pop()) "@)
    } else if c == "branch_if_true"@ {
        Some("if (pop()) "@)
    } else if c == "branch_if_false"@ {
        Some("if (!pop()) "@)
    } else {
        None
    }
}

/// The interface commands listed as fixed calls.
pub open spec fn fixed_ui_text(c: Seq<char>) -> Option<Seq<char>> {
    if c == "cc_delete"@ {
        Some("UI.delete(pop() as number);"@)
    } else if c == "cc_settext"@ {
        Some("UI.setText(pop() as number, pop() as string);"@)
    } else if c == "cc_setgraphic"@ {
        Some("UI.setGraphic(pop() as number, pop() as number);"@)
    } else if c == "cc_sethide"@ {
        Some("UI.setHide(pop() as number, pop() as boolean);"@)
    } else {
        None
    }
}

impl Transpiler {
    /// The text of locals, jumps, calls, switches, string joins, array
    /// definitions and a few interface commands; `None` for other commands.
    pub open spec fn flow_text(&self, c: Seq<char>, op: OperandV) -> Option<Seq<char>> {
        let raw = operand_raw(op);
        if local_command(c) is Some {
            let (push, stack) = local_command(c)->0;
            Some(local_text(push, stack, op))
        } else if c == "branch"@ {
            Some(
                match op {
                    OperandV::Branch(t) => call_of("goto"@, dec_int(t as int)),
                    _ => call_of("goto"@, raw),
                },
            )
        } else if branch_condition(c) is Some {
            Some(branch_condition(c)->0 + call_of("goto"@, raw))
        } else if c == "gosub_with_params"@ {
            Some(
                match op {
                    OperandV::Script(id) => match self.script_name(id) {
                        Some(n) => sanitize_ident_spec(n) + "(pop());"@,
                        None => "script_"@ + dec_int(id as int) + "(pop());"@,
                    },
                    _ => call_of("call"@, raw),
                },
            )
        } else if c == "switch"@ {
            Some(
                match op {
                    OperandV::Switch(cases) => "switch(pop()) {\n        "@ + join_sep(
                        cases.map_values(|k: SwitchCase| arm_text(k)),
                        "\n        "@,
                    ) + "\n    }"@,
                    _ => call_of("switch"@, raw),
                },
            )
        } else if c == "join_string"@ {
            Some(
                match op {
                    OperandV::Count(n) => "push(pop().concat(...pop_multi("@ + dec_int(n as int) + ")));"@,
                    _ => call_of("concat"@, raw),
                },
            )
        } else if c == "define_array"@ {
            Some(
                match op {
                    OperandV::Array(id) => "array_"@ + dec_int(id as int) + " = [];"@,
                    _ => call_of("define_array"@, raw),
                },
            )
        } else if c == "cc_create"@ {
            Some(
                match op {
                    OperandV::Int(id) => call_of("UI.create"@, dec_int(id as int)),
                    _ => call_of("UI.create"@, raw),
                },
            )
        } else {
            fixed_ui_text(c)
        }
    }

    /// The listing text of one instruction. Commands without a form of
    /// their own are written as a call of their name without underscores
    /// (made an identifier) on the raw operand.
    pub open spec fn instruction_text(&self, ins: InstructionV) -> Seq<char> {
        match self.value_text(ins.command, ins.operand) {
            Some(t) => t,
            None => match self.flow_text(ins.command, ins.operand) {
                Some(t) => t,
                None => call_of(sanitize_ident_spec(without_underscores(ins.command)), operand_raw(ins.operand)),
            },
        }
    }

    /// The numbered instruction lines: `<index, 5 digits>: <text>`.
    pub open spec fn listing_lines(&self, code: Seq<InstructionV>) -> Seq<char>
        decreases code.len(),
    {
        if code.len() == 0 {
            seq![]
        } else {
            self.listing_lines(code.drop_last()) + pad5((code.len() - 1) as nat) + ": "@ + self.instruction_text(
                code.last(),
            ) + "\n"@
        }
    }

    /// The whole listing of a script.
    pub open spec fn source_text(&self, s: ScriptV, script_id: i32) -> Seq<char> {
        header_text(s, script_id) + "\n"@ + "const "@ + locals_decl(
            s.argument_count_int as nat,
            s.argument_count_object as nat,
            s.argument_count_long as nat,
            s.local_count_int as nat,
            s.local_count_object as nat,
            s.local_count_long as nat,
        ) + ";\n\n"@ + "// --- instruction stream ---\n"@ + self.listing_lines(s.code)
    }
}

/// The header lines of a listing: the preamble, the script's own name
/// when it has one, and its local and argument counts.
pub open spec fn header_text(s: ScriptV, script_id: i32) -> Seq<char> {
    "// @ts-nocheck - Auto-generated CS2 to TypeScript\n"@ + "import { VARS, VARBITS, ENUMS, PARAMS } from './index';\n"@
        + "\n"@ + (match s.name {
        Some(n) => "// script name: "@ + n + "\n"@,
        None => seq![],
    }) + "// script_"@ + dec_int(script_id as int) + ": locals(int="@ + dec_nat(s.local_count_int as nat)
        + ", obj="@ + dec_nat(s.local_count_object as nat) + ", long="@ + dec_nat(s.local_count_long as nat)
        + ") args(int="@ + dec_nat(s.argument_count_int as nat) + ", obj="@ + dec_nat(
        s.argument_count_object as nat,
    ) + ", long="@ + dec_nat(s.argument_count_long as nat) + ")\n"@
}

/// `<prefix><i><suffix>` for `i` in `0..n`.
pub open spec fn numbered(prefix: Seq<char>, suffix: Seq<char>, n: nat) -> Seq<Seq<char>> {
    Seq::new(n, |i: int| prefix + dec_nat(i as nat) + suffix)
}

/// The typed declarations of arguments then locals, per stack, joined with
/// `, `; `_` when there are none.
pub open spec fn locals_decl(ai: nat, ao: nat, al: nat, li: nat, lo: nat, ll: nat) -> Seq<char> {
    let parts = numbered("arg_int_"@, ": number"@, ai) + numbered("arg_obj_"@, ": string"@, ao) + numbered(
        "arg_long_"@,
        ": bigint"@,
        al,
    ) + numbered("local_int_"@, ": number"@, li) + numbered("local_obj_"@, ": string"@, lo) + numbered(
        "local_long_"@,
        ": bigint"@,
        ll,
    );
    if parts.len() == 0 {
        "_"@
    } else {
        join_sep(parts, ", "@)
    }
}

/// The variables an instruction stream references, in order.
pub open spec fn var_refs(code: Seq<InstructionV>) -> Seq<(VarDomain, u16)>
    decreases code.len(),
{
    if code.len() == 0 {
        seq![]
    } else {
        let rest = var_refs(code.drop_last());
        match code.last().operand {
            OperandV::VarRef(v) => rest.push((v.domain, v.id)),
            _ => rest,
        }
    }
}

/// The varbits an instruction stream references, in order.
pub open spec fn varbit_refs(code: Seq<InstructionV>) -> Seq<u16>
    decreases code.len(),
{
    if code.len() == 0 {
        seq![]
    } else {
        let rest = varbit_refs(code.drop_last());
        match code.last().operand {
            OperandV::VarBitRef(v) => rest.push(v.id),
            _ => rest,
        }
    }
}

/// The positive integer constants of an instruction stream, in order
/// (each may name an enum).
pub open spec fn enum_refs(code: Seq<InstructionV>) -> Seq<u32>
    decreases code.len(),
{
    if code.len() == 0 {
        seq![]
    } else {
        let rest = enum_refs(code.drop_last());
        match code.last().operand {
            OperandV::Int(v) => if v > 0 {
                rest.push(v as u32)
            } else {
                rest
            },
            _ => rest,
        }
    }
}

/// The scripts an instruction stream calls, in order.
pub open spec fn script_refs(code: Seq<InstructionV>) -> Seq<i32>
    decreases code.len(),
{
    if code.len() == 0 {
        seq![]
    } else {
        let rest = script_refs(code.drop_last());
        match code.last().operand {
            OperandV::Script(id) => rest.push(id),
            _ => rest,
        }
    }
}

// ---------------------------------------------------------------------------
// Writing the text
// ---------------------------------------------------------------------------

fn call_text(head: &str, inner: &str) -> (r: String)
    ensures
        r@ == call_of(head@, inner@),
{
    let mut s = string_from(head);
    push_str(&mut s, "(");
    push_str(&mut s, inner);
    push_str(&mut s, ");");
    s
}

fn quoted(t: &str) -> (r: String)
    ensures
        r@ == "\""@ + escape_seq(t@) + "\""@,
{
    let mut s = string_from("\"");
    push_escaped(&mut s, t);
    push_str(&mut s, "\"");
    s
}

fn prefixed_int(prefix: &str, v: i32) -> (r: String)
    ensures
        r@ == prefix@ + dec_int(v as int),
{
    let mut s = string_from(prefix);
    push_i64(&mut s, v as i64);
    s
}

/// The raw spelling of an operand.
fn operand_raw_text(op: &Operand) -> (r: String)
    ensures
        r@ == operand_raw(op@),
{
    match op {
        Operand::Int(v) => crate::text::fmt_i64(*v as i64),
        Operand::Long(v) => {
            let mut s = String::new();
            push_i64(&mut s, *v);
            push_str(&mut s, "n");
            proof {
                assert(s@ =~= operand_raw(op@));
            }
            s
        },
        Operand::Str(t) => quoted(t.as_str()),
        Operand::Local(i) => prefixed_int("local_", *i),
        Operand::VarRef(v) => {
            let mut s = string_from(v.domain.as_label());
            push_str(&mut s, ":");
            push_u64(&mut s, v.id as u64);
            s
        },
        Operand::VarBitRef(v) => {
            let mut s = string_from("varbit:");
            push_u64(&mut s, v.id as u64);
            s
        },
        Operand::Branch(t) => prefixed_int("->", *t),
        Operand::Switch(cases) => {
            let mut parts: Vec<String> = Vec::new();
            let mut i: usize = 0;
            while i < cases.len()
                invariant
                    i <= cases@.len(),
                    parts@.len() == i,
                    forall|k: int| 0 <= k < i ==> (#[trigger] parts@[k])@ == arm_raw(cases@[k]),
                decreases cases@.len() - i,
            {
                let mut a = String::new();
                push_i64(&mut a, cases[i].value as i64);
                push_str(&mut a, "->");
                push_i64(&mut a, cases[i].target as i64);
                parts.push(a);
                i = i + 1;
            }
            proof {
                assert(views(parts@) =~= cases@.map_values(|c: SwitchCase| arm_raw(c)));
            }
            let joined = join_strings(&parts, ", ");
            let mut s = string_from("{");
            push_str(&mut s, joined.as_str());
            push_str(&mut s, "}");
            s
        },
        Operand::Script(id) => prefixed_int("script_", *id),
        Operand::Array(id) => prefixed_int("array_", *id),
        Operand::Count(n) => prefixed_int("count_", *n),
        Operand::Byte(b) => {
            let mut s = String::new();
            push_u64(&mut s, *b as u64);
            proof {
                assert(s@ =~= operand_raw(op@));
            }
            s
        },
    }
}

fn var_key_into(s: &mut String, v: &VarRef)
    ensures
        final(s)@ == old(s)@ + var_key_text(*v),
{
    push_u64(s, v.domain.id() as u64);
    push_str(s, " * 1000000 + ");
    push_u64(s, v.id as u64);
    proof {
        assert(s@ =~= old(s)@ + var_key_text(*v));
    }
}

/// The type a transmog variable reference is read as.
fn var_type_hint(domain: VarDomain) -> (r: &'static str)
    ensures
        r@ == "number"@,
{
    match domain {
        VarDomain::Player | VarDomain::Npc | VarDomain::Client | VarDomain::World | VarDomain::Region
        | VarDomain::Object | VarDomain::Clan | VarDomain::ClanSetting | VarDomain::Controller
        | VarDomain::PlayerGroup | VarDomain::Global => "number",
    }
}

fn is_varc_push_exec(c: &str) -> (r: bool)
    ensures
        r == is_varc_push(c@),
{
    str_eq(c, "push_varc_int") || str_eq(c, "push_varc_string") || str_eq(c, "push_varclan") || str_eq(
        c,
        "push_varclan_long",
    ) || str_eq(c, "push_varclan_string") || str_eq(c, "push_varclansetting") || str_eq(
        c,
        "push_varclansetting_long",
    ) || str_eq(c, "push_varclansetting_string")
}

fn local_command_of(c: &str) -> (r: Option<(bool, &'static str)>)
    ensures
        match r {
            Some((p, st)) => local_command(c@) == Some((p, st@)),
            None => local_command(c@) is None,
        },
{
    if str_eq(c, "push_int_local") {
        Some((true, "int"))
    } else if str_eq(c, "pop_int_local") {
        Some((false, "int"))
    } else if str_eq(c, "push_string_local") {
        Some((true, "obj"))
    } else if str_eq(c, "pop_string_local") {
        Some((false, "obj"))
    } else if str_eq(c, "push_long_local") {
        Some((true, "long"))
    } else if str_eq(c, "pop_long_local") {
        Some((false, "long"))
    } else {
        None
    }
}

fn local_text_of(push: bool, stack: &str, op: &Operand) -> (r: String)
    ensures
        r@ == local_text(push, stack@, op@),
{
    match op {
        Operand::Local(i) => {
            let mut name = string_from("local_");
            push_str(&mut name, stack);
            push_str(&mut name, "_");
            push_i64(&mut name, *i as i64);
            if push {
                call_text("push", name.as_str())
            } else {
                push_str(&mut name, " = pop();");
                name
            }
        },
        _ => {
            let raw = operand_raw_text(op);
            if push {
                call_text("push", raw.as_str())
            } else {
                call_text("pop", raw.as_str())
            }
        },
    }
}

fn branch_condition_of(c: &str) -> (r: Option<&'static str>)
    ensures
        match r {
            Some(t) => branch_condition(c@) == Some(t@),
            None => branch_condition(c@) is None,
        },
{
    if str_eq(c, "branch_not") {
        Some("if (!pop()) ")
    } else if str_eq(c, "branch_equals") {
        Some("if (pop() == pop()) ")
    } else if str_eq(c, "branch_if_true") {
        Some("if (pop()) ")
    } else if str_eq(c, "branch_if_false") {
        Some("if (!pop()) ")
    } else {
        None
    }
}

fn fixed_ui_text_of(c: &str) -> (r: Option<&'static str>)
    ensures
        match r {
            Some(t) => fixed_ui_text(c@) == Some(t@),
            None => fixed_ui_text(c@) is None,
        },
{
    if str_eq(c, "cc_delete") {
        Some("UI.delete(pop() as number);")
    } else if str_eq(c, "cc_settext") {
        Some("UI.setText(pop() as number, pop() as string);")
    } else if str_eq(c, "cc_setgraphic") {
        Some("UI.setGraphic(pop() as number, pop() as number);")
    } else if str_eq(c, "cc_sethide") {
        Some("UI.setHide(pop() as number, pop() as boolean);")
    } else {
        None
    }
}

impl Transpiler {
    fn var_access_text(&self, v: &VarRef) -> (r: String)
        ensures
            r@ == var_access(self.var_name(v.domain, v.id), *v),
    {
        match lookup_var(&self.var_map, v.domain, v.id) {
            Some(n) => if v.transmog {
                let mut s = string_from("push(VARS.get(");
                var_key_into(&mut s, v);
                push_str(&mut s, ") as ");
                push_str(&mut s, var_type_hint(v.domain));
                push_str(&mut s, " /* ");
                push_str(&mut s, n.as_str());
                push_str(&mut s, ":transmog */);");
                s
            } else {
                call_text("push", n.as_str())
            },
            None => {
                let mut s = string_from("push(VARS.get(");
                var_key_into(&mut s, v);
                push_str(&mut s, ")!);");
                s
            },
        }
    }

    fn varbit_access_text(&self, v: &VarBitRef) -> (r: String)
        ensures
            r@ == varbit_access(self.varbit_name(v.id), *v),
    {
        match lookup_u16(&self.varbit_map, v.id) {
            Some(n) => if v.transmog {
                let mut s = string_from("push(VARBITS.get(");
                push_u64(&mut s, v.id as u64);
                push_str(&mut s, ") as ");
                push_str(&mut s, n.as_str());
                push_str(&mut s, " /* ");
                push_str(&mut s, n.as_str());
                push_str(&mut s, ":transmog */);");
                s
            } else {
                call_text("push", n.as_str())
            },
            None => {
                let mut s = string_from("push(VARBITS.get(");
                push_u64(&mut s, v.id as u64);
                push_str(&mut s, ")!);");
                s
            },
        }
    }

    fn value_text_of(&self, c: &str, op: &Operand) -> (r: Option<String>)
        ensures
            match r {
                Some(t) => self.value_text(c@, op@) == Some(t@),
                None => self.value_text(c@, op@) is None,
            },
    {
        if str_eq(c, "push_constant_int") {
            Some(
                match op {
                    Operand::Int(v) => {
                        let d = crate::text::fmt_i64(*v as i64);
                        call_text("push", d.as_str())
                    },
                    _ => {
                        let raw = operand_raw_text(op);
                        call_text("push", raw.as_str())
                    },
                },
            )
        } else if str_eq(c, "push_long_constant") {
            Some(
                match op {
                    Operand::Long(v) => {
                        let mut d = crate::text::fmt_i64(*v);
                        push_str(&mut d, "n");
                        call_text("push", d.as_str())
                    },
                    _ => {
                        let raw = operand_raw_text(op);
                        call_text("push", raw.as_str())
                    },
                },
            )
        } else if str_eq(c, "push_constant_string") {
            Some(
                match op {
                    Operand::Str(t) => {
                        let q = quoted(t.as_str());
                        call_text("push", q.as_str())
                    },
                    _ => {
                        let raw = operand_raw_text(op);
                        call_text("push", raw.as_str())
                    },
                },
            )
        } else if str_eq(c, "push_var") || str_eq(c, "pop_var") {
            Some(
                match op {
                    Operand::VarRef(v) => self.var_access_text(v),
                    _ => {
                        let raw = operand_raw_text(op);
                        call_text("VAR", raw.as_str())
                    },
                },
            )
        } else if str_eq(c, "push_varbit") || str_eq(c, "pop_varbit") {
            Some(
                match op {
                    Operand::VarBitRef(v) => self.varbit_access_text(v),
                    _ => {
                        let raw = operand_raw_text(op);
                        call_text("VARBIT", raw.as_str())
                    },
                },
            )
        } else if is_varc_push_exec(c) {
            Some(
                match op {
                    Operand::VarRef(v) => self.var_access_text(v),
                    _ => {
                        let raw = operand_raw_text(op);
                        call_text("push", raw.as_str())
                    },
                },
            )
        } else if str_eq(c, "pop_varc_int") || str_eq(c, "pop_varc_string") {
            Some(
                match op {
                    Operand::VarRef(v) => match lookup_var(&self.var_map, v.domain, v.id) {
                        Some(n) => {
                            let mut s = n.clone();
                            push_str(&mut s, " = pop();");
                            s
                        },
                        None => {
                            let mut s = string_from("VARS.get(");
                            var_key_into(&mut s, v);
                            push_str(&mut s, ") = pop();");
                            s
                        },
                    },
                    _ => {
                        let raw = operand_raw_text(op);
                        call_text("pop", raw.as_str())
                    },
                },
            )
        } else if str_eq(c, "push_varclanbit") || str_eq(c, "push_varclansettingbit") {
            Some(
                match op {
                    Operand::VarBitRef(v) => self.varbit_access_text(v),
                    _ => {
                        let raw = operand_raw_text(op);
                        call_text("push", raw.as_str())
                    },
                },
            )
        } else {
            None
        }
    }

    fn flow_text_of(&self, c: &str, op: &Operand) -> (r: Option<String>)
        ensures
            match r {
                Some(t) => self.flow_text(c@, op@) == Some(t@),
                None => self.flow_text(c@, op@) is None,
            },
    {
        if let Some((push, stack)) = local_command_of(c) {
            return Some(local_text_of(push, stack, op));
        }
        if str_eq(c, "branch") {
            return Some(
                match op {
                    Operand::Branch(t) => {
                        let d = crate::text::fmt_i64(*t as i64);
                        call_text("goto", d.as_str())
                    },
                    _ => {
                        let raw = operand_raw_text(op);
                        call_text("goto", raw.as_str())
                    },
                },
            );
        }
        if let Some(cond) = branch_condition_of(c) {
            let raw = operand_raw_text(op);
            let g = call_text("goto", raw.as_str());
            let mut s = string_from(cond);
            push_str(&mut s, g.as_str());
            return Some(s);
        }
        if str_eq(c, "gosub_with_params") {
            return Some(
                match op {
                    Operand::Script(id) => match lookup_i32(&self.script_names, *id) {
                        Some(n) => {
                            let mut s = sanitize_ts_ident(n.as_str());
                            push_str(&mut s, "(pop());");
                            s
                        },
                        None => {
                            let mut s = prefixed_int("script_", *id);
                            push_str(&mut s, "(pop());");
                            s
                        },
                    },
                    _ => {
                        let raw = operand_raw_text(op);
                        call_text("call", raw.as_str())
                    },
                },
            );
        }
        if str_eq(c, "switch") {
            return Some(
                match op {
                    Operand::Switch(cases) => {
                        let mut parts: Vec<String> = Vec::new();
                        let mut i: usize = 0;
                        while i < cases.len()
                            invariant
                                i <= cases@.len(),
                                parts@.len() == i,
                                forall|k: int| 0 <= k < i ==> (#[trigger] parts@[k])@ == arm_text(cases@[k]),
                            decreases cases@.len() - i,
                        {
                            let mut a = string_from("case ");
                            push_i64(&mut a, cases[i].value as i64);
                            push_str(&mut a, ": ");
                            let d = crate::text::fmt_i64(cases[i].target as i64);
                            let g = call_text("goto", d.as_str());
                            push_str(&mut a, g.as_str());
                            parts.push(a);
                            i = i + 1;
                        }
                        proof {
                            assert(views(parts@) =~= cases@.map_values(|k: SwitchCase| arm_text(k)));
                        }
                        let joined = join_strings(&parts, "\n        ");
                        let mut s = string_from("switch(pop()) {\n        ");
                        push_str(&mut s, joined.as_str());
                        push_str(&mut s, "\n    }");
                        s
                    },
                    _ => {
                        let raw = operand_raw_text(op);
                        call_text("switch", raw.as_str())
                    },
                },
            );
        }
        if str_eq(c, "join_string") {
            return Some(
                match op {
                    Operand::Count(n) => {
                        let mut s = prefixed_int("push(pop().concat(...pop_multi(", *n);
                        push_str(&mut s, ")));");
                        s
                    },
                    _ => {
                        let raw = operand_raw_text(op);
                        call_text("concat", raw.as_str())
                    },
                },
            );
        }
        if str_eq(c, "define_array") {
            return Some(
                match op {
                    Operand::Array(id) => {
                        let mut s = prefixed_int("array_", *id);
                        push_str(&mut s, " = [];");
                        s
                    },
                    _ => {
                        let raw = operand_raw_text(op);
                        call_text("define_array", raw.as_str())
                    },
                },
            );
        }
        if str_eq(c, "cc_create") {
            return Some(
                match op {
                    Operand::Int(id) => {
                        let d = crate::text::fmt_i64(*id as i64);
                        call_text("UI.create", d.as_str())
                    },
                    _ => {
                        let raw = operand_raw_text(op);
                        call_text("UI.create", raw.as_str())
                    },
                },
            );
        }
        match fixed_ui_text_of(c) {
            Some(t) => Some(string_from(t)),
            None => None,
        }
    }

    /// The listing text of one instruction.
    fn instruction_text_of(&self, ins: &Instruction) -> (r: String)
        ensures
            r@ == self.instruction_text(ins@),
    {
        let c = ins.command.as_str();
        if let Some(t) = self.value_text_of(c, &ins.operand) {
            return t;
        }
        if let Some(t) = self.flow_text_of(c, &ins.operand) {
            return t;
        }
        let cs = chars_of(c);
        let bare = crate::text::string_of(&remove_underscores(&cs));
        let head = sanitize_ts_ident(bare.as_str());
        let raw = operand_raw_text(&ins.operand);
        call_text(head.as_str(), raw.as_str())
    }
}

/// A listing with the references it makes.
pub struct TranspiledScript {
    pub source: String,
    pub referenced_vars: Vec<(VarDomain, u16)>,
    pub referenced_varbits: Vec<u16>,
    pub referenced_enums: Vec<u32>,
    pub referenced_scripts: Vec<i32>,
}

fn push_numbered(parts: &mut Vec<String>, prefix: &str, suffix: &str, n: usize)
    ensures
        views(final(parts)@) == views(old(parts)@) + numbered(prefix@, suffix@, n as nat),
{
    let ghost start = views(parts@);
    let mut i: usize = 0;
    while i < n
        invariant
            i <= n,
            views(parts@) == start + numbered(prefix@, suffix@, i as nat),
        decreases n - i,
    {
        let mut p = string_from(prefix);
        push_u64(&mut p, i as u64);
        push_str(&mut p, suffix);
        let ghost before = parts@;
        parts.push(p);
        proof {
            assert(views(parts@) =~= views(before).push(p@));
            assert(numbered(prefix@, suffix@, (i + 1) as nat) =~= numbered(prefix@, suffix@, i as nat).push(
                prefix@ + dec_nat(i as nat) + suffix@,
            ));
        }
        i = i + 1;
    }
}

/// The declarations of the arguments and locals.
fn format_locals_decl(
    locals_int: usize,
    locals_obj: usize,
    locals_long: usize,
    args_int: usize,
    args_obj: usize,
    args_long: usize,
) -> (r: String)
    ensures
        r@ == locals_decl(
            args_int as nat,
            args_obj as nat,
            args_long as nat,
            locals_int as nat,
            locals_obj as nat,
            locals_long as nat,
        ),
{
    let mut parts: Vec<String> = Vec::new();
    proof {
        assert(views(parts@) =~= Seq::<Seq<char>>::empty());
    }
    push_numbered(&mut parts, "arg_int_", ": number", args_int);
    push_numbered(&mut parts, "arg_obj_", ": string", args_obj);
    push_numbered(&mut parts, "arg_long_", ": bigint", args_long);
    push_numbered(&mut parts, "local_int_", ": number", locals_int);
    push_numbered(&mut parts, "local_obj_", ": string", locals_obj);
    push_numbered(&mut parts, "local_long_", ": bigint", locals_long);
    if parts.len() == 0 {
        string_from("_")
    } else {
        join_strings(&parts, ", ")
    }
}

fn collect_var_refs(script: &CompiledScript) -> (r: Vec<(VarDomain, u16)>)
    ensures
        r@ == var_refs(script@.code),
{
    let ghost code = script@.code;
    let mut refs: Vec<(VarDomain, u16)> = Vec::new();
    let mut i: usize = 0;
    while i < script.code.len()
        invariant
            i <= script.code@.len(),
            code == code_view(script.code@),
            refs@ == var_refs(code.take(i as int)),
        decreases script.code@.len() - i,
    {
        proof {
            assert(code.take(i + 1).drop_last() =~= code.take(i as int));
        }
        if let Operand::VarRef(v) = &script.code[i].operand {
            refs.push((v.domain, v.id));
        }
        i = i + 1;
    }
    proof {
        assert(code.take(i as int) =~= code);
    }
    refs
}

fn collect_varbit_refs(script: &CompiledScript) -> (r: Vec<u16>)
    ensures
        r@ == varbit_refs(script@.code),
{
    let ghost code = script@.code;
    let mut refs: Vec<u16> = Vec::new();
    let mut i: usize = 0;
    while i < script.code.len()
        invariant
            i <= script.code@.len(),
            code == code_view(script.code@),
            refs@ == varbit_refs(code.take(i as int)),
        decreases script.code@.len() - i,
    {
        proof {
            assert(code.take(i + 1).drop_last() =~= code.take(i as int));
        }
        if let Operand::VarBitRef(v) = &script.code[i].operand {
            refs.push(v.id);
        }
        i = i + 1;
    }
    proof {
        assert(code.take(i as int) =~= code);
    }
    refs
}

fn collect_enum_refs(script: &CompiledScript) -> (r: Vec<u32>)
    ensures
        r@ == enum_refs(script@.code),
{
    let ghost code = script@.code;
    let mut refs: Vec<u32> = Vec::new();
    let mut i: usize = 0;
    while i < script.code.len()
        invariant
            i <= script.code@.len(),
            code == code_view(script.code@),
            refs@ == enum_refs(code.take(i as int)),
        decreases script.code@.len() - i,
    {
        proof {
            assert(code.take(i + 1).drop_last() =~= code.take(i as int));
        }
        if let Operand::Int(v) = &script.code[i].operand {
            if *v > 0 {
                refs.push(*v as u32);
            }
        }
        i = i + 1;
    }
    proof {
        assert(code.take(i as int) =~= code);
    }
    refs
}

fn collect_script_refs(script: &CompiledScript) -> (r: Vec<i32>)
    ensures
        r@ == script_refs(script@.code),
{
    let ghost code = script@.code;
    let mut refs: Vec<i32> = Vec::new();
    let mut i: usize = 0;
    while i < script.code.len()
        invariant
            i <= script.code@.len(),
            code == code_view(script.code@),
            refs@ == script_refs(code.take(i as int)),
        decreases script.code@.len() - i,
    {
        proof {
            assert(code.take(i + 1).drop_last() =~= code.take(i as int));
        }
        if let Operand::Script(id) = &script.code[i].operand {
            refs.push(*id);
        }
        i = i + 1;
    }
    proof {
        assert(code.take(i as int) =~= code);
    }
    refs
}

#[verifier::spinoff_prover]
#[verifier::rlimit(50)]
fn push_header(out: &mut String, script: &CompiledScript, script_id: i32)
    ensures
        final(out)@ == old(out)@ + header_text(script@, script_id),
{
    push_str(out, "// @ts-nocheck - Auto-generated CS2 to TypeScript\n");
    push_str(out, "import { VARS, VARBITS, ENUMS, PARAMS } from './index';\n");
    push_str(out, "\n");
    let ghost mid = out@;
    match &script.name {
        Some(name) => {
            push_str(out, "// script name: ");
            push_str(out, name.as_str());
            push_str(out, "\n");
        },
        None => {},
    }
    let ghost named = out@;
    push_str(out, "// script_");
    push_i64(out, script_id as i64);
    push_str(out, ": locals(int=");
    push_u64(out, script.local_count_int as u64);
    push_str(out, ", obj=");
    push_u64(out, script.local_count_object as u64);
    push_str(out, ", long=");
    push_u64(out, script.local_count_long as u64);
    push_str(out, ") args(int=");
    push_u64(out, script.argument_count_int as u64);
    push_str(out, ", obj=");
    push_u64(out, script.argument_count_object as u64);
    push_str(out, ", long=");
    push_u64(out, script.argument_count_long as u64);
    push_str(out, ")\n");
    proof {
        assert(named == mid + (match script@.name {
            Some(n) => "// script name: "@ + n + "\n"@,
            None => seq![],
        })) by {
            match script@.name {
                Some(n) => {},
                None => {
                    assert(named =~= mid + Seq::<char>::empty());
                },
            }
        }
        assert(out@ =~= old(out)@ + header_text(script@, script_id));
    }
}

impl Transpiler {
    /// The listing of `script` (as script `script_id`) and the variables,
    /// varbits, possible enums and scripts its instructions reference.
    pub fn transpile(&self, script: &CompiledScript, script_id: i32) -> (r: TranspiledScript)
        ensures
            r.source@ == self.source_text(script@, script_id),
            r.referenced_vars@ == var_refs(script@.code),
            r.referenced_varbits@ == varbit_refs(script@.code),
            r.referenced_enums@ == enum_refs(script@.code),
            r.referenced_scripts@ == script_refs(script@.code),
    {
        let mut out = String::new();
        push_header(&mut out, script, script_id);
        push_str(&mut out, "\n");
        push_str(&mut out, "const ");
        let decl = format_locals_decl(
            script.local_count_int as usize,
            script.local_count_object as usize,
            script.local_count_long as usize,
            script.argument_count_int as usize,
            script.argument_count_object as usize,
            script.argument_count_long as usize,
        );
        push_str(&mut out, decl.as_str());
        push_str(&mut out, ";\n\n");
        push_str(&mut out, "// --- instruction stream ---\n");
        let ghost head = out@;
        let ghost code = script@.code;
        let mut i: usize = 0;
        while i < script.code.len()
            invariant
                i <= script.code@.len(),
                code == code_view(script.code@),
                out@ == head + self.listing_lines(code.take(i as int)),
            decreases script.code@.len() - i,
        {
            proof {
                assert(code.take(i + 1).drop_last() =~= code.take(i as int));
                assert(code.take(i + 1).last() == script.code@[i as int]@);
            }
            push_pad5(&mut out, i as u64);
            push_str(&mut out, ": ");
            let t = self.instruction_text_of(&script.code[i]);
            push_str(&mut out, t.as_str());
            push_str(&mut out, "\n");
            i = i + 1;
            proof {
                assert(out@ =~= head + self.listing_lines(code.take(i as int)));
            }
        }
        proof {
            assert(code.take(i as int) =~= code);
            assert(out@ =~= self.source_text(script@, script_id));
        }
        TranspiledScript {
            source: out,
            referenced_vars: collect_var_refs(script),
            referenced_varbits: collect_varbit_refs(script),
            referenced_enums: collect_enum_refs(script),
            referenced_scripts: collect_script_refs(script),
        }
    }

    /// Decodes `data` with `opcode_book` and lists it; fails exactly when
    /// the bytes do not decode.
    pub fn transpile_from_bytes(&self, data: &[u8], opcode_book: &OpcodeBook, version: u32, script_id: i32) -> (r:
        Result<TranspiledScript, Error>)
        ensures
            r is Ok <==> decode_script_spec(*opcode_book, data@, version) is Some,
            r matches Ok(t) ==> decode_script_spec(*opcode_book, data@, version) matches Some(s) && t.source@
                == self.source_text(s, script_id) && t.referenced_vars@ == var_refs(s.code)
                && t.referenced_varbits@ == varbit_refs(s.code) && t.referenced_enums@ == enum_refs(s.code)
                && t.referenced_scripts@ == script_refs(s.code),
    {
        let script = decode_script(data, opcode_book, version)?;
        Ok(self.transpile(&script, script_id))
    }
}

} // verus!
