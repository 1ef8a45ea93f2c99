//! The bytecode encoder: the inverse direction of `decode_script`.
use crate::error::{Error, ErrorKind};
use crate::packet::{bytes16, bytes32, bytes64, jstr_bytes, unsigned32, unsigned64, ByteWriter};
use crate::script::{
    classify_command, code_view, operand_kind, CompiledScript, Instruction, InstructionV, OpcodeBook,
    Operand, OperandKind, OperandV, ScriptV, SwitchCase,
};
use crate::text::chars_of;
use crate::vars::domain_id;
use vstd::prelude::*;

verus! {

broadcast use vstd::string::group_string_axioms;

// ---------------------------------------------------------------------------
// Specification
// ---------------------------------------------------------------------------

/// The bytes of a 32-bit signed value.
pub open spec fn b32(v: int) -> Seq<u8> {
    bytes32(unsigned32(v))
}

/// The operand bytes of a command of class `kind` (not a branch or switch
/// operand), or `None` when the operand does not suit the command.
pub open spec fn encode_operand_spec(kind: OperandKind, large: bool, op: OperandV, version: u32) -> Option<
    Seq<u8>,
> {
    match kind {
        OperandKind::ConstInt => match op {
            OperandV::Int(v) => Some(b32(v as int)),
            _ => None,
        },
        OperandKind::ConstLong => match op {
            OperandV::Long(v) => Some(bytes64(unsigned64(v as int))),
            _ => None,
        },
        OperandKind::ConstString => if version < 800 {
            match op {
                OperandV::Str(s) => Some(jstr_bytes(s)),
                OperandV::Int(v) => Some(b32(v as int)),
                _ => None,
            }
        } else {
            match op {
                OperandV::Int(v) => Some(seq![0u8] + b32(v as int)),
                OperandV::Long(v) => Some(seq![1u8] + bytes64(unsigned64(v as int))),
                OperandV::Str(s) => Some(seq![2u8] + jstr_bytes(s)),
                _ => None,
            }
        },
        OperandKind::Local => match op {
            OperandV::Local(v) => Some(b32(v as int)),
            OperandV::Int(v) => Some(b32(v as int)),
            _ => None,
        },
        OperandKind::Var => match op {
            OperandV::VarRef(r) => if version < 800 {
                Some(b32(r.id as int))
            } else {
                Some(
                    seq![domain_id(r.domain)] + bytes16(r.id as int) + seq![
                        if r.transmog {
                            1u8
                        } else {
                            0u8
                        },
                    ],
                )
            },
            _ => None,
        },
        OperandKind::VarBit => match op {
            OperandV::VarBitRef(r) => if version < 800 {
                Some(b32(r.id as int))
            } else {
                Some(
                    bytes16(r.id as int) + seq![
                        if r.transmog {
                            1u8
                        } else {
                            0u8
                        },
                    ],
                )
            },
            _ => None,
        },
        OperandKind::FixedVar(d) => match op {
            OperandV::VarRef(r) => if r.domain == d {
                Some(b32(r.id as int))
            } else {
                None
            },
            OperandV::Int(v) => Some(b32(v as int)),
            _ => None,
        },
        OperandKind::FixedVarBit => match op {
            OperandV::VarBitRef(r) => Some(b32(r.id as int)),
            OperandV::Int(v) => Some(b32(v as int)),
            _ => None,
        },
        OperandKind::Count => match op {
            OperandV::Count(v) => Some(b32(v as int)),
            OperandV::Int(v) => Some(b32(v as int)),
            _ => None,
        },
        OperandKind::Script => match op {
            OperandV::Script(v) => Some(b32(v as int)),
            OperandV::Int(v) => Some(b32(v as int)),
            _ => None,
        },
        OperandKind::Array => match op {
            OperandV::Array(v) => Some(b32(v as int)),
            OperandV::Int(v) => Some(b32(v as int)),
            _ => None,
        },
        _ => match op {
            OperandV::Byte(b) => if large {
                Some(b32(b as int))
            } else {
                Some(seq![b])
            },
            OperandV::Int(v) => if large {
                Some(b32(v as int))
            } else {
                Some(seq![v as u8])
            },
            _ => if large {
                Some(b32(0))
            } else {
                Some(seq![0u8])
            },
        },
    }
}

/// The bytes of instruction `ins` at `index`; a switch writes the ordinal
/// `ordinal` of its table, a branch its target relative to `index`.
pub open spec fn encode_instr_spec(
    book: OpcodeBook,
    ins: InstructionV,
    index: int,
    ordinal: int,
    version: u32,
) -> Option<Seq<u8>> {
    match book.opcode_of(ins.command) {
        Some(op) => {
            let body = match ins.operand {
                OperandV::Branch(t) => if i32::MIN <= t - index <= i32::MAX {
                    Some(b32(t - index))
                } else {
                    None
                },
                OperandV::Switch(_) => Some(b32(ordinal)),
                o => encode_operand_spec(operand_kind(ins.command), book.large(op), o, version),
            };
            match body {
                Some(x) => Some(bytes16(op as int) + x),
                None => None,
            }
        },
        None => None,
    }
}

/// The (value, relative target) pairs of a switch table at `index`.
pub open spec fn encode_cases_spec(cases: Seq<SwitchCase>, index: int) -> Option<Seq<u8>>
    decreases cases.len(),
{
    if cases.len() == 0 {
        Some(seq![])
    } else {
        let c = cases.last();
        let rel = c.target - index;
        if i32::MIN <= rel <= i32::MAX {
            match encode_cases_spec(cases.drop_last(), index) {
                Some(x) => Some(x + b32(c.value as int) + b32(rel)),
                None => None,
            }
        } else {
            None
        }
    }
}

/// A switch table: its case count, then its cases.
pub open spec fn encode_table_spec(cases: Seq<SwitchCase>, index: int) -> Option<Seq<u8>> {
    if cases.len() > 65535 {
        None
    } else {
        match encode_cases_spec(cases, index) {
            Some(x) => Some(bytes16(cases.len() as int) + x),
            None => None,
        }
    }
}

/// The instruction bytes, the switch table bytes and the number of switch
/// tables of `code`.
pub open spec fn encode_code_spec(book: OpcodeBook, code: Seq<InstructionV>, version: u32) -> Option<
    (Seq<u8>, Seq<u8>, nat),
>
    decreases code.len(),
{
    if code.len() == 0 {
        Some((seq![], seq![], 0))
    } else {
        match encode_code_spec(book, code.drop_last(), version) {
            Some((cb, tb, n)) => {
                let i = code.len() - 1;
                let ins = code.last();
                if i > i32::MAX {
                    None
                } else {
                    match encode_instr_spec(book, ins, i, n as int, version) {
                        Some(ib) => match ins.operand {
                            OperandV::Switch(cases) => match encode_table_spec(cases, i) {
                                Some(t) => Some((cb + ib, tb + t, n + 1)),
                                None => None,
                            },
                            _ => Some((cb + ib, tb, n)),
                        },
                        None => None,
                    }
                }
            },
            None => None,
        }
    }
}

/// The name field: from build 459, the name as a zero-terminated string,
/// a lone zero byte for none.
pub open spec fn name_bytes(name: Option<Seq<char>>, version: u32) -> Seq<u8> {
    if version >= 459 {
        match name {
            Some(t) => jstr_bytes(t),
            None => seq![0u8],
        }
    } else {
        seq![]
    }
}

/// The local and argument counts; the long counts only from build 642.
pub open spec fn counts_bytes(s: ScriptV, version: u32) -> Seq<u8> {
    let long_locals = if version >= 642 {
        bytes16(s.local_count_long as int)
    } else {
        seq![]
    };
    let long_args = if version >= 642 {
        bytes16(s.argument_count_long as int)
    } else {
        seq![]
    };
    bytes16(s.local_count_int as int) + bytes16(s.local_count_object as int) + long_locals
        + bytes16(s.argument_count_int as int) + bytes16(s.argument_count_object as int)
        + long_args
}

/// Encoding a whole script: the name, the instructions, then the header
/// (instruction count, counts, switch tables) and the size of the table
/// part; `None` exactly when `encode_script` fails.
pub open spec fn encode_script_spec(book: OpcodeBook, s: ScriptV, version: u32) -> Option<Seq<u8>> {
    if s.code.len() > i32::MAX {
        None
    } else {
        match encode_code_spec(book, s.code, version) {
            Some((cb, tb, n)) => if n > 255 || 1 + tb.len() > 65535 {
                None
            } else {
                Some(
                    name_bytes(s.name, version) + cb + b32(s.code.len() as int) + counts_bytes(
                        s,
                        version,
                    ) + seq![n as u8] + tb + bytes16(1 + tb.len() as int),
                )
            },
            None => None,
        }
    }
}

// ---------------------------------------------------------------------------
// Encoder
// ---------------------------------------------------------------------------

fn transmog_byte(t: bool) -> (r: u8)
    ensures
        r == (if t {
            1u8
        } else {
            0u8
        }),
{
    if t {
        1
    } else {
        0
    }
}

/// Writes the operand of `command` (not a branch or switch operand).
pub fn encode_operand(
    operand: &Operand,
    command: &[char],
    is_large_operand: bool,
    version: u32,
    writer: &mut ByteWriter,
) -> (r: Result<(), Error>)
    ensures
        ({
            let spec = encode_operand_spec(
                operand_kind(command@),
                is_large_operand,
                operand@,
                version,
            );
            &&& r is Ok <==> spec is Some
            &&& r is Ok ==> final(writer).data@ == old(writer).data@ + spec.unwrap()
        }),
{
    let ghost w0 = writer.data@;
    match classify_command(command) {
        OperandKind::ConstInt => match operand {
            Operand::Int(v) => writer.p4s(*v),
            _ => return Err(Error::new(ErrorKind::Invalid, "push_constant_int expected Int operand")),
        },
        OperandKind::ConstLong => match operand {
            Operand::Long(v) => writer.p8s(*v),
            _ => return Err(Error::new(ErrorKind::Invalid, "push_long_constant expected Long operand")),
        },
        OperandKind::ConstString => {
            if version < 800 {
                match operand {
                    Operand::Str(s) => writer.pjstr(s.as_str()),
                    Operand::Int(v) => writer.p4s(*v),
                    _ => return Err(
                        Error::new(ErrorKind::Invalid, "push_constant_string unexpected operand type"),
                    ),
                }
            } else {
                match operand {
                    Operand::Int(v) => {
                        writer.p1(0);
                        writer.p4s(*v);
                    },
                    Operand::Long(v) => {
                        writer.p1(1);
                        writer.p8s(*v);
                    },
                    Operand::Str(s) => {
                        writer.p1(2);
                        writer.pjstr(s.as_str());
                    },
                    _ => return Err(
                        Error::new(ErrorKind::Invalid, "push_constant_string unexpected operand type"),
                    ),
                }
                proof {
                    assert(writer.data@ =~= w0 + encode_operand_spec(
                        operand_kind(command@),
                        is_large_operand,
                        operand@,
                        version,
                    ).unwrap());
                }
            }
        },
        OperandKind::Local => match operand {
            Operand::Local(v) => writer.p4s(*v),
            Operand::Int(v) => writer.p4s(*v),
            _ => return Err(Error::new(ErrorKind::Invalid, "local command expected Local/Int operand")),
        },
        OperandKind::Var => match operand {
            Operand::VarRef(vr) => {
                if version < 800 {
                    writer.p4s(vr.id as i32);
                } else {
                    writer.p1(vr.domain.id());
                    writer.p2(vr.id);
                    writer.p1(transmog_byte(vr.transmog));
                    proof {
                        assert(writer.data@ =~= w0 + encode_operand_spec(
                            operand_kind(command@),
                            is_large_operand,
                            operand@,
                            version,
                        ).unwrap());
                    }
                }
            },
            _ => return Err(Error::new(ErrorKind::Invalid, "push/pop_var expected VarRef operand")),
        },
        OperandKind::VarBit => match operand {
            Operand::VarBitRef(vbr) => {
                if version < 800 {
                    writer.p4s(vbr.id as i32);
                } else {
                    writer.p2(vbr.id);
                    writer.p1(transmog_byte(vbr.transmog));
                    proof {
                        assert(writer.data@ =~= w0 + encode_operand_spec(
                            operand_kind(command@),
                            is_large_operand,
                            operand@,
                            version,
                        ).unwrap());
                    }
                }
            },
            _ => return Err(
                Error::new(ErrorKind::Invalid, "push/pop_varbit expected VarBitRef operand"),
            ),
        },
        OperandKind::FixedVar(expected) => match operand {
            Operand::VarRef(vr) => {
                if vr.domain != expected {
                    return Err(Error::new(ErrorKind::Invalid, "fixed var command domain mismatch"));
                }
                writer.p4s(vr.id as i32);
            },
            Operand::Int(v) => writer.p4s(*v),
            _ => return Err(Error::new(ErrorKind::Invalid, "fixed var command expected VarRef/Int operand")),
        },
        OperandKind::FixedVarBit => match operand {
            Operand::VarBitRef(vbr) => writer.p4s(vbr.id as i32),
            Operand::Int(v) => writer.p4s(*v),
            _ => return Err(
                Error::new(ErrorKind::Invalid, "fixed varbit command expected VarBitRef/Int operand"),
            ),
        },
        OperandKind::Count => match operand {
            Operand::Count(v) => writer.p4s(*v),
            Operand::Int(v) => writer.p4s(*v),
            _ => return Err(Error::new(ErrorKind::Invalid, "join_string expected Count operand")),
        },
        OperandKind::Script => match operand {
            Operand::Script(v) => writer.p4s(*v),
            Operand::Int(v) => writer.p4s(*v),
            _ => return Err(Error::new(ErrorKind::Invalid, "gosub_with_params expected Script operand")),
        },
        OperandKind::Array => match operand {
            Operand::Array(v) => writer.p4s(*v),
            Operand::Int(v) => writer.p4s(*v),
            _ => return Err(Error::new(ErrorKind::Invalid, "array command expected Array/Int operand")),
        },
        _ => match operand {
            Operand::Byte(b) => {
                if is_large_operand {
                    writer.p4s(*b as i32);
                } else {
                    writer.p1(*b);
                    proof {
                        assert(writer.data@ =~= w0 + seq![*b]);
                    }
                }
            },
            Operand::Int(v) => {
                if is_large_operand {
                    writer.p4s(*v);
                } else {
                    writer.p1(*v as u8);
                    proof {
                        assert(writer.data@ =~= w0 + seq![*v as u8]);
                    }
                }
            },
            _ => {
                if is_large_operand {
                    writer.p4s(0);
                } else {
                    writer.p1(0);
                    proof {
                        assert(writer.data@ =~= w0 + seq![0u8]);
                    }
                }
            },
        },
    }
    Ok(())
}

/// Writes the switch table of a switch at `index`.
fn encode_table(cases: &Vec<SwitchCase>, index: i32, tables: &mut ByteWriter) -> (r: Result<
    (),
    Error,
>)
    ensures
        r is Ok <==> encode_table_spec(cases@, index as int) is Some,
        r is Ok ==> final(tables).data@ == old(tables).data@ + encode_table_spec(
            cases@,
            index as int,
        ).unwrap(),
{
    if cases.len() > 65535 {
        return Err(Error::new(ErrorKind::Overflow, "switch case count overflow"));
    }
    let ghost t0 = tables.data@;
    tables.p2(cases.len() as u16);
    let mut i: usize = 0;
    while i < cases.len()
        invariant
            i <= cases@.len() <= 65535,
            encode_cases_spec(cases@.take(i as int), index as int) is Some,
            tables.data@ == t0 + bytes16(cases@.len() as int) + encode_cases_spec(
                cases@.take(i as int),
                index as int,
            ).unwrap(),
        decreases cases@.len() - i,
    {
        let c = cases[i];
        let ghost pre = cases@.take(i as int);
        proof {
            assert(cases@.take(i + 1).drop_last() =~= pre);
        }
        match c.target.checked_sub(index) {
            Some(rel) => {
                tables.p4s(c.value);
                tables.p4s(rel);
                i = i + 1;
                proof {
                    assert(tables.data@ =~= t0 + bytes16(cases@.len() as int) + encode_cases_spec(
                        cases@.take(i as int),
                        index as int,
                    ).unwrap());
                }
            },
            None => {
                proof {
                    lemma_cases_prefix_none(cases@, index as int, i + 1);
                }
                return Err(Error::new(ErrorKind::Overflow, "switch target out of range"));
            },
        }
    }
    proof {
        assert(cases@.take(i as int) =~= cases@);
    }
    Ok(())
}

proof fn lemma_cases_prefix_none(c: Seq<SwitchCase>, index: int, n: int)
    requires
        0 <= n <= c.len(),
        encode_cases_spec(c.take(n), index) is None,
    ensures
        encode_cases_spec(c, index) is None,
    decreases c.len() - n,
{
    if n < c.len() {
        assert(c.take(n + 1).drop_last() =~= c.take(n));
        lemma_cases_prefix_none(c, index, n + 1);
    } else {
        assert(c.take(n) =~= c);
    }
}

proof fn lemma_code_prefix_none(book: OpcodeBook, c: Seq<InstructionV>, n: int, version: u32)
    requires
        0 <= n <= c.len(),
        encode_code_spec(book, c.take(n), version) is None,
    ensures
        encode_code_spec(book, c, version) is None,
    decreases c.len() - n,
{
    if n < c.len() {
        assert(c.take(n + 1).drop_last() =~= c.take(n));
        lemma_code_prefix_none(book, c, n + 1, version);
    } else {
        assert(c.take(n) =~= c);
    }
}

/// Encodes a script to bytes for `version` with the opcode table `book`:
/// every command must have an opcode and every operand must suit its
/// command. Fails exactly when `encode_script_spec` has no value.
pub fn encode_script(script: &CompiledScript, book: &OpcodeBook, version: u32) -> (r: Result<
    Vec<u8>,
    Error,
>)
    ensures
        r is Ok <==> encode_script_spec(*book, script@, version) is Some,
        r matches Ok(b) ==> encode_script_spec(*book, script@, version) == Some(b@),
{
    let mut writer = ByteWriter::new();
    if version >= 459 {
        match &script.name {
            Some(n) => writer.pjstr(n.as_str()),
            None => writer.p1(0),
        }
    }
    let ghost nb = writer.data@;
    let ghost cv = script@.code;
    proof {
        assert(nb =~= name_bytes(script@.name, version));
    }
    if script.code.len() > 2147483647 {
        return Err(Error::new(ErrorKind::Overflow, "script too large to encode"));
    }
    let mut tables = ByteWriter::new();
    let mut n_switch: usize = 0;
    let mut i: usize = 0;
    proof {
        assert(cv.take(0) =~= Seq::<InstructionV>::empty());
        assert(writer.data@ =~= nb + Seq::<u8>::empty());
    }
    while i < script.code.len()
        invariant
            i <= script.code@.len() <= i32::MAX,
            cv == script@.code,
            cv.len() == script.code@.len(),
            n_switch <= i,
            ({
                let e = encode_code_spec(*book, cv.take(i as int), version);
                &&& e is Some
                &&& writer.data@ == nb + e.unwrap().0
                &&& tables.data@ == e.unwrap().1
                &&& n_switch == e.unwrap().2
            }),
        decreases script.code@.len() - i,
    {
        let ins = &script.code[i];
        let ghost pre = cv.take(i as int);
        let ghost e = encode_code_spec(*book, pre, version).unwrap();
        let ghost w1 = writer.data@;
        proof {
            assert(cv.take(i + 1).drop_last() =~= pre);
            assert(cv.take(i + 1).last() == ins@);
        }
        let opcode = match book.opcode_for(ins.command.as_str()) {
            Ok(o) => o,
            Err(err) => {
                proof {
                    lemma_code_prefix_none(*book, cv, i + 1, version);
                }
                return Err(err);
            },
        };
        writer.p2(opcode);
        let index = i as i32;
        match &ins.operand {
            Operand::Branch(t) => {
                match t.checked_sub(index) {
                    Some(rel) => writer.p4s(rel),
                    None => {
                        proof {
                            lemma_code_prefix_none(*book, cv, i + 1, version);
                        }
                        return Err(Error::new(ErrorKind::Overflow, "branch offset out of range"));
                    },
                }
            },
            Operand::Switch(cases) => {
                writer.p4s(n_switch as i32);
                match encode_table(cases, index, &mut tables) {
                    Ok(()) => {},
                    Err(err) => {
                        proof {
                            lemma_code_prefix_none(*book, cv, i + 1, version);
                        }
                        return Err(err);
                    },
                }
                n_switch = n_switch + 1;
            },
            _ => {
                let cmd = chars_of(ins.command.as_str());
                let large = book.has_large_operand(opcode);
                match encode_operand(&ins.operand, &cmd, large, version, &mut writer) {
                    Ok(()) => {},
                    Err(err) => {
                        proof {
                            lemma_code_prefix_none(*book, cv, i + 1, version);
                        }
                        return Err(err);
                    },
                }
            },
        }
        i = i + 1;
        proof {
            let e2 = encode_code_spec(*book, cv.take(i as int), version);
            assert(e2 is Some);
            assert(writer.data@ =~= nb + e2.unwrap().0);
        }
    }
    proof {
        assert(cv.take(i as int) =~= cv);
    }
    if n_switch > 255 {
        return Err(Error::new(ErrorKind::Limit, "too many switch tables"));
    }
    if tables.len() >= 65535 {
        return Err(Error::new(ErrorKind::Limit, "trailer too large"));
    }
    let ghost cb = writer.data@.skip(nb.len() as int);
    let ghost w2 = writer.data@;
    writer.p4s(script.code.len() as i32);
    writer.p2(script.local_count_int);
    writer.p2(script.local_count_object);
    if version >= 642 {
        writer.p2(script.local_count_long);
    }
    writer.p2(script.argument_count_int);
    writer.p2(script.argument_count_object);
    if version >= 642 {
        writer.p2(script.argument_count_long);
    }
    let ghost w3 = writer.data@;
    proof {
        assert(w3 =~= w2 + b32(cv.len() as int) + counts_bytes(script@, version));
    }
    writer.p1(n_switch as u8);
    let trailer = (tables.len() + 1) as u16;
    let ghost tb = tables.data@;
    writer.data.append(&mut tables.data);
    writer.p2(trailer);
    proof {
        assert(writer.data@ =~= w2 + b32(cv.len() as int) + counts_bytes(script@, version) + seq![
            n_switch as u8,
        ] + tb + bytes16(1 + tb.len() as int));
    }
    Ok(writer.data)
}

} // verus!
