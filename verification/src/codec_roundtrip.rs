//! Decoding undoes encoding: an instruction written by the encoder reads
//! back as itself, at the position right after its bytes, and a whole
//! script written by the encoder reads back as itself.
use crate::encode::{b32, counts_bytes, encode_code_spec, encode_script_spec, name_bytes, encode_instr_spec, encode_operand_spec};
use crate::packet::{
    be16, be32, be64, byte_char, bytes16, bytes32, bytes64, char_byte, jstr_bytes, latin1, lemma_zero_from_unique, lemma_be16_bytes, lemma_be32_bytes,
    lemma_be64_bytes, signed32, signed64, unsigned32, unsigned64,
};
use crate::script::{
    command_name, assemble_script, decode_code_spec, decode_header_spec, decode_script_spec, decode_instr_spec, header_size_spec, HeaderV, ScriptV, decode_operand_spec, operand_kind, rd1, rd2, rd4, rd8, rdstrnull, InstructionV,
    OpcodeBook, OperandKind, OperandV,
};
use crate::vars::{domain_from_id, domain_id, VarDomain};
use vstd::prelude::*;

verus! {

/// The operand is of the form a command of class `kind` reads back: the
/// constant, local, variable, branch target, count, script or array the
/// class names (variables of the player domain, without transmog, before
/// build 800), and a byte or a 4-byte value by the large-operand flag.
/// String constants and switches are left out.
pub open spec fn canonical_operand(kind: OperandKind, large: bool, op: OperandV, version: u32) -> bool {
    match kind {
        OperandKind::ConstInt => op is Int,
        OperandKind::ConstLong => op is Long,
        OperandKind::ConstString => version >= 800 && (op is Int || op is Long),
        OperandKind::Local => op is Local,
        OperandKind::Var => match op {
            OperandV::VarRef(r) => version < 800 ==> (r.domain == VarDomain::Player && !r.transmog),
            _ => false,
        },
        OperandKind::VarBit => match op {
            OperandV::VarBitRef(r) => version < 800 ==> !r.transmog,
            _ => false,
        },
        OperandKind::FixedVar(d) => match op {
            OperandV::VarRef(r) => r.domain == d && !r.transmog,
            _ => false,
        },
        OperandKind::FixedVarBit => match op {
            OperandV::VarBitRef(r) => !r.transmog,
            _ => false,
        },
        OperandKind::Branch => op is Branch,
        OperandKind::Switch => false,
        OperandKind::Count => op is Count,
        OperandKind::Script => op is Script,
        OperandKind::Array => op is Array,
        OperandKind::Other => if large {
            op is Int
        } else {
            op is Byte
        },
    }
}

proof fn lemma_rd1_at(b: Seq<u8>, p: int, v: u8)
    requires
        0 <= p,
        p + 1 <= b.len(),
        b[p] == v,
    ensures
        rd1(b, p) == Some((v as int, p + 1)),
{
}

proof fn lemma_rd2_at(b: Seq<u8>, p: int, u: int)
    requires
        0 <= u < 65536,
        0 <= p,
        p + 2 <= b.len(),
        b.subrange(p, p + 2) == bytes16(u),
    ensures
        rd2(b, p) == Some((u, p + 2)),
{
    lemma_be16_bytes(u);
    assert(b[p] == bytes16(u)[0] && b[p + 1] == bytes16(u)[1]) by {
        assert(b.subrange(p, p + 2)[0] == b[p]);
        assert(b.subrange(p, p + 2)[1] == b[p + 1]);
    }
    assert(be16(b, p) == be16(bytes16(u), 0));
}

proof fn lemma_rd4_at(b: Seq<u8>, p: int, v: int)
    requires
        -2147483648 <= v <= 2147483647,
        0 <= p,
        p + 4 <= b.len(),
        b.subrange(p, p + 4) == b32(v),
    ensures
        rd4(b, p) == Some((v, p + 4)),
{
    let u = unsigned32(v);
    lemma_be32_bytes(u);
    let w = b.subrange(p, p + 4);
    assert(w[0] == b[p] && w[1] == b[p + 1] && w[2] == b[p + 2] && w[3] == b[p + 3]);
    assert(be32(b, p) == be32(bytes32(u), 0));
    assert(signed32(u) == v);
}

proof fn lemma_rd8_at(b: Seq<u8>, p: int, v: int)
    requires
        -9223372036854775808 <= v <= 9223372036854775807,
        0 <= p,
        p + 8 <= b.len(),
        b.subrange(p, p + 8) == bytes64(unsigned64(v)),
    ensures
        rd8(b, p) == Some((v, p + 8)),
{
    let u = unsigned64(v);
    lemma_be64_bytes(u);
    let w = b.subrange(p, p + 8);
    assert(w[0] == b[p] && w[1] == b[p + 1] && w[2] == b[p + 2] && w[3] == b[p + 3]);
    assert(w[4] == b[p + 4] && w[5] == b[p + 5] && w[6] == b[p + 6] && w[7] == b[p + 7]);
    assert(be32(b, p) == be32(bytes64(u), 0));
    assert(be32(b, p + 4) == be32(bytes64(u), 4));
    assert(be64(b, p) == be64(bytes64(u), 0));
    assert(signed64(u) == v);
}

proof fn lemma_domain_id_roundtrip(d: VarDomain)
    ensures
        domain_from_id(domain_id(d)) == Some(d),
{
}

/// The bytes `x` sit in `pre + x + post` at `pre.len()`.
proof fn lemma_window(pre: Seq<u8>, x: Seq<u8>, post: Seq<u8>, from: int, to: int)
    requires
        0 <= from <= to <= x.len(),
    ensures
        (pre + x + post).subrange(pre.len() + from, pre.len() + to) == x.subrange(from, to),
{
    assert((pre + x + post).subrange(pre.len() + from, pre.len() + to) =~= x.subrange(from, to));
}

/// An operand written by the encoder for a command of class `kind` reads
/// back as itself, whatever bytes come before and after it.
proof fn lemma_operand_roundtrip(
    kind: OperandKind,
    large: bool,
    op: OperandV,
    version: u32,
    pre: Seq<u8>,
    post: Seq<u8>,
    index: int,
    tables: Seq<Seq<(i32, i32)>>,
)
    requires
        canonical_operand(kind, large, op, version),
        !(op is Branch),
        encode_operand_spec(kind, large, op, version) is Some,
    ensures
        ({
            let x = encode_operand_spec(kind, large, op, version)->Some_0;
            decode_operand_spec(kind, large, pre + x + post, pre.len() as int, version, index, tables) == Some(
                (op, (pre.len() + x.len()) as int),
            )
        }),
{
    let x = encode_operand_spec(kind, large, op, version)->Some_0;
    let b = pre + x + post;
    let p = pre.len() as int;
    match op {
        OperandV::Int(v) => {
            if kind == OperandKind::ConstString {
                assert(x == seq![0u8] + b32(v as int));
                assert(b[p] == 0u8);
                lemma_window(pre, x, post, 1, 5);
                assert(x.subrange(1, 5) =~= b32(v as int));
                lemma_rd4_at(b, p + 1, v as int);
            } else if kind == OperandKind::Other {
                lemma_window(pre, x, post, 0, 4);
                assert(x.subrange(0, 4) =~= b32(v as int));
                lemma_rd4_at(b, p, v as int);
            } else {
                lemma_window(pre, x, post, 0, 4);
                assert(x.subrange(0, 4) =~= b32(v as int));
                lemma_rd4_at(b, p, v as int);
            }
        },
        OperandV::Long(v) => {
            if kind == OperandKind::ConstString {
                assert(x == seq![1u8] + bytes64(unsigned64(v as int)));
                assert(b[p] == 1u8);
                lemma_window(pre, x, post, 1, 9);
                assert(x.subrange(1, 9) =~= bytes64(unsigned64(v as int)));
                lemma_rd8_at(b, p + 1, v as int);
            } else {
                lemma_window(pre, x, post, 0, 8);
                assert(x.subrange(0, 8) =~= bytes64(unsigned64(v as int)));
                lemma_rd8_at(b, p, v as int);
            }
        },
        OperandV::Local(v) => {
            lemma_window(pre, x, post, 0, 4);
            assert(x.subrange(0, 4) =~= b32(v as int));
            lemma_rd4_at(b, p, v as int);
        },
        OperandV::Count(v) => {
            lemma_window(pre, x, post, 0, 4);
            assert(x.subrange(0, 4) =~= b32(v as int));
            lemma_rd4_at(b, p, v as int);
        },
        OperandV::Script(v) => {
            lemma_window(pre, x, post, 0, 4);
            assert(x.subrange(0, 4) =~= b32(v as int));
            lemma_rd4_at(b, p, v as int);
        },
        OperandV::Array(v) => {
            lemma_window(pre, x, post, 0, 4);
            assert(x.subrange(0, 4) =~= b32(v as int));
            lemma_rd4_at(b, p, v as int);
        },
        OperandV::Byte(v) => {
            assert(x == seq![v]);
            assert(b[p] == v);
        },
        OperandV::VarRef(r) => {
            if version < 800 || kind != OperandKind::Var {
                lemma_window(pre, x, post, 0, 4);
                assert(x.subrange(0, 4) =~= b32(r.id as int));
                lemma_rd4_at(b, p, r.id as int);
            } else {
                lemma_domain_id_roundtrip(r.domain);
                assert(b[p] == domain_id(r.domain));
                lemma_window(pre, x, post, 1, 3);
                assert(x.subrange(1, 3) =~= bytes16(r.id as int));
                lemma_rd2_at(b, p + 1, r.id as int);
                assert(b[p + 3] == x[3]);
            }
        },
        OperandV::VarBitRef(r) => {
            if version < 800 || kind != OperandKind::VarBit {
                lemma_window(pre, x, post, 0, 4);
                assert(x.subrange(0, 4) =~= b32(r.id as int));
                lemma_rd4_at(b, p, r.id as int);
            } else {
                lemma_window(pre, x, post, 0, 2);
                assert(x.subrange(0, 2) =~= bytes16(r.id as int));
                lemma_rd2_at(b, p, r.id as int);
                assert(b[p + 2] == x[2]);
            }
        },
        _ => {},
    }
}

/// Decoding undoes encoding, instruction by instruction: an instruction
/// whose command the opcode table names by its own opcode, and whose
/// operand has the form its command's class reads, reads back from the
/// bytes the encoder writes for it at instruction `index`, whatever bytes
/// come before and after, as the same command and operand, with the
/// table's opcode, ending right after those bytes. In particular a branch
/// to instruction `t`, written at instruction `index`, reads back as a
/// branch to `t`.
#[verifier::spinoff_prover]
#[verifier::rlimit(100)]
pub proof fn lemma_instruction_roundtrip(
    book: OpcodeBook,
    ins: InstructionV,
    index: int,
    ordinal: int,
    version: u32,
    pre: Seq<u8>,
    post: Seq<u8>,
    tables: Seq<Seq<(i32, i32)>>,
)
    requires
        book.opcode_of(ins.command) matches Some(op) && book.name_of(op) == Some(ins.command),
        canonical_operand(
            operand_kind(ins.command),
            book.large(book.opcode_of(ins.command)->Some_0),
            ins.operand,
            version,
        ),
        encode_instr_spec(book, ins, index, ordinal, version) is Some,
    ensures
        ({
            let x = encode_instr_spec(book, ins, index, ordinal, version)->Some_0;
            decode_instr_spec(book, pre + x + post, pre.len() as int, version, index, tables) == Some(
                (
                    InstructionV {
                        opcode: book.opcode_of(ins.command)->Some_0,
                        command: ins.command,
                        operand: ins.operand,
                    },
                    (pre.len() + x.len()) as int,
                ),
            )
        }),
{
    let op = book.opcode_of(ins.command)->Some_0;
    let x = encode_instr_spec(book, ins, index, ordinal, version)->Some_0;
    let b = pre + x + post;
    let p = pre.len() as int;
    let kind = operand_kind(ins.command);
    let large = book.large(op);
    lemma_window(pre, x, post, 0, 2);
    assert(x.subrange(0, 2) =~= bytes16(op as int));
    lemma_rd2_at(b, p, op as int);
    assert(command_name(book, op) == ins.command);
    let body = x.skip(2);
    assert(x =~= bytes16(op as int) + body);
    match ins.operand {
        OperandV::Branch(t) => {
            assert(kind == OperandKind::Branch);
            assert(body == b32(t - index));
            lemma_window(pre, x, post, 2, 6);
            assert(x.subrange(2, 6) =~= b32(t - index));
            lemma_rd4_at(b, p + 2, t - index);
        },
        _ => {
            assert(encode_operand_spec(kind, large, ins.operand, version) == Some(body));
            let pre2 = pre + bytes16(op as int);
            assert(b =~= pre2 + body + post);
            lemma_operand_roundtrip(kind, large, ins.operand, version, pre2, post, index, tables);
        },
    }
}


/// Every instruction of `code` names its command by the table's opcode for
/// it, the table names that opcode by the command, and the operand has the
/// form the command's class reads.
pub open spec fn code_roundtrips(book: OpcodeBook, code: Seq<InstructionV>, version: u32) -> bool {
    forall|i: int|
        0 <= i < code.len() ==> {
            let ins = #[trigger] code[i];
            &&& book.opcode_of(ins.command) == Some(ins.opcode)
            &&& book.name_of(ins.opcode) == Some(ins.command)
            &&& canonical_operand(operand_kind(ins.command), book.large(ins.opcode), ins.operand, version)
        }
}

/// The bytes of the first `k` instructions lie at the start of the encoded
/// code, those of instruction `k` right after them, and no switch table is
/// written.
proof fn lemma_code_prefix(book: OpcodeBook, code: Seq<InstructionV>, version: u32, k: int)
    requires
        0 <= k <= code.len(),
        code_roundtrips(book, code, version),
        encode_code_spec(book, code, version) is Some,
    ensures
        encode_code_spec(book, code.take(k), version) matches Some((c, t, n)) && t.len() == 0 && n == 0
            && c == encode_code_spec(book, code, version)->Some_0.0.subrange(0, c.len() as int)
            && (k < code.len() ==> (encode_instr_spec(book, code[k], k, 0, version) matches Some(x) && c.len()
            + x.len() <= encode_code_spec(book, code, version)->Some_0.0.len() && encode_code_spec(
            book,
            code,
            version,
        )->Some_0.0.subrange(c.len() as int, (c.len() + x.len()) as int) == x)),
    decreases code.len() - k,
{
    let full = encode_code_spec(book, code, version)->Some_0.0;
    if k == code.len() {
        assert(code.take(k) =~= code);
        lemma_no_tables(book, code, version);
        assert(full.subrange(0, full.len() as int) =~= full);
    } else {
        lemma_code_prefix(book, code, version, k + 1);
        let nxt = code.take(k + 1);
        assert(nxt.drop_last() =~= code.take(k));
        assert(nxt.last() == code[k]);
        assert(nxt.len() - 1 == k);
        let c1 = encode_code_spec(book, nxt, version)->Some_0.0;
        let c = encode_code_spec(book, code.take(k), version)->Some_0.0;
        let x = encode_instr_spec(book, code[k], k, 0, version)->Some_0;
        assert(!(code[k].operand is Switch));
        assert(c1 == c + x);
        assert(c =~= full.subrange(0, c.len() as int)) by {
            assert forall|q: int| 0 <= q < c.len() implies c[q] == full[q] by {
                assert(c1[q] == c[q]);
                assert(full.subrange(0, c1.len() as int)[q] == full[q]);
            }
        }
        assert(full.subrange(c.len() as int, (c.len() + x.len()) as int) =~= x) by {
            assert forall|q: int| 0 <= q < x.len() implies full[c.len() + q] == x[q] by {
                assert(c1[c.len() + q] == x[q]);
                assert(full.subrange(0, c1.len() as int)[c.len() + q] == full[c.len() + q]);
            }
        }
    }
}

/// No instruction of `code` is a switch, so no table is written.
proof fn lemma_no_tables(book: OpcodeBook, code: Seq<InstructionV>, version: u32)
    requires
        code_roundtrips(book, code, version),
        encode_code_spec(book, code, version) is Some,
    ensures
        encode_code_spec(book, code, version) matches Some((c, t, n)) && t.len() == 0 && n == 0,
    decreases code.len(),
{
    if code.len() > 0 {
        let d = code.drop_last();
        assert(code_roundtrips(book, d, version)) by {
            assert forall|i: int| 0 <= i < d.len() implies #[trigger] d[i] == code[i] by {}
        }
        lemma_no_tables(book, d, version);
        assert(code.last() == code[code.len() - 1]);
        assert(!(code.last().operand is Switch));
    }
}


/// Instruction `k` of the encoded code, laid at `base` in `b`, reads back
/// as itself, from the end of the first `k` to the end of the first `k + 1`.
#[verifier::spinoff_prover]
#[verifier::rlimit(100)]
proof fn lemma_decode_step(
    book: OpcodeBook,
    code: Seq<InstructionV>,
    version: u32,
    b: Seq<u8>,
    base: int,
    tables: Seq<Seq<(i32, i32)>>,
    k: int,
)
    requires
        0 <= k < code.len(),
        code_roundtrips(book, code, version),
        encode_code_spec(book, code, version) is Some,
        0 <= base,
        base + encode_code_spec(book, code, version)->Some_0.0.len() <= b.len(),
        b.subrange(base, base + encode_code_spec(book, code, version)->Some_0.0.len()) == encode_code_spec(
            book,
            code,
            version,
        )->Some_0.0,
    ensures
        ({
            let p = base + encode_code_spec(book, code.take(k), version)->Some_0.0.len();
            let q = base + encode_code_spec(book, code.take(k + 1), version)->Some_0.0.len();
            &&& p < q
            &&& decode_instr_spec(book, b, p, version, k, tables) == Some((code[k], q))
        }),
{
    let full = encode_code_spec(book, code, version)->Some_0.0;
    lemma_code_prefix(book, code, version, k);
    lemma_code_prefix(book, code, version, k + 1);
    let c = encode_code_spec(book, code.take(k), version)->Some_0.0;
    let p = base + c.len();
    let x = encode_instr_spec(book, code[k], k, 0, version)->Some_0;
    let ins = code[k];
    assert(x.len() >= 2);
    assert(b.subrange(p, p + x.len()) =~= x) by {
        assert forall|q: int| 0 <= q < x.len() implies b[p + q] == x[q] by {
            assert(full.subrange(c.len() as int, (c.len() + x.len()) as int)[q] == full[c.len() + q]);
            assert(b.subrange(base, base + full.len())[c.len() + q] == b[p + q]);
        }
    }
    let pre = b.subrange(0, p);
    let post = b.subrange(p + x.len(), b.len() as int);
    assert(b =~= pre + x + post);
    assert(book.opcode_of(ins.command) == Some(ins.opcode));
    lemma_instruction_roundtrip(book, ins, k, 0, version, pre, post, tables);
    let nxt = code.take(k + 1);
    assert(nxt.drop_last() =~= code.take(k));
    assert(nxt.last() == code[k]);
    assert(!(code[k].operand is Switch));
    assert(encode_code_spec(book, nxt, version)->Some_0.0 == c + x);
}

/// One step of reading the code: the instruction at `p`, then the rest.
proof fn lemma_code_unfold(
    book: OpcodeBook,
    b: Seq<u8>,
    p: int,
    end: int,
    version: u32,
    tables: Seq<Seq<(i32, i32)>>,
    acc: Seq<InstructionV>,
    ins: InstructionV,
    q: int,
)
    requires
        p < end,
        p < q,
        acc.len() <= i32::MAX,
        decode_instr_spec(book, b, p, version, acc.len() as int, tables) == Some((ins, q)),
    ensures
        decode_code_spec(book, b, p, end, version, tables, acc) == decode_code_spec(
            book,
            b,
            q,
            end,
            version,
            tables,
            acc.push(ins),
        ),
{
}

/// Decoding the encoded code, laid at `base` in `b`, from the end of its
/// first `k` instructions gives back the whole code.
#[verifier::spinoff_prover]
#[verifier::rlimit(100)]
proof fn lemma_decode_code(
    book: OpcodeBook,
    code: Seq<InstructionV>,
    version: u32,
    b: Seq<u8>,
    base: int,
    tables: Seq<Seq<(i32, i32)>>,
    k: int,
)
    requires
        0 <= k <= code.len(),
        code.len() <= i32::MAX,
        code_roundtrips(book, code, version),
        encode_code_spec(book, code, version) is Some,
        0 <= base,
        base + encode_code_spec(book, code, version)->Some_0.0.len() <= b.len(),
        b.subrange(base, base + encode_code_spec(book, code, version)->Some_0.0.len()) == encode_code_spec(
            book,
            code,
            version,
        )->Some_0.0,
    ensures
        decode_code_spec(
            book,
            b,
            base + encode_code_spec(book, code.take(k), version)->Some_0.0.len(),
            base + encode_code_spec(book, code, version)->Some_0.0.len(),
            version,
            tables,
            code.take(k),
        ) == Some(code),
    decreases code.len() - k,
{
    let full = encode_code_spec(book, code, version)->Some_0.0;
    let end = base + full.len();
    lemma_code_prefix(book, code, version, k);
    let c = encode_code_spec(book, code.take(k), version)->Some_0.0;
    let p = base + c.len();
    if k == code.len() {
        assert(code.take(k) =~= code);
    } else {
        lemma_decode_step(book, code, version, b, base, tables, k);
        let q = base + encode_code_spec(book, code.take(k + 1), version)->Some_0.0.len();
        lemma_code_prefix(book, code, version, k + 1);
        assert(q <= end);
        assert(code.take(k).len() == k);
        assert(code.take(k).push(code[k]) =~= code.take(k + 1));
        lemma_decode_code(book, code, version, b, base, tables, k + 1);
        assert(p < end);
        lemma_code_unfold(book, b, p, end, version, tables, code.take(k), code[k], q);
    }
}

/// The header the encoder writes for a script with no switch tables.
pub open spec fn plain_header(s: ScriptV, version: u32) -> Seq<u8> {
    b32(s.code.len() as int) + counts_bytes(s, version) + seq![0u8] + bytes16(1)
}

/// The header written at the end of `pre` reads back: its size from the
/// trailer, then the instruction count, the counts and no switch table.
#[verifier::rlimit(40)]
proof fn lemma_header(s: ScriptV, version: u32, pre: Seq<u8>)
    requires
        version >= 488,
        s.code.len() <= i32::MAX,
    ensures
        header_size_spec(pre + plain_header(s, version), version) == Some(plain_header(s, version).len() as int),
        decode_header_spec(pre + plain_header(s, version), pre.len() as int, version) == Some(
            HeaderV {
                code_len: s.code.len() as int,
                counts: (
                    s.local_count_int,
                    s.local_count_object,
                    if version >= 642 {
                        s.local_count_long
                    } else {
                        0u16
                    },
                    s.argument_count_int,
                    s.argument_count_object,
                    if version >= 642 {
                        s.argument_count_long
                    } else {
                        0u16
                    },
                ),
                tables: seq![],
            },
        ),
{
    let h = plain_header(s, version);
    let b = pre + h;
    let hp = pre.len() as int;
    let modern = version >= 642;
    let w: int = if modern {
        16
    } else {
        12
    };
    assert(h.len() == w + 3);
    assert(b.subrange(b.len() - 2, b.len() as int) =~= bytes16(1));
    lemma_rd2_at(b, b.len() - 2, 1);
    assert(b.subrange(hp, hp + 4) =~= b32(s.code.len() as int));
    lemma_rd4_at(b, hp, s.code.len() as int);
    assert(b.subrange(hp + 4, hp + 6) =~= bytes16(s.local_count_int as int));
    lemma_rd2_at(b, hp + 4, s.local_count_int as int);
    assert(b.subrange(hp + 6, hp + 8) =~= bytes16(s.local_count_object as int));
    lemma_rd2_at(b, hp + 6, s.local_count_object as int);
    if modern {
        assert(b.subrange(hp + 8, hp + 10) =~= bytes16(s.local_count_long as int));
        lemma_rd2_at(b, hp + 8, s.local_count_long as int);
        assert(b.subrange(hp + 10, hp + 12) =~= bytes16(s.argument_count_int as int));
        lemma_rd2_at(b, hp + 10, s.argument_count_int as int);
        assert(b.subrange(hp + 12, hp + 14) =~= bytes16(s.argument_count_object as int));
        lemma_rd2_at(b, hp + 12, s.argument_count_object as int);
        assert(b.subrange(hp + 14, hp + 16) =~= bytes16(s.argument_count_long as int));
        lemma_rd2_at(b, hp + 14, s.argument_count_long as int);
        assert(b[hp + 16] == 0u8);
    } else {
        assert(b.subrange(hp + 8, hp + 10) =~= bytes16(s.argument_count_int as int));
        lemma_rd2_at(b, hp + 8, s.argument_count_int as int);
        assert(b.subrange(hp + 10, hp + 12) =~= bytes16(s.argument_count_object as int));
        lemma_rd2_at(b, hp + 10, s.argument_count_object as int);
        assert(b[hp + 12] == 0u8);
    }
}

/// A name the encoder writes so that it reads back: none, or a non-empty
/// name of characters in 1..=255.
pub open spec fn name_roundtrips(name: Option<Seq<char>>) -> bool {
    match name {
        Some(t) => t.len() > 0 && forall|i: int| 0 <= i < t.len() ==> 1 <= (#[trigger] t[i] as u32) <= 255,
        None => true,
    }
}

proof fn lemma_char_byte_back(c: char)
    requires
        1 <= (c as u32) <= 255,
    ensures
        char_byte(c) != 0,
        byte_char(char_byte(c)) == c,
{
}

/// The name field reads back as the name, whatever follows it.
proof fn lemma_name(name: Option<Seq<char>>, version: u32, rest: Seq<u8>)
    requires
        version >= 459,
        name_roundtrips(name),
    ensures
        rdstrnull(name_bytes(name, version) + rest, 0) == Some((name, name_bytes(name, version).len() as int)),
{
    let nb = name_bytes(name, version);
    let b = nb + rest;
    match name {
        Some(t) => {
            let n = t.len() as int;
            assert(nb.len() == n + 1);
            assert forall|k: int| 0 <= k < n implies b[k] == char_byte(t[k]) && b[k] != 0 by {
                lemma_char_byte_back(t[k]);
            }
            assert(b[n] == 0u8);
            lemma_zero_from_unique(b, 0, n);
            assert(latin1(b.subrange(0, n)) =~= t) by {
                assert forall|k: int| 0 <= k < n implies latin1(b.subrange(0, n))[k] == t[k] by {
                    lemma_char_byte_back(t[k]);
                }
            }
        },
        None => {
            assert(b[0] == 0u8);
        },
    }
}

/// Decoding undoes encoding, script by script: a script that the encoder
/// accepts at build `version` (from 488, where the header ends in its
/// size), whose instructions use the table's own opcodes and names and
/// operands of the form their commands read, whose name reads back (none,
/// or non-empty in characters 1..=255) and whose long counts are zero
/// before build 642 (where they are not written), decodes from the
/// encoder's bytes as itself: the same name, counts and instructions, each
/// branch to the instruction it named.
#[verifier::spinoff_prover]
#[verifier::rlimit(100)]
pub proof fn lemma_script_roundtrip(book: OpcodeBook, s: ScriptV, version: u32)
    requires
        version >= 488,
        code_roundtrips(book, s.code, version),
        name_roundtrips(s.name),
        version < 642 ==> s.local_count_long == 0 && s.argument_count_long == 0,
        encode_script_spec(book, s, version) is Some,
    ensures
        decode_script_spec(book, encode_script_spec(book, s, version)->Some_0, version) == Some(s),
{
    let enc = encode_script_spec(book, s, version)->Some_0;
    let cb = encode_code_spec(book, s.code, version)->Some_0.0;
    let nb = name_bytes(s.name, version);
    let h = plain_header(s, version);
    lemma_script_bytes(book, s, version);
    lemma_header(s, version, nb + cb);
    let hp = (nb.len() + cb.len()) as int;
    assert(enc =~= nb + (cb + h));
    lemma_name(s.name, version, cb + h);
    assert(enc.subrange(nb.len() as int, hp) =~= cb);
    lemma_decode_code(book, s.code, version, enc, nb.len() as int, seq![], 0);
    assert(s.code.take(0) =~= Seq::<InstructionV>::empty());
    assert(encode_code_spec(book, s.code.take(0), version) == Some((Seq::<u8>::empty(), Seq::<u8>::empty(), 0nat)));
    let hd = decode_header_spec(enc, hp, version)->Some_0;
    lemma_script_unfold(book, enc, version, h.len() as int, hd, s.name, nb.len() as int, s.code);
    lemma_assemble(s, hd, version);
}

/// The script assembled from the header the encoder wrote is the script.
proof fn lemma_assemble(s: ScriptV, h: HeaderV, version: u32)
    requires
        version < 642 ==> s.local_count_long == 0 && s.argument_count_long == 0,
        h == (HeaderV {
            code_len: s.code.len() as int,
            counts: (
                s.local_count_int,
                s.local_count_object,
                if version >= 642 {
                    s.local_count_long
                } else {
                    0u16
                },
                s.argument_count_int,
                s.argument_count_object,
                if version >= 642 {
                    s.argument_count_long
                } else {
                    0u16
                },
            ),
            tables: seq![],
        }),
    ensures
        assemble_script(s.name, h, Some(s.code), version) == Some(s),
{
}

/// The encoder's bytes for a script with no switch: the name, the code,
/// then the plain header.
proof fn lemma_script_bytes(book: OpcodeBook, s: ScriptV, version: u32)
    requires
        code_roundtrips(book, s.code, version),
        encode_script_spec(book, s, version) is Some,
    ensures
        encode_script_spec(book, s, version)->Some_0 == name_bytes(s.name, version) + encode_code_spec(
            book,
            s.code,
            version,
        )->Some_0.0 + plain_header(s, version),
{
    lemma_no_tables(book, s.code, version);
    let enc = encode_script_spec(book, s, version)->Some_0;
    assert(enc =~= name_bytes(s.name, version) + encode_code_spec(book, s.code, version)->Some_0.0 + plain_header(
        s,
        version,
    ));
}

/// Reading a script whose header, name and code read as given.
proof fn lemma_script_unfold(
    book: OpcodeBook,
    b: Seq<u8>,
    version: u32,
    hs: int,
    h: HeaderV,
    name: Option<Seq<char>>,
    p: int,
    code: Seq<InstructionV>,
)
    requires
        version >= 459,
        header_size_spec(b, version) == Some(hs),
        hs <= b.len(),
        decode_header_spec(b, b.len() - hs, version) == Some(h),
        rdstrnull(b, 0) == Some((name, p)),
        decode_code_spec(book, b, p, b.len() - hs, version, h.tables, seq![]) == Some(code),
    ensures
        decode_script_spec(book, b, version) == assemble_script(name, h, Some(code), version),
{
}

} // verus!
