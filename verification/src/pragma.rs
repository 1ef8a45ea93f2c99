//! The assembly text form of compiled scripts: one `// @cs2` pragma line
//! per instruction, switch cases on lines of their own, and header lines
//! for the name and the local and argument counts.
use crate::script::{
    classify_command, code_view, operand_kind, CompiledScript, Instruction, InstructionV, Operand,
    OperandKind, OperandV, ScriptV, SwitchCase, VarBitRef, VarRef,
};
use crate::error::{Error, ErrorKind};
use crate::script::{fixed_var_command_domain, fixed_var_domain, is_fixed_varbit_command};
use crate::text::{
    chars_eq, chars_of, dec_int, find_sub, fmt_i64, index_of, lines, lines_spec, parse_i32,
    parse_i64, parse_in_range, parse_u16, replace_chars, replace_spec, slice_vec, split_once,
    split_once_str, split_whitespace, split_ws, starts_with, string_of, strip_prefix, trim,
    trim_chars,
};
use crate::vars::{domain_from_label, domain_label, VarDomain};
use vstd::prelude::*;

verus! {

broadcast use vstd::string::group_string_axioms;

// ---------------------------------------------------------------------------
// Text helpers
// ---------------------------------------------------------------------------

/// Appends the characters of `s`.
pub fn push_lit(out: &mut Vec<char>, s: &str)
    ensures
        final(out)@ == old(out)@ + s@,
{
    let mut v = chars_of(s);
    out.append(&mut v);
}

/// Appends the decimal spelling of `v`.
pub fn push_dec(out: &mut Vec<char>, v: i64)
    ensures
        final(out)@ == old(out)@ + dec_int(v as int),
{
    let s = fmt_i64(v);
    let mut c = chars_of(s.as_str());
    out.append(&mut c);
}

/// Appends the characters of `v`.
pub fn push_all(out: &mut Vec<char>, v: &[char])
    ensures
        final(out)@ == old(out)@ + v@,
{
    let mut i: usize = 0;
    while i < v.len()
        invariant
            i <= v@.len(),
            out@ == old(out)@ + v@.take(i as int),
        decreases v@.len() - i,
    {
        out.push(v[i]);
        i = i + 1;
        proof {
            assert(v@.take(i as int) =~= v@.take(i - 1).push(v@[i - 1]));
        }
    }
    proof {
        assert(v@.take(i as int) =~= v@);
    }
}

// ---------------------------------------------------------------------------
// Escaping
// ---------------------------------------------------------------------------

/// The escaped spelling of one character of a string constant.
pub open spec fn escape_str_char(c: char) -> Seq<char> {
    if c == '\\' {
        seq!['\\', '\\']
    } else if c == '"' {
        seq!['\\', '"']
    } else if c == '\n' {
        seq!['\\', 'n']
    } else {
        seq![c]
    }
}

/// A string constant with `\`, `"` and newline escaped by a backslash.
pub open spec fn escape_str(s: Seq<char>) -> Seq<char>
    decreases s.len(),
{
    if s.len() == 0 {
        seq![]
    } else {
        escape_str(s.drop_last()) + escape_str_char(s.last())
    }
}

/// A script name with `"` escaped by a backslash.
pub open spec fn escape_name(s: Seq<char>) -> Seq<char>
    decreases s.len(),
{
    if s.len() == 0 {
        seq![]
    } else {
        escape_name(s.drop_last()) + (if s.last() == '"' {
            seq!['\\', '"']
        } else {
            seq![s.last()]
        })
    }
}

fn push_escaped_str(out: &mut Vec<char>, s: &[char])
    ensures
        final(out)@ == old(out)@ + escape_str(s@),
{
    let mut i: usize = 0;
    while i < s.len()
        invariant
            i <= s@.len(),
            out@ == old(out)@ + escape_str(s@.take(i as int)),
        decreases s@.len() - i,
    {
        let c = s[i];
        if c == '\\' {
            out.push('\\');
            out.push('\\');
        } else if c == '"' {
            out.push('\\');
            out.push('"');
        } else if c == '\n' {
            out.push('\\');
            out.push('n');
        } else {
            out.push(c);
        }
        proof {
            assert(s@.take(i + 1).drop_last() =~= s@.take(i as int));
        }
        i = i + 1;
        proof {
            assert(out@ =~= old(out)@ + escape_str(s@.take(i as int)));
        }
    }
    proof {
        assert(s@.take(i as int) =~= s@);
    }
}

fn push_escaped_name(out: &mut Vec<char>, s: &[char])
    ensures
        final(out)@ == old(out)@ + escape_name(s@),
{
    let mut i: usize = 0;
    while i < s.len()
        invariant
            i <= s@.len(),
            out@ == old(out)@ + escape_name(s@.take(i as int)),
        decreases s@.len() - i,
    {
        let c = s[i];
        if c == '"' {
            out.push('\\');
            out.push('"');
        } else {
            out.push(c);
        }
        proof {
            assert(s@.take(i + 1).drop_last() =~= s@.take(i as int));
        }
        i = i + 1;
        proof {
            assert(out@ =~= old(out)@ + escape_name(s@.take(i as int)));
        }
    }
    proof {
        assert(s@.take(i as int) =~= s@);
    }
}

// ---------------------------------------------------------------------------
// Formatting, as a specification
// ---------------------------------------------------------------------------

/// `:transmog` when the flag is set.
pub open spec fn transmog_suffix(t: bool) -> Seq<char> {
    if t {
        ":transmog"@
    } else {
        seq![]
    }
}

/// The assembly spelling of an operand (empty for a switch).
pub open spec fn fmt_operand(op: OperandV) -> Seq<char> {
    match op {
        OperandV::Int(v) => dec_int(v as int),
        OperandV::Long(v) => dec_int(v as int),
        OperandV::Str(s) => seq!['"'] + escape_str(s) + seq!['"'],
        OperandV::Local(v) => dec_int(v as int),
        OperandV::VarRef(r) => domain_label(r.domain) + seq![':'] + dec_int(r.id as int)
            + transmog_suffix(r.transmog),
        OperandV::VarBitRef(r) => dec_int(r.id as int) + transmog_suffix(r.transmog),
        OperandV::Branch(t) => dec_int(t as int),
        OperandV::Switch(_) => seq![],
        OperandV::Script(v) => dec_int(v as int),
        OperandV::Array(v) => dec_int(v as int),
        OperandV::Count(v) => dec_int(v as int),
        OperandV::Byte(v) => dec_int(v as int),
    }
}

/// The assembly line body of `push_constant_string`, which tags the
/// constant's type.
pub open spec fn fmt_push_constant_string(op: OperandV) -> Seq<char> {
    match op {
        OperandV::Int(v) => "push_constant_string int:"@ + dec_int(v as int),
        OperandV::Long(v) => "push_constant_string long:"@ + dec_int(v as int),
        OperandV::Str(s) => "push_constant_string str:"@ + seq!['"'] + escape_str(s) + seq!['"'],
        _ => "push_constant_string "@ + fmt_operand(op),
    }
}

/// The assembly line body of an instruction other than a switch: an unknown
/// command with a 4-byte operand writes it as `raw32:<value>`.
pub open spec fn fmt_instruction(ins: InstructionV) -> Seq<char> {
    if ins.command == "push_constant_string"@ {
        fmt_push_constant_string(ins.operand)
    } else if operand_kind(ins.command) == OperandKind::Other && ins.operand is Int {
        ins.command + " raw32:"@ + dec_int(ins.operand->Int_0 as int)
    } else if fmt_operand(ins.operand).len() == 0 {
        ins.command
    } else {
        ins.command + seq![' '] + fmt_operand(ins.operand)
    }
}

/// The line of one switch case.
pub open spec fn case_line(c: SwitchCase) -> Seq<char> {
    "//   @cs2 case "@ + dec_int(c.value as int) + seq![' '] + dec_int(c.target as int)
}

/// The lines of a list of switch cases.
pub open spec fn case_lines(cases: Seq<SwitchCase>) -> Seq<Seq<char>>
    decreases cases.len(),
{
    if cases.len() == 0 {
        seq![]
    } else {
        case_lines(cases.drop_last()).push(case_line(cases.last()))
    }
}

/// The lines of one instruction: a `switch` line followed by its cases, or
/// one pragma line.
pub open spec fn instr_lines(ins: InstructionV) -> Seq<Seq<char>> {
    if ins.command == "switch"@ {
        seq!["// @cs2 switch"@] + match ins.operand {
            OperandV::Switch(cases) => case_lines(cases),
            _ => seq![],
        }
    } else {
        seq!["// @cs2 "@ + fmt_instruction(ins)]
    }
}

/// The lines of a list of instructions.
pub open spec fn code_lines(code: Seq<InstructionV>) -> Seq<Seq<char>>
    decreases code.len(),
{
    if code.len() == 0 {
        seq![]
    } else {
        code_lines(code.drop_last()) + instr_lines(code.last())
    }
}

/// A `int=<a> obj=<b> long=<c>` count list.
pub open spec fn counts_text(a: u16, b: u16, c: u16) -> Seq<char> {
    "int="@ + dec_int(a as int) + " obj="@ + dec_int(b as int) + " long="@ + dec_int(c as int)
}

/// The header lines: the name (when there is one), the local counts and the
/// argument counts.
pub open spec fn header_lines(s: ScriptV) -> Seq<Seq<char>> {
    let name = match s.name {
        Some(n) => seq!["// @cs2 name \""@ + escape_name(n) + seq!['"']],
        None => seq![],
    };
    name + seq![
        "// @cs2 locals "@ + counts_text(s.local_count_int, s.local_count_object, s.local_count_long),
        "// @cs2 args "@ + counts_text(
            s.argument_count_int,
            s.argument_count_object,
            s.argument_count_long,
        ),
    ]
}

/// All lines of a script's assembly form.
pub open spec fn asm_lines(s: ScriptV) -> Seq<Seq<char>> {
    header_lines(s) + code_lines(s.code)
}

/// Lines joined, each followed by a newline.
pub open spec fn join_lines(ls: Seq<Seq<char>>) -> Seq<char>
    decreases ls.len(),
{
    if ls.len() == 0 {
        seq![]
    } else {
        join_lines(ls.drop_last()) + ls.last() + seq!['\n']
    }
}

/// The assembly text of a script.
pub open spec fn asm_text(s: ScriptV) -> Seq<char> {
    join_lines(asm_lines(s))
}

// ---------------------------------------------------------------------------
// Formatting
// ---------------------------------------------------------------------------

/// Joining two runs of lines is joining each.
pub proof fn lemma_join_concat(a: Seq<Seq<char>>, b: Seq<Seq<char>>)
    ensures
        join_lines(a + b) == join_lines(a) + join_lines(b),
    decreases b.len(),
{
    if b.len() == 0 {
        assert(a + b =~= a);
        assert(join_lines(a) + join_lines(b) =~= join_lines(a));
    } else {
        assert((a + b).drop_last() =~= a + b.drop_last());
        lemma_join_concat(a, b.drop_last());
        assert(join_lines(a + b) =~= join_lines(a) + join_lines(b));
    }
}

fn push_operand(out: &mut Vec<char>, op: &Operand)
    ensures
        final(out)@ == old(out)@ + fmt_operand(op@),
{
    match op {
        Operand::Int(v) => push_dec(out, *v as i64),
        Operand::Long(v) => push_dec(out, *v),
        Operand::Str(s) => {
            let cs = chars_of(s.as_str());
            out.push('"');
            push_escaped_str(out, &cs);
            out.push('"');
            proof {
                assert(out@ =~= old(out)@ + fmt_operand(op@));
            }
        },
        Operand::Local(v) => push_dec(out, *v as i64),
        Operand::VarRef(r) => {
            push_lit(out, r.domain.as_label());
            out.push(':');
            push_dec(out, r.id as i64);
            if r.transmog {
                push_lit(out, ":transmog");
            }
            proof {
                assert(out@ =~= old(out)@ + fmt_operand(op@));
            }
        },
        Operand::VarBitRef(r) => {
            push_dec(out, r.id as i64);
            if r.transmog {
                push_lit(out, ":transmog");
            }
            proof {
                assert(out@ =~= old(out)@ + fmt_operand(op@));
            }
        },
        Operand::Branch(v) => push_dec(out, *v as i64),
        Operand::Switch(_) => {
            assert(out@ =~= old(out)@ + fmt_operand(op@));
        },
        Operand::Script(v) => push_dec(out, *v as i64),
        Operand::Array(v) => push_dec(out, *v as i64),
        Operand::Count(v) => push_dec(out, *v as i64),
        Operand::Byte(v) => push_dec(out, *v as i64),
    }
}

/// The assembly line body of an instruction other than a switch.
pub fn format_instruction_asm(ins: &Instruction) -> (r: Vec<char>)
    ensures
        r@ == fmt_instruction(ins@),
{
    let cmd = chars_of(ins.command.as_str());
    let mut out: Vec<char> = Vec::new();
    if chars_eq(&cmd, "push_constant_string") {
        push_lit(&mut out, "push_constant_string ");
        match &ins.operand {
            Operand::Int(v) => {
                push_lit(&mut out, "int:");
                push_dec(&mut out, *v as i64);
                proof {
                    reveal_strlit("push_constant_string ");
                    reveal_strlit("push_constant_string int:");
                    reveal_strlit("int:");
                }
            },
            Operand::Long(v) => {
                push_lit(&mut out, "long:");
                push_dec(&mut out, *v);
                proof {
                    reveal_strlit("push_constant_string ");
                    reveal_strlit("push_constant_string long:");
                    reveal_strlit("long:");
                }
            },
            Operand::Str(s) => {
                let cs = chars_of(s.as_str());
                push_lit(&mut out, "str:\"");
                push_escaped_str(&mut out, &cs);
                out.push('"');
                proof {
                    reveal_strlit("push_constant_string ");
                    reveal_strlit("push_constant_string str:");
                    reveal_strlit("str:\"");
                }
            },
            _ => push_operand(&mut out, &ins.operand),
        }
        assert(out@ =~= fmt_instruction(ins@));
        return out;
    }
    if classify_command(&cmd) == OperandKind::Other {
        if let Operand::Int(v) = &ins.operand {
            push_all(&mut out, &cmd);
            push_lit(&mut out, " raw32:");
            push_dec(&mut out, *v as i64);
            assert(out@ =~= fmt_instruction(ins@));
            return out;
        }
    }
    let mut o: Vec<char> = Vec::new();
    push_operand(&mut o, &ins.operand);
    push_all(&mut out, &cmd);
    if o.len() > 0 {
        out.push(' ');
        push_all(&mut out, &o);
    }
    assert(out@ =~= fmt_instruction(ins@));
    out
}

fn push_line(out: &mut Vec<char>, line: &[char])
    ensures
        final(out)@ == old(out)@ + line@ + seq!['\n'],
{
    push_all(out, line);
    out.push('\n');
}

fn push_counts(out: &mut Vec<char>, a: u16, b: u16, c: u16)
    ensures
        final(out)@ == old(out)@ + counts_text(a, b, c),
{
    push_lit(out, "int=");
    push_dec(out, a as i64);
    push_lit(out, " obj=");
    push_dec(out, b as i64);
    push_lit(out, " long=");
    push_dec(out, c as i64);
    assert(out@ =~= old(out)@ + counts_text(a, b, c));
}

/// Appends the lines of one instruction.
fn push_instruction_lines(out: &mut Vec<char>, ins: &Instruction)
    ensures
        final(out)@ == old(out)@ + join_lines(instr_lines(ins@)),
{
    let cmd = chars_of(ins.command.as_str());
    if chars_eq(&cmd, "switch") {
        let mut head: Vec<char> = Vec::new();
        push_lit(&mut head, "// @cs2 switch");
        push_line(out, &head);
        proof {
            assert(join_lines(seq!["// @cs2 switch"@]) =~= "// @cs2 switch"@ + seq!['\n']) by {
                assert(seq!["// @cs2 switch"@].drop_last() =~= Seq::<Seq<char>>::empty());
                reveal_with_fuel(join_lines, 2);
            }
        }
        let ghost w1 = out@;
        match &ins.operand {
            Operand::Switch(cases) => {
                let mut j: usize = 0;
                while j < cases.len()
                    invariant
                        j <= cases@.len(),
                        out@ == w1 + join_lines(case_lines(cases@.take(j as int))),
                    decreases cases@.len() - j,
                {
                    let c = cases[j];
                    let mut line: Vec<char> = Vec::new();
                    push_lit(&mut line, "//   @cs2 case ");
                    push_dec(&mut line, c.value as i64);
                    line.push(' ');
                    push_dec(&mut line, c.target as i64);
                    push_line(out, &line);
                    proof {
                        assert(line@ =~= case_line(c));
                        assert(cases@.take(j + 1).drop_last() =~= cases@.take(j as int));
                        assert(case_lines(cases@.take(j + 1)) == case_lines(cases@.take(j as int)).push(
                            case_line(c),
                        ));
                        assert(case_lines(cases@.take(j as int)).push(case_line(c)).drop_last()
                            =~= case_lines(cases@.take(j as int)));
                    }
                    j = j + 1;
                    proof {
                        assert(out@ =~= w1 + join_lines(case_lines(cases@.take(j as int))));
                    }
                }
                proof {
                    assert(cases@.take(j as int) =~= cases@);
                    lemma_join_concat(seq!["// @cs2 switch"@], case_lines(cases@));
                    assert(out@ =~= old(out)@ + join_lines(instr_lines(ins@)));
                }
            },
            _ => {
                proof {
                    assert(seq!["// @cs2 switch"@] + Seq::<Seq<char>>::empty() =~= seq![
                        "// @cs2 switch"@,
                    ]);
                }
            },
        }
    } else {
        let mut line: Vec<char> = Vec::new();
        push_lit(&mut line, "// @cs2 ");
        let mut body = format_instruction_asm(ins);
        line.append(&mut body);
        push_line(out, &line);
        proof {
            let ls = seq!["// @cs2 "@ + fmt_instruction(ins@)];
            assert(ls.drop_last() =~= Seq::<Seq<char>>::empty());
            reveal_with_fuel(join_lines, 2);
            assert(out@ =~= old(out)@ + join_lines(instr_lines(ins@)));
        }
    }
}

/// The assembly text of a script: header lines, then the instructions.
pub fn script_to_asm(script: &CompiledScript) -> (r: String)
    ensures
        r@ == asm_text(script@),
{
    let mut out: Vec<char> = Vec::new();
    let ghost sv = script@;
    match &script.name {
        Some(n) => {
            let cs = chars_of(n.as_str());
            let mut line: Vec<char> = Vec::new();
            push_lit(&mut line, "// @cs2 name \"");
            push_escaped_name(&mut line, &cs);
            line.push('"');
            push_line(&mut out, &line);
        },
        None => {},
    }
    let mut l1: Vec<char> = Vec::new();
    push_lit(&mut l1, "// @cs2 locals ");
    push_counts(&mut l1, script.local_count_int, script.local_count_object, script.local_count_long);
    push_line(&mut out, &l1);
    let mut l2: Vec<char> = Vec::new();
    push_lit(&mut l2, "// @cs2 args ");
    push_counts(
        &mut l2,
        script.argument_count_int,
        script.argument_count_object,
        script.argument_count_long,
    );
    push_line(&mut out, &l2);
    proof {
        let h = header_lines(sv);
        reveal_with_fuel(join_lines, 4);
        if sv.name is Some {
            assert(h.drop_last().drop_last().drop_last() =~= Seq::<Seq<char>>::empty());
        } else {
            assert(h.drop_last().drop_last() =~= Seq::<Seq<char>>::empty());
        }
        assert(out@ =~= join_lines(h));
    }
    let ghost w0 = out@;
    let mut i: usize = 0;
    while i < script.code.len()
        invariant
            i <= script.code@.len(),
            sv == script@,
            w0 == join_lines(header_lines(sv)),
            out@ == w0 + join_lines(code_lines(sv.code.take(i as int))),
        decreases script.code@.len() - i,
    {
        let ghost before = out@;
        push_instruction_lines(&mut out, &script.code[i]);
        proof {
            assert(sv.code.take(i + 1).drop_last() =~= sv.code.take(i as int));
            assert(sv.code.take(i + 1).last() == script.code@[i as int]@);
            lemma_join_concat(code_lines(sv.code.take(i as int)), instr_lines(script.code@[i as int]@));
        }
        i = i + 1;
        proof {
            assert(out@ =~= w0 + join_lines(code_lines(sv.code.take(i as int))));
        }
    }
    proof {
        assert(sv.code.take(i as int) =~= sv.code);
        lemma_join_concat(header_lines(sv), code_lines(sv.code));
    }
    string_of(&out)
}

// ---------------------------------------------------------------------------
// Parsing, as a specification
// ---------------------------------------------------------------------------

/// `str::parse::<i32>`.
pub open spec fn p_i32(t: Seq<char>) -> Option<i32> {
    match parse_in_range(t, true, i32::MIN as int, i32::MAX as int) {
        Some(v) => Some(v as i32),
        None => None,
    }
}

/// `str::parse::<i64>`.
pub open spec fn p_i64(t: Seq<char>) -> Option<i64> {
    match parse_in_range(t, true, i64::MIN as int, i64::MAX as int) {
        Some(v) => Some(v as i64),
        None => None,
    }
}

/// `str::parse::<u16>`.
pub open spec fn p_u16(t: Seq<char>) -> Option<u16> {
    match parse_in_range(t, false, 0, u16::MAX as int) {
        Some(v) => Some(v as u16),
        None => None,
    }
}

/// The backslash escapes of a string constant undone: `\n`, then `\"`,
/// then `\\`, each replaced over the whole text in turn.
pub open spec fn unescape_str(s: Seq<char>) -> Seq<char> {
    replace_spec(
        replace_spec(replace_spec(s, seq!['\\', 'n'], seq!['\n']), seq!['\\', '"'], seq!['"']),
        seq!['\\', '\\'],
        seq!['\\'],
    )
}

/// The backslash escapes of a name undone: `\"`, then `\\`.
pub open spec fn unescape_name(s: Seq<char>) -> Seq<char> {
    replace_spec(replace_spec(s, seq!['\\', '"'], seq!['"']), seq!['\\', '\\'], seq!['\\'])
}

/// Whether `t` is at least two characters long and quoted at both ends.
pub open spec fn quoted(t: Seq<char>) -> bool {
    t.len() >= 2 && t[0] == '"' && t.last() == '"'
}

/// The text between the quotes of `t`.
pub open spec fn unquote(t: Seq<char>) -> Seq<char> {
    t.subrange(1, t.len() - 1)
}

/// The operand text of `push_constant_string`: `int:`, `long:` or `str:`
/// tagged, a quoted string, an integer, or else the text itself.
pub open spec fn parse_constant_string_spec(t: Seq<char>) -> Option<OperandV> {
    let k = index_of(t, ':');
    if k < t.len() {
        let tag = t.take(k);
        let rest = t.skip(k + 1);
        if tag == "int"@ {
            match p_i32(rest) {
                Some(v) => Some(OperandV::Int(v)),
                None => None,
            }
        } else if tag == "long"@ {
            match p_i64(rest) {
                Some(v) => Some(OperandV::Long(v)),
                None => None,
            }
        } else if tag == "str"@ {
            if quoted(rest) {
                Some(OperandV::Str(unescape_str(unquote(rest))))
            } else {
                Some(OperandV::Str(rest))
            }
        } else {
            None
        }
    } else if quoted(t) {
        Some(OperandV::Str(unescape_str(unquote(t))))
    } else {
        match p_i32(t) {
            Some(v) => Some(OperandV::Int(v)),
            None => Some(OperandV::Str(t)),
        }
    }
}

/// `domain:id` with an optional `:transmog` suffix.
pub open spec fn parse_var_spec(t: Seq<char>) -> Option<OperandV> {
    let k = index_of(t, ':');
    if k < t.len() {
        let rest = t.skip(k + 1);
        let j = find_sub(rest, ":transmog"@);
        let found = ":transmog"@.is_prefix_of(rest.skip(j));
        let id_text = if found {
            rest.take(j)
        } else {
            rest
        };
        match domain_from_label(t.take(k)) {
            Some(domain) => match p_u16(id_text) {
                Some(id) => Some(OperandV::VarRef(VarRef { domain, id, transmog: found })),
                None => None,
            },
            None => None,
        }
    } else {
        None
    }
}

/// `id` with an optional `:transmog` suffix.
pub open spec fn parse_varbit_spec(t: Seq<char>) -> Option<OperandV> {
    let j = find_sub(t, ":transmog"@);
    if ":transmog"@.is_prefix_of(t.skip(j)) {
        match p_u16(t.take(j)) {
            Some(id) => Some(OperandV::VarBitRef(VarBitRef { id, transmog: true })),
            None => None,
        }
    } else {
        match p_u16(t) {
            Some(id) => Some(OperandV::VarBitRef(VarBitRef { id, transmog: false })),
            None => None,
        }
    }
}

/// The operand of a fixed-domain variable command: a bare id, or
/// `domain:id` naming the command's own domain.
pub open spec fn parse_fixed_var_spec(d: VarDomain, t: Seq<char>) -> Option<OperandV> {
    match p_u16(t) {
        Some(id) => Some(OperandV::VarRef(VarRef { domain: d, id, transmog: false })),
        None => {
            let k = index_of(t, ':');
            if k < t.len() {
                match domain_from_label(t.take(k)) {
                    Some(domain) => if domain == d {
                        match p_u16(t.skip(k + 1)) {
                            Some(id) => Some(OperandV::VarRef(VarRef { domain, id, transmog: false })),
                            None => None,
                        }
                    } else {
                        None
                    },
                    None => None,
                }
            } else {
                None
            }
        },
    }
}

/// The operand of a fixed-domain variable bit command: an id, optionally
/// after `varbit:`.
pub open spec fn parse_fixed_varbit_spec(t: Seq<char>) -> Option<OperandV> {
    let u = if "varbit:"@.is_prefix_of(t) {
        t.skip(7)
    } else {
        t
    };
    match p_u16(u) {
        Some(id) => Some(OperandV::VarBitRef(VarBitRef { id, transmog: false })),
        None => None,
    }
}

/// An operand of class `kind` from its text (an integer where the class
/// has one); `None` when the text does not hold one.
pub open spec fn parse_int_operand(kind: OperandKind, t: Seq<char>) -> Option<OperandV> {
    match p_i32(t) {
        Some(v) => match kind {
            OperandKind::ConstInt => Some(OperandV::Int(v)),
            OperandKind::Local => Some(OperandV::Local(v)),
            OperandKind::Branch => Some(OperandV::Branch(v)),
            OperandKind::Count => Some(OperandV::Count(v)),
            OperandKind::Script => Some(OperandV::Script(v)),
            _ => Some(OperandV::Array(v)),
        },
        None => None,
    }
}

/// The operand of an unknown command: `raw32:<value>` for a 4-byte value,
/// else a byte (zero when the text is no integer).
pub open spec fn parse_operand_spec_other(t: Seq<char>) -> Option<OperandV> {
    if "raw32:"@.is_prefix_of(t) {
        match p_i32(t.skip(6)) {
            Some(v) => Some(OperandV::Int(v)),
            None => None,
        }
    } else {
        match p_i32(t) {
            Some(v) => Some(OperandV::Byte(v as u8)),
            None => Some(OperandV::Byte(0)),
        }
    }
}

/// The operand of `command` from its text. No text gives `Int(0)`; an
/// unknown command takes `raw32:<value>` or a byte.
pub open spec fn parse_operand_spec(command: Seq<char>, t: Seq<char>) -> Option<OperandV> {
    if t.len() == 0 {
        Some(OperandV::Int(0))
    } else {
        match operand_kind(command) {
            OperandKind::ConstLong => match p_i64(t) {
                Some(v) => Some(OperandV::Long(v)),
                None => None,
            },
            OperandKind::ConstString => parse_constant_string_spec(t),
            OperandKind::Var => parse_var_spec(t),
            OperandKind::VarBit => parse_varbit_spec(t),
            OperandKind::FixedVar(d) => parse_fixed_var_spec(d, t),
            OperandKind::FixedVarBit => parse_fixed_varbit_spec(t),
            OperandKind::Switch => Some(OperandV::Int(0)),
            OperandKind::Other => parse_operand_spec_other(t),
            k => parse_int_operand(k, t),
        }
    }
}

/// The text of a pragma line: what follows `// @cs2 ` or `//   @cs2 `,
/// trimmed; `None` for other lines.
pub open spec fn pragma_content(raw: Seq<char>) -> Option<Seq<char>> {
    let l = trim(raw);
    if "// @cs2 "@.is_prefix_of(l) {
        Some(trim(l.skip(8)))
    } else if "//   @cs2 "@.is_prefix_of(l) {
        Some(trim(l.skip(10)))
    } else {
        None
    }
}

/// One `key=value` count: `int`, `obj` and `long` set their count, other
/// keys are ignored, and a part without `=` is skipped.
pub open spec fn apply_count(cur: (u16, u16, u16), part: Seq<char>) -> Option<(u16, u16, u16)> {
    let k = index_of(part, '=');
    if k < part.len() {
        match p_u16(part.skip(k + 1)) {
            Some(v) => {
                let key = part.take(k);
                if key == "int"@ {
                    Some((v, cur.1, cur.2))
                } else if key == "obj"@ {
                    Some((cur.0, v, cur.2))
                } else if key == "long"@ {
                    Some((cur.0, cur.1, v))
                } else {
                    Some(cur)
                }
            },
            None => None,
        }
    } else {
        Some(cur)
    }
}

/// The counts after the parts `parts` are applied in order.
pub open spec fn apply_counts(cur: (u16, u16, u16), parts: Seq<Seq<char>>) -> Option<(u16, u16, u16)>
    decreases parts.len(),
{
    if parts.len() == 0 {
        Some(cur)
    } else {
        match apply_count(cur, parts[0]) {
            Some(next) => apply_counts(next, parts.drop_first()),
            None => None,
        }
    }
}

/// What the parser holds between lines: the header fields, the
/// instructions so far, and a switch whose cases are still being read.
pub struct PragmaState {
    pub name: Option<Seq<char>>,
    pub locals: (u16, u16, u16),
    pub args: (u16, u16, u16),
    pub code: Seq<InstructionV>,
    pub pending: Seq<SwitchCase>,
    pub open: bool,
}

/// The state before the first line.
pub open spec fn initial_state() -> PragmaState {
    PragmaState {
        name: None,
        locals: (0, 0, 0),
        args: (0, 0, 0),
        code: seq![],
        pending: seq![],
        open: false,
    }
}

/// A switch still being read becomes an instruction.
pub open spec fn flush(st: PragmaState) -> PragmaState {
    if st.open {
        PragmaState {
            code: st.code.push(
                InstructionV {
                    opcode: 0,
                    command: "switch"@,
                    operand: OperandV::Switch(st.pending),
                },
            ),
            pending: seq![],
            open: false,
            ..st
        }
    } else {
        st
    }
}

/// The command word of an instruction line and its operand text.
pub open spec fn split_instruction(c: Seq<char>) -> (Seq<char>, Seq<char>) {
    let k = index_of(c, ' ');
    if k < c.len() {
        (c.take(k), trim(c.skip(k + 1)))
    } else {
        (c, seq![])
    }
}

/// The effect of one line; `None` when the line is in error.
pub open spec fn pragma_step(st: PragmaState, raw: Seq<char>) -> Option<PragmaState> {
    match pragma_content(raw) {
        None => Some(st),
        Some(c) => if c.len() == 0 {
            Some(st)
        } else if "name "@.is_prefix_of(c) {
            let v = trim(c.skip(5));
            if quoted(v) {
                Some(PragmaState { name: Some(unescape_name(unquote(v))), ..st })
            } else {
                Some(st)
            }
        } else if "locals "@.is_prefix_of(c) {
            match apply_counts(st.locals, split_ws(c.skip(7))) {
                Some(l) => Some(PragmaState { locals: l, ..st }),
                None => None,
            }
        } else if "args "@.is_prefix_of(c) {
            match apply_counts(st.args, split_ws(c.skip(5))) {
                Some(a) => Some(PragmaState { args: a, ..st }),
                None => None,
            }
        } else if "case "@.is_prefix_of(c) {
            let parts = split_ws(c.skip(5));
            if parts.len() >= 2 {
                match (p_i32(parts[0]), p_i32(parts[1])) {
                    (Some(value), Some(target)) => Some(
                        PragmaState {
                            pending: st.pending.push(SwitchCase { value, target }),
                            open: true,
                            ..st
                        },
                    ),
                    _ => None,
                }
            } else {
                Some(PragmaState { open: true, ..st })
            }
        } else if c == "switch"@ {
            Some(PragmaState { open: true, ..flush(st) })
        } else {
            let f = flush(st);
            let (command, text) = split_instruction(c);
            match parse_operand_spec(command, text) {
                Some(operand) => Some(
                    PragmaState {
                        code: f.code.push(InstructionV { opcode: 0, command, operand }),
                        ..f
                    },
                ),
                None => None,
            }
        },
    }
}

/// The state after the lines `ls`, from `st`.
pub open spec fn pragma_fold(st: PragmaState, ls: Seq<Seq<char>>) -> Option<PragmaState>
    decreases ls.len(),
{
    if ls.len() == 0 {
        Some(st)
    } else {
        match pragma_step(st, ls[0]) {
            Some(next) => pragma_fold(next, ls.drop_first()),
            None => None,
        }
    }
}

/// The script a final state stands for.
pub open spec fn state_script(st: PragmaState) -> ScriptV {
    ScriptV {
        name: st.name,
        local_count_int: st.locals.0,
        local_count_object: st.locals.1,
        local_count_long: st.locals.2,
        argument_count_int: st.args.0,
        argument_count_object: st.args.1,
        argument_count_long: st.args.2,
        code: st.code,
    }
}

/// Parsing assembly text; `None` exactly when `parse_cs2_asm` fails.
pub open spec fn parse_pragma_spec(src: Seq<char>) -> Option<ScriptV> {
    match pragma_fold(initial_state(), lines_spec(src)) {
        Some(st) => Some(state_script(flush(st))),
        None => None,
    }
}

/// Whether the line would make the parser slice a lone quote: a name, or a
/// string constant, that is the single character `"`.
pub open spec fn line_slices_lone_quote(raw: Seq<char>) -> bool {
    match pragma_content(raw) {
        None => false,
        Some(c) => if "name "@.is_prefix_of(c) {
            trim(c.skip(5)) == seq!['"']
        } else if c.len() == 0 || "locals "@.is_prefix_of(c) || "args "@.is_prefix_of(c)
            || "case "@.is_prefix_of(c) || c == "switch"@ {
            false
        } else {
            let (command, t) = split_instruction(c);
            &&& command == "push_constant_string"@
            &&& t.len() > 0
            &&& {
                let k = index_of(t, ':');
                if k < t.len() {
                    t.take(k) == "str"@ && t.skip(k + 1) == seq!['"']
                } else {
                    t == seq!['"']
                }
            }
        },
    }
}

/// Whether parsing from `st` reaches a line that slices a lone quote
/// before any line fails.
pub open spec fn pragma_hits_lone_quote(st: PragmaState, ls: Seq<Seq<char>>) -> bool
    decreases ls.len(),
{
    if ls.len() == 0 {
        false
    } else if line_slices_lone_quote(ls[0]) {
        true
    } else {
        match pragma_step(st, ls[0]) {
            Some(next) => pragma_hits_lone_quote(next, ls.drop_first()),
            None => false,
        }
    }
}

// ---------------------------------------------------------------------------
// Parsing
// ---------------------------------------------------------------------------

fn invalid(msg: &str) -> (e: Error)
    ensures
        e.kind == ErrorKind::Invalid,
{
    Error::new(ErrorKind::Invalid, msg)
}

fn parse_i32_op(t: &[char]) -> (r: Option<i32>)
    ensures
        r == p_i32(t@),
{
    parse_i32(t)
}

fn parse_i64_op(t: &[char]) -> (r: Option<i64>)
    ensures
        r == p_i64(t@),
{
    parse_i64(t)
}

fn parse_u16_op(t: &[char]) -> (r: Option<u16>)
    ensures
        r == p_u16(t@),
{
    parse_u16(t)
}

fn quoted_exec(t: &[char]) -> (r: bool)
    ensures
        r == quoted(t@),
{
    t.len() >= 2 && t[0] == '"' && t[t.len() - 1] == '"'
}

fn chars1(a: char) -> (r: Vec<char>)
    ensures
        r@ == seq![a],
{
    let mut v: Vec<char> = Vec::new();
    v.push(a);
    assert(v@ =~= seq![a]);
    v
}

fn chars2(a: char, b: char) -> (r: Vec<char>)
    ensures
        r@ == seq![a, b],
{
    let mut v: Vec<char> = Vec::new();
    v.push(a);
    v.push(b);
    assert(v@ =~= seq![a, b]);
    v
}

/// The text of a string constant with its escapes undone.
fn unescape_str_exec(t: &[char]) -> (r: Vec<char>)
    ensures
        r@ == unescape_str(t@),
{
    let a = replace_chars(t, &chars2('\\', 'n'), &chars1('\n'));
    let b = replace_chars(&a, &chars2('\\', '"'), &chars1('"'));
    replace_chars(&b, &chars2('\\', '\\'), &chars1('\\'))
}

/// The text of a name with its escapes undone.
fn unescape_name_exec(t: &[char]) -> (r: Vec<char>)
    ensures
        r@ == unescape_name(t@),
{
    let b = replace_chars(t, &chars2('\\', '"'), &chars1('"'));
    replace_chars(&b, &chars2('\\', '\\'), &chars1('\\'))
}

fn unquote_exec(t: &[char]) -> (r: Vec<char>)
    requires
        quoted(t@),
    ensures
        r@ == unquote(t@),
{
    slice_vec(t, 1, t.len() - 1)
}

fn parse_constant_string(t: &[char]) -> (r: Result<Operand, Error>)
    ensures
        r is Ok <==> parse_constant_string_spec(t@) is Some,
        r matches Ok(o) ==> parse_constant_string_spec(t@) == Some(o@),
{
    match split_once(t, ':') {
        Some((tag, rest)) => {
            if chars_eq(&tag, "int") {
                match parse_i32_op(&rest) {
                    Some(v) => Ok(Operand::Int(v)),
                    None => Err(invalid("expected int for string constant")),
                }
            } else if chars_eq(&tag, "long") {
                match parse_i64_op(&rest) {
                    Some(v) => Ok(Operand::Long(v)),
                    None => Err(invalid("expected long for string constant")),
                }
            } else if chars_eq(&tag, "str") {
                if quoted_exec(&rest) {
                    let inner = unquote_exec(&rest);
                    let u = unescape_str_exec(&inner);
                    Ok(Operand::Str(string_of(&u)))
                } else {
                    Ok(Operand::Str(string_of(&rest)))
                }
            } else {
                Err(invalid("unknown constant string type tag"))
            }
        },
        None => {
            if quoted_exec(t) {
                let inner = unquote_exec(t);
                let u = unescape_str_exec(&inner);
                Ok(Operand::Str(string_of(&u)))
            } else {
                match parse_i32_op(t) {
                    Some(v) => Ok(Operand::Int(v)),
                    None => Ok(Operand::Str(string_of(t))),
                }
            }
        },
    }
}

fn parse_var_operand(t: &[char]) -> (r: Result<Operand, Error>)
    ensures
        r is Ok <==> parse_var_spec(t@) is Some,
        r matches Ok(o) ==> parse_var_spec(t@) == Some(o@),
{
    match split_once(t, ':') {
        Some((domain_text, rest)) => {
            let tm = chars_of(":transmog");
            proof {
                reveal_strlit(":transmog");
            }
            let (id_text, transmog) = match split_once_str(&rest, &tm) {
                Some((a, _)) => (a, true),
                None => (rest, false),
            };
            let domain = match VarDomain::from_label(&domain_text) {
                Some(d) => d,
                None => return Err(invalid("unknown var domain")),
            };
            match parse_u16_op(&id_text) {
                Some(id) => Ok(Operand::VarRef(VarRef { domain, id, transmog })),
                None => Err(invalid("expected var id")),
            }
        },
        None => Err(invalid("expected domain:id format for var ref")),
    }
}

fn parse_varbit_operand(t: &[char]) -> (r: Result<Operand, Error>)
    ensures
        r is Ok <==> parse_varbit_spec(t@) is Some,
        r matches Ok(o) ==> parse_varbit_spec(t@) == Some(o@),
{
    let tm = chars_of(":transmog");
    proof {
        reveal_strlit(":transmog");
    }
    match split_once_str(t, &tm) {
        Some((id_text, _)) => match parse_u16_op(&id_text) {
            Some(id) => Ok(Operand::VarBitRef(VarBitRef { id, transmog: true })),
            None => Err(invalid("expected varbit id")),
        },
        None => match parse_u16_op(t) {
            Some(id) => Ok(Operand::VarBitRef(VarBitRef { id, transmog: false })),
            None => Err(invalid("expected varbit id")),
        },
    }
}

/// The operand of a fixed-domain variable command `command`.
pub fn parse_fixed_var_ref_operand(command: &[char], t: &[char]) -> (r: Result<Operand, Error>)
    ensures
        match fixed_var_domain(command@) {
            Some(d) => {
                &&& r is Ok <==> parse_fixed_var_spec(d, t@) is Some
                &&& r matches Ok(o) ==> parse_fixed_var_spec(d, t@) == Some(o@)
            },
            None => r is Err,
        },
{
    let expected = match fixed_var_command_domain(command) {
        Some(d) => d,
        None => return Err(invalid("fixed var command expected")),
    };
    if let Some(id) = parse_u16_op(t) {
        return Ok(Operand::VarRef(VarRef { domain: expected, id, transmog: false }));
    }
    match split_once(t, ':') {
        Some((domain_text, id_text)) => {
            let domain = match VarDomain::from_label(&domain_text) {
                Some(d) => d,
                None => return Err(invalid("unknown var domain")),
            };
            if domain != expected {
                return Err(invalid("var domain does not match the command"));
            }
            match parse_u16_op(&id_text) {
                Some(id) => Ok(Operand::VarRef(VarRef { domain, id, transmog: false })),
                None => Err(invalid("expected var id")),
            }
        },
        None => Err(invalid("expected integer or domain:id format")),
    }
}

/// The operand of a fixed-domain variable bit command `command`.
pub fn parse_fixed_varbit_operand(command: &[char], t: &[char]) -> (r: Result<Operand, Error>)
    ensures
        operand_kind(command@) == OperandKind::FixedVarBit ==> {
            &&& r is Ok <==> parse_fixed_varbit_spec(t@) is Some
            &&& r matches Ok(o) ==> parse_fixed_varbit_spec(t@) == Some(o@)
        },
        operand_kind(command@) != OperandKind::FixedVarBit ==> r is Err,
{
    if !is_fixed_varbit_command(command) {
        return Err(invalid("fixed varbit command expected"));
    }
    proof {
        reveal_strlit("varbit:");
    }
    let u = match strip_prefix(t, "varbit:") {
        Some(rest) => rest,
        None => slice_vec(t, 0, t.len()),
    };
    proof {
        assert(t@.subrange(0, t@.len() as int) =~= t@);
    }
    match parse_u16_op(&u) {
        Some(id) => Ok(Operand::VarBitRef(VarBitRef { id, transmog: false })),
        None => Err(invalid("expected varbit id")),
    }
}

fn parse_operand_chars(cmd: &[char], t: &[char]) -> (r: Result<Operand, Error>)
    ensures
        r is Ok <==> parse_operand_spec(cmd@, t@) is Some,
        r matches Ok(o) ==> parse_operand_spec(cmd@, t@) == Some(o@),
{
    if t.len() == 0 {
        return Ok(Operand::Int(0));
    }
    match classify_command(cmd) {
        OperandKind::ConstLong => match parse_i64_op(t) {
            Some(v) => Ok(Operand::Long(v)),
            None => Err(invalid("expected long integer")),
        },
        OperandKind::ConstString => parse_constant_string(t),
        OperandKind::Var => parse_var_operand(t),
        OperandKind::VarBit => parse_varbit_operand(t),
        OperandKind::FixedVar(_) => parse_fixed_var_ref_operand(cmd, t),
        OperandKind::FixedVarBit => parse_fixed_varbit_operand(cmd, t),
        OperandKind::Switch => Ok(Operand::Int(0)),
        OperandKind::Other => {
            proof {
                reveal_strlit("raw32:");
            }
            match strip_prefix(t, "raw32:") {
                Some(rest) => match parse_i32_op(&rest) {
                    Some(v) => Ok(Operand::Int(v)),
                    None => Err(invalid("expected raw32 operand")),
                },
                None => match parse_i32_op(t) {
                    Some(v) => Ok(Operand::Byte(v as u8)),
                    None => Ok(Operand::Byte(0)),
                },
            }
        },
        k => match parse_i32_op(t) {
            Some(v) => match k {
                OperandKind::ConstInt => Ok(Operand::Int(v)),
                OperandKind::Local => Ok(Operand::Local(v)),
                OperandKind::Branch => Ok(Operand::Branch(v)),
                OperandKind::Count => Ok(Operand::Count(v)),
                OperandKind::Script => Ok(Operand::Script(v)),
                _ => Ok(Operand::Array(v)),
            },
            None => Err(invalid("expected integer operand")),
        },
    }
}

/// The operand of the command `opcode_name` from its assembly text.
pub fn parse_operand_asm(opcode_name: &str, operand_text: &str) -> (r: Result<Operand, Error>)
    ensures
        r is Ok <==> parse_operand_spec(opcode_name@, operand_text@) is Some,
        r matches Ok(o) ==> parse_operand_spec(opcode_name@, operand_text@) == Some(o@),
{
    let c = chars_of(opcode_name);
    let t = chars_of(operand_text);
    parse_operand_chars(&c, &t)
}

/// Applies a `key=value` count list to `cur`.
fn parse_counts(input: &[char], cur: (u16, u16, u16)) -> (r: Result<(u16, u16, u16), Error>)
    ensures
        r is Ok <==> apply_counts(cur, split_ws(input@)) is Some,
        r matches Ok(c) ==> apply_counts(cur, split_ws(input@)) == Some(c),
{
    let parts = split_whitespace(input);
    let ghost ps = parts.deep_view();
    let mut c = cur;
    let mut i: usize = 0;
    proof {
        assert(ps.skip(0) =~= ps);
    }
    while i < parts.len()
        invariant
            i <= ps.len(),
            ps == parts.deep_view(),
            ps == split_ws(input@),
            apply_counts(cur, ps) == apply_counts(c, ps.skip(i as int)),
        decreases ps.len() - i,
    {
        let part = &parts[i];
        proof {
            assert(ps[i as int] == part@);
            assert(ps.skip(i as int).drop_first() =~= ps.skip(i + 1));
            assert(ps.skip(i as int)[0] == part@);
        }
        match split_once(part, '=') {
            Some((key, val)) => {
                let v = match parse_u16_op(&val) {
                    Some(v) => v,
                    None => return Err(invalid("invalid count value")),
                };
                if chars_eq(&key, "int") {
                    c = (v, c.1, c.2);
                } else if chars_eq(&key, "obj") {
                    c = (c.0, v, c.2);
                } else if chars_eq(&key, "long") {
                    c = (c.0, c.1, v);
                }
            },
            None => {},
        }
        i = i + 1;
    }
    proof {
        assert(ps.skip(i as int) =~= Seq::<Seq<char>>::empty());
    }
    Ok(c)
}

struct ParserState {
    name: Option<String>,
    locals: (u16, u16, u16),
    args: (u16, u16, u16),
    code: Vec<Instruction>,
    pending: Vec<SwitchCase>,
    open: bool,
}

impl View for ParserState {
    type V = PragmaState;

    closed spec fn view(&self) -> PragmaState {
        PragmaState {
            name: crate::script::opt_view(self.name),
            locals: self.locals,
            args: self.args,
            code: code_view(self.code@),
            pending: self.pending@,
            open: self.open,
        }
    }
}

/// Turns a switch still being read into an instruction.
fn flush_pending_switch(st: &mut ParserState)
    ensures
        final(st)@ == flush(old(st)@),
{
    if st.open {
        let mut cases: Vec<SwitchCase> = Vec::new();
        std::mem::swap(&mut cases, &mut st.pending);
        let ghost c0 = st.code@;
        let ins = Instruction {
            opcode: 0,
            command: crate::text::string_from("switch"),
            operand: Operand::Switch(cases),
        };
        st.code.push(ins);
        st.open = false;
        proof {
            assert(code_view(st.code@) =~= code_view(c0).push(ins@));
            assert(st.pending@ =~= Seq::<SwitchCase>::empty());
        }
    }
}

/// The trimmed text after the pragma marker of a line, if it has one.
fn pragma_line_content(raw: &[char]) -> (r: Option<Vec<char>>)
    ensures
        r is Some == pragma_content(raw@) is Some,
        r matches Some(c) ==> pragma_content(raw@) == Some(c@),
{
    let l = trim_chars(raw);
    proof {
        reveal_strlit("// @cs2 ");
        reveal_strlit("//   @cs2 ");
    }
    match strip_prefix(&l, "// @cs2 ") {
        Some(rest) => Some(trim_chars(&rest)),
        None => match strip_prefix(&l, "//   @cs2 ") {
            Some(rest) => Some(trim_chars(&rest)),
            None => None,
        },
    }
}

/// Applies one line to the parser state.
fn apply_line(st: &mut ParserState, raw: &[char]) -> (r: Result<(), Error>)
    ensures
        r is Ok <==> pragma_step(old(st)@, raw@) is Some,
        r is Ok ==> pragma_step(old(st)@, raw@) == Some(final(st)@),
{
    let c = match pragma_line_content(raw) {
        Some(c) => c,
        None => return Ok(()),
    };
    if c.len() == 0 {
        return Ok(());
    }
    proof {
        reveal_strlit("name ");
        reveal_strlit("locals ");
        reveal_strlit("args ");
        reveal_strlit("case ");
    }
    if let Some(rest) = strip_prefix(&c, "name ") {
        let v = trim_chars(&rest);
        if quoted_exec(&v) {
            let inner = unquote_exec(&v);
            let u = unescape_name_exec(&inner);
            st.name = Some(string_of(&u));
        }
        return Ok(());
    }
    if let Some(rest) = strip_prefix(&c, "locals ") {
        let l = parse_counts(&rest, st.locals)?;
        st.locals = l;
        return Ok(());
    }
    if let Some(rest) = strip_prefix(&c, "args ") {
        let a = parse_counts(&rest, st.args)?;
        st.args = a;
        return Ok(());
    }
    if let Some(rest) = strip_prefix(&c, "case ") {
        let parts = split_whitespace(&rest);
        proof {
            assert(parts.deep_view() == split_ws(rest@));
        }
        if parts.len() >= 2 {
            proof {
                assert(parts.deep_view()[0] == parts@[0]@);
                assert(parts.deep_view()[1] == parts@[1]@);
            }
            let value = match parse_i32_op(&parts[0]) {
                Some(v) => v,
                None => return Err(invalid("invalid case value")),
            };
            let target = match parse_i32_op(&parts[1]) {
                Some(v) => v,
                None => return Err(invalid("invalid case target")),
            };
            st.pending.push(SwitchCase { value, target });
        }
        st.open = true;
        return Ok(());
    }
    if chars_eq(&c, "switch") {
        flush_pending_switch(st);
        st.open = true;
        return Ok(());
    }
    flush_pending_switch(st);
    let (command, text) = match split_once(&c, ' ') {
        Some((a, b)) => (a, trim_chars(&b)),
        None => (c, Vec::new()),
    };
    proof {
        assert(split_instruction(c@) == (command@, text@));
    }
    let operand = parse_operand_chars(&command, &text)?;
    let ghost c0 = st.code@;
    let ins = Instruction { opcode: 0, command: string_of(&command), operand };
    st.code.push(ins);
    proof {
        assert(code_view(st.code@) =~= code_view(c0).push(ins@));
    }
    Ok(())
}

/// Parses assembly text back into a script. Lines without the `// @cs2 `
/// or `//   @cs2 ` marker are skipped; a switch collects the `case` lines
/// that follow it. Fails exactly when `parse_pragma_spec` has no value.
pub fn parse_cs2_asm(source: &str) -> (r: Result<CompiledScript, Error>)
    requires
        !pragma_hits_lone_quote(initial_state(), lines_spec(source@)),
    ensures
        r is Ok <==> parse_pragma_spec(source@) is Some,
        r matches Ok(s) ==> parse_pragma_spec(source@) == Some(s@),
{
    let src = chars_of(source);
    let ls = lines(&src);
    let ghost lv = ls.deep_view();
    let mut st = ParserState {
        name: None,
        locals: (0, 0, 0),
        args: (0, 0, 0),
        code: Vec::new(),
        pending: Vec::new(),
        open: false,
    };
    proof {
        assert(st@.code =~= Seq::<InstructionV>::empty());
        assert(st@.pending =~= Seq::<SwitchCase>::empty());
        assert(st@ == initial_state());
        assert(lv.skip(0) =~= lv);
    }
    let mut i: usize = 0;
    while i < ls.len()
        invariant
            i <= lv.len(),
            lv == ls.deep_view(),
            lv == lines_spec(source@),
            pragma_fold(initial_state(), lv) == pragma_fold(st@, lv.skip(i as int)),
        decreases lv.len() - i,
    {
        proof {
            assert(lv[i as int] == ls@[i as int]@);
            assert(lv.skip(i as int)[0] == lv[i as int]);
            assert(lv.skip(i as int).drop_first() =~= lv.skip(i + 1));
        }
        apply_line(&mut st, &ls[i])?;
        i = i + 1;
    }
    proof {
        assert(lv.skip(i as int) =~= Seq::<Seq<char>>::empty());
    }
    flush_pending_switch(&mut st);
    Ok(
        CompiledScript {
            name: st.name,
            local_count_int: st.locals.0,
            local_count_object: st.locals.1,
            local_count_long: st.locals.2,
            argument_count_int: st.args.0,
            argument_count_object: st.args.1,
            argument_count_long: st.args.2,
            code: st.code,
        },
    )
}

} // verus!
