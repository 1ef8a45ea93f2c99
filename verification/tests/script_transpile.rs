use cs2script::encode::encode_script;
use cs2script::script::{CompiledScript, Instruction, OpcodeBook, Operand, SwitchCase, VarBitRef, VarRef};
use cs2script::script_transpile::Transpiler;
use cs2script::vars::VarDomain;

fn ins(opcode: u16, command: &str, operand: Operand) -> Instruction {
    Instruction { opcode, command: command.to_string(), operand }
}

fn demo_script() -> CompiledScript {
    CompiledScript {
        name: Some("[proc,demo]".to_string()),
        local_count_int: 1,
        local_count_object: 0,
        local_count_long: 0,
        argument_count_int: 1,
        argument_count_object: 0,
        argument_count_long: 0,
        code: vec![
            ins(0, "push_constant_int", Operand::Int(5)),
            ins(34, "pop_int_local", Operand::Local(0)),
            ins(2, "push_var", Operand::VarRef(VarRef { domain: VarDomain::Player, id: 10, transmog: false })),
            ins(25, "push_varbit", Operand::VarBitRef(VarBitRef { id: 7, transmog: true })),
            ins(1, "branch_if_true", Operand::Branch(2)),
            ins(40, "gosub_with_params", Operand::Script(12)),
            ins(60, "switch", Operand::Switch(vec![
                SwitchCase { value: 1, target: 4 },
                SwitchCase { value: 2, target: 5 },
            ])),
            ins(99, "some_command_x", Operand::Int(-3)),
            ins(21, "return", Operand::Byte(0)),
        ],
    }
}

const EXPECTED: &str = "// @ts-nocheck - Auto-generated CS2 to TypeScript\n\
import { VARS, VARBITS, ENUMS, PARAMS } from './index';\n\
\n\
// script name: [proc,demo]\n\
// script_77: locals(int=1, obj=0, long=0) args(int=1, obj=0, long=0)\n\
\n\
const arg_int_0: number, local_int_0: number;\n\
\n\
// --- instruction stream ---\n\
00000: push(5);\n\
00001: local_int_0 = pop();\n\
00002: push(my_var);\n\
00003: push(VARBITS.get(7) as bit7 /* bit7:transmog */);\n\
00004: if (pop()) goto(->2);\n\
00005: script_12(pop());\n\
00006: switch(pop()) {\n        case 1: goto(4);\n        case 2: goto(5);\n    }\n\
00007: somecommandx(-3);\n\
00008: return(0);\n";

fn named_transpiler() -> Transpiler {
    Transpiler::new()
        .with_vars(&vec![(VarDomain::Player, 10, "my_var".to_string())])
        .with_varbits(&vec![(7, "bit7".to_string())])
        .with_enums(&vec![(3, 3)])
        .with_params(&vec![(4, 4)])
}

#[test]
fn legacy_listing_names_known_references() {
    let t = named_transpiler();
    let out = t.transpile(&demo_script(), 77);
    assert_eq!(out.source, EXPECTED);
    assert_eq!(out.referenced_vars, vec![(VarDomain::Player, 10)]);
    assert_eq!(out.referenced_varbits, vec![7]);
    assert_eq!(out.referenced_enums, vec![5]);
    assert_eq!(out.referenced_scripts, vec![12]);
}

#[test]
fn legacy_listing_without_names_uses_raw_lookups() {
    let t = Transpiler::default();
    let out = t.transpile(&demo_script(), 77);
    assert!(out.source.contains("00002: push(VARS.get(0 * 1000000 + 10)!);\n"));
    assert!(out.source.contains("00003: push(VARBITS.get(7)!);\n"));
}

#[test]
fn legacy_listing_of_empty_script_declares_placeholder() {
    let script = CompiledScript {
        name: None,
        local_count_int: 0,
        local_count_object: 0,
        local_count_long: 0,
        argument_count_int: 0,
        argument_count_object: 0,
        argument_count_long: 0,
        code: Vec::new(),
    };
    let out = Transpiler::new().transpile(&script, -1);
    assert_eq!(
        out.source,
        "// @ts-nocheck - Auto-generated CS2 to TypeScript\n\
import { VARS, VARBITS, ENUMS, PARAMS } from './index';\n\
\n\
// script_-1: locals(int=0, obj=0, long=0) args(int=0, obj=0, long=0)\n\
\n\
const _;\n\
\n\
// --- instruction stream ---\n"
    );
}

#[test]
fn later_var_binding_shadows_earlier_and_transmog_is_typed() {
    let t = Transpiler::new()
        .with_vars(&vec![(VarDomain::Client, 3, "first".to_string())])
        .with_vars(&vec![(VarDomain::Client, 65539, "second".to_string())]);
    let script = CompiledScript {
        name: None,
        local_count_int: 0,
        local_count_object: 0,
        local_count_long: 0,
        argument_count_int: 0,
        argument_count_object: 0,
        argument_count_long: 0,
        code: vec![
            ins(2, "push_var", Operand::VarRef(VarRef { domain: VarDomain::Client, id: 3, transmog: true })),
            ins(3, "pop_varc_int", Operand::VarRef(VarRef { domain: VarDomain::Client, id: 3, transmog: false })),
            ins(3, "pop_varc_int", Operand::VarRef(VarRef { domain: VarDomain::Client, id: 4, transmog: false })),
            ins(8, "push_constant_string", Operand::Str("a\"b\n".to_string())),
            ins(9, "push_long_constant", Operand::Long(-7)),
            ins(10, "join_string", Operand::Count(3)),
            ins(11, "define_array", Operand::Array(2)),
            ins(12, "cc_sethide", Operand::Byte(0)),
            ins(13, "branch", Operand::Branch(9)),
        ],
    };
    let out = t.transpile(&script, 1);
    assert!(out.source.contains("00000: push(VARS.get(2 * 1000000 + 3) as number /* second:transmog */);\n"));
    assert!(out.source.contains("00001: second = pop();\n"));
    assert!(out.source.contains("00002: VARS.get(2 * 1000000 + 4) = pop();\n"));
    assert!(out.source.contains("00003: push(\"a\\\"b\\n\");\n"));
    assert!(out.source.contains("00004: push(-7n);\n"));
    assert!(out.source.contains("00005: push(pop().concat(...pop_multi(3)));\n"));
    assert!(out.source.contains("00006: array_2 = [];\n"));
    assert!(out.source.contains("00007: UI.setHide(pop() as number, pop() as boolean);\n"));
    assert!(out.source.contains("00008: goto(9);\n"));
}

#[test]
fn script_names_come_from_decoded_bytes() {
    let book = OpcodeBook::from_tables(
        "push_constant_int,0\ngosub_with_params,40\nreturn,21\n",
        None,
        947,
    )
    .expect("table");
    let callee = CompiledScript {
        name: Some("bank/open".to_string()),
        local_count_int: 0,
        local_count_object: 0,
        local_count_long: 0,
        argument_count_int: 0,
        argument_count_object: 0,
        argument_count_long: 0,
        code: vec![ins(21, "return", Operand::Byte(0))],
    };
    let bytes = encode_script(&callee, &book, 947).expect("encode");
    let t = Transpiler::new().with_script_names(&vec![(12, bytes.clone()), (13, vec![1, 2])], &book, 947);
    assert_eq!(t.script_name_for(12), Some("bank/open".to_string()));
    assert_eq!(t.script_name_for(13), None);
    let caller = CompiledScript {
        name: None,
        local_count_int: 0,
        local_count_object: 0,
        local_count_long: 0,
        argument_count_int: 0,
        argument_count_object: 0,
        argument_count_long: 0,
        code: vec![ins(40, "gosub_with_params", Operand::Script(12))],
    };
    let out = t.transpile(&caller, 2);
    assert!(out.source.contains("00000: bank_open(pop());\n"));
    let from_bytes = t.transpile_from_bytes(&bytes, &book, 947, 12).expect("decode");
    assert!(from_bytes.source.contains("// script name: bank/open\n"));
    assert!(from_bytes.source.contains("00000: return(0);\n"));
    assert!(t.transpile_from_bytes(&[1, 2], &book, 947, 13).is_err());
}
