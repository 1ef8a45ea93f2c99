use cs2script::transpile::ast::OperandNode;
use cs2script::transpile::catalog::{ScriptCatalog, SignatureMap};
use cs2script::transpile::expr_recovery::stack_effect;
use cs2script::transpile::effects::{
    int_effect, manual_opcode_stack_effect, opcode_stack_effect, opcode_stack_effect_for_build,
    opcode_stack_effect_from_tables, parse_command_signature_effect, parse_stack_effect_line,
    EffectTables, OpcodeStackEffect,
};

fn effect(counts: [usize; 6]) -> OpcodeStackEffect {
    OpcodeStackEffect {
        int_pops: counts[0],
        obj_pops: counts[1],
        long_pops: counts[2],
        int_pushes: counts[3],
        obj_pushes: counts[4],
        long_pushes: counts[5],
    }
}

fn chars(s: &str) -> Vec<char> {
    s.chars().collect()
}

#[test]
fn stack_effect_row_parses_six_counts() {
    let (name, e) = parse_stack_effect_line(&chars("  struct_param 2 0 0 1 0 0  ")).unwrap();
    assert_eq!(name.iter().collect::<String>(), "struct_param");
    assert_eq!(e, effect([2, 0, 0, 1, 0, 0]));
}

#[test]
fn stack_effect_row_skips_words_that_are_not_counts() {
    let (_, e) = parse_stack_effect_line(&chars("x 1 two 3 4 5 6 7")).unwrap();
    assert_eq!(e, effect([1, 3, 4, 5, 6, 7]));
}

#[test]
fn stack_effect_rows_rejected() {
    assert!(parse_stack_effect_line(&chars("")).is_none());
    assert!(parse_stack_effect_line(&chars("   ")).is_none());
    assert!(parse_stack_effect_line(&chars("# comment 1 2 3 4 5 6")).is_none());
    assert!(parse_stack_effect_line(&chars("short 1 2 3")).is_none());
    assert!(parse_stack_effect_line(&chars("long 1 2 3 4 5 6 7")).is_none());
}

#[test]
fn command_signature_counts_types() {
    let (name, e) =
        parse_command_signature_effect("[command,steam_setachievement](int $a, int $b, string $c)(int $ok)")
            .unwrap();
    assert_eq!(name, "steam_setachievement");
    assert_eq!(e, effect([2, 1, 0, 1, 0, 0]));

    let (_, e) = parse_command_signature_effect("[command,int_to_long](int $i)(long $l)").unwrap();
    assert_eq!(e, effect([1, 0, 0, 0, 0, 1]));
}

#[test]
fn command_signature_without_arguments_is_empty_effect() {
    let (name, e) = parse_command_signature_effect("  [command,noop]  ").unwrap();
    assert_eq!(name, "noop");
    assert_eq!(e, effect([0; 6]));
}

#[test]
fn command_signature_lines_rejected() {
    assert!(parse_command_signature_effect("[proc,foo](int $a)").is_none());
    assert!(parse_command_signature_effect("[command,foo](int $a) todo signature").is_none());
    assert!(parse_command_signature_effect("[command,foo](hook $h)").is_none());
    assert!(parse_command_signature_effect("[command,foo]oops").is_none());
    assert!(parse_command_signature_effect("[command,foo").is_none());
}

#[test]
fn manual_table_entries() {
    assert_eq!(manual_opcode_stack_effect("store_lookup"), Some(effect([1, 1, 0, 10, 0, 3])));
    assert_eq!(manual_opcode_stack_effect("setgender"), Some(int_effect(1, 0)));
    assert_eq!(manual_opcode_stack_effect("no_such_command"), None);
    assert_eq!(opcode_stack_effect("cc_clearscripthooks", &EffectTables::new()), Some(int_effect(0, 0)));
}

#[test]
fn build_specific_effects_switch_at_their_build() {
    assert_eq!(opcode_stack_effect_for_build("tostring", 919, &EffectTables::new()), Some(effect([2, 0, 0, 0, 1, 0])));
    assert_eq!(opcode_stack_effect_for_build("tostring_long", 936, &EffectTables::new()), Some(effect([1, 0, 1, 0, 1, 0])));
    assert_eq!(opcode_stack_effect_for_build("lobby_enterlobby_social_network", 947, &EffectTables::new()), Some(int_effect(4, 0)));
    assert_eq!(opcode_stack_effect_for_build("activeclanchannel_find_affined", 937, &EffectTables::new()), Some(int_effect(0, 1)));
    assert_eq!(opcode_stack_effect_for_build("cam2_setpositionentity_player", 918, &EffectTables::new()), Some(int_effect(7, 0)));
}

#[test]
fn tables_prefer_manual_then_last_row_then_first_signature() {
    let rows = "# extracted\nalpha 1 0 0 0 0 0\nalpha 2 0 0 0 0 0\nsetgender 9 9 9 9 9 9\n";
    let sigs = vec![
        "[command,alpha](string $s)".to_string(),
        "[command,beta](long $l)(int $r)".to_string(),
        "[command,beta](int $i)".to_string(),
    ];
    assert_eq!(opcode_stack_effect_from_tables("setgender", rows, &sigs), Some(int_effect(1, 0)));
    assert_eq!(opcode_stack_effect_from_tables("alpha", rows, &sigs), Some(int_effect(2, 0)));
    assert_eq!(opcode_stack_effect_from_tables("beta", rows, &sigs), Some(effect([0, 0, 1, 1, 0, 0])));
    assert_eq!(opcode_stack_effect_from_tables("gamma", rows, &sigs), None);
}

fn total_effect(cmd: &str, operand: &OperandNode, build: u32) -> (usize, usize) {
    let c: Vec<char> = cmd.chars().collect();
    let e = stack_effect(
        &c,
        cmd,
        operand,
        build,
        &ScriptCatalog::default(),
        &SignatureMap::new(),
        &EffectTables::new(),
    );
    (e.pops, e.pushes)
}

fn sample_tables() -> EffectTables {
    let rows = "# extracted\nint_to_long 1 0 0 0 0 1\nalpha 1 0 0 0 0 0\nalpha 2 0 0 0 0 0\n".to_string();
    let sigs = vec![
        "[command,cc_input_setemptytext](component $c, string $s, int $i)".to_string(),
        "[command,beta](long $l)(int $r)".to_string(),
    ];
    EffectTables::from_text(rows, sigs).expect("small counts fit")
}

#[test]
fn default_lookup_reads_the_extracted_tables() {
    let t = sample_tables();
    assert_eq!(opcode_stack_effect("int_to_long", &t), Some(effect([1, 0, 0, 0, 0, 1])));
    assert_eq!(opcode_stack_effect("alpha", &t), Some(int_effect(2, 0)));
    assert_eq!(opcode_stack_effect("cc_input_setemptytext", &t), Some(effect([2, 1, 0, 0, 0, 0])));
    assert_eq!(opcode_stack_effect("beta", &t), Some(effect([0, 0, 1, 1, 0, 0])));
    assert_eq!(opcode_stack_effect("setgender", &t), Some(int_effect(1, 0)));
    assert_eq!(opcode_stack_effect("int_to_long", &EffectTables::new()), None);
    assert_eq!(opcode_stack_effect_for_build("int_to_long", 910, &t), Some(effect([1, 0, 0, 0, 0, 1])));
    assert_eq!(opcode_stack_effect_for_build("tostring", 947, &t), Some(effect([2, 0, 0, 0, 1, 0])));
}

#[test]
fn tables_with_oversized_counts_are_refused() {
    assert!(EffectTables::from_text("huge 70000 0 0 0 0 0\n".to_string(), Vec::new()).is_none());
    assert!(EffectTables::from_text("small 7 0 0 0 0 0\n".to_string(), Vec::new()).is_some());
}

#[test]
fn stack_effect_totals_come_from_the_tables() {
    let t = sample_tables();
    let c: Vec<char> = "int_to_long".chars().collect();
    let e = stack_effect(&c, "int_to_long", &OperandNode::Int(0), 947, &ScriptCatalog::default(), &SignatureMap::new(), &t);
    assert_eq!((e.pops, e.pushes), (1, 1));
}

#[test]
fn stack_effect_special_cases_tables_and_categories() {
    let none = OperandNode::Int(0);
    assert_eq!(total_effect("join_string", &OperandNode::Count(4), 947), (4, 1));
    assert_eq!(total_effect("join_string", &none, 947), (0, 1));
    assert_eq!(total_effect("gosub_with_params", &none, 947), (0, 0));
    assert_eq!(total_effect("db_find", &none, 910), (2, 0));
    assert_eq!(total_effect("db_find", &none, 947), (3, 0));
    assert_eq!(total_effect("tostring", &none, 947), (2, 1));
    assert_eq!(total_effect("fullscreen_getmode", &none, 947), (1, 2));
    assert_eq!(total_effect("store_lookup", &none, 947), (2, 13));
    assert_eq!(total_effect("push_something_new", &none, 947), (0, 1));
    assert_eq!(total_effect("if_something_new", &none, 947), (1, 0));
    assert_eq!(total_effect("something_new", &none, 947), (0, 0));
}
