use cs2script::encode::encode_script;
use cs2script::script::{CompiledScript, Instruction, OpcodeBook, Operand};
use cs2script::transpile::ast::ScriptId;
use cs2script::transpile::names::ScriptKind;
use cs2script::transpile::scope::NameTable;
use cs2script::transpile::{build_script_catalog, ScriptCatalogBuilder};

const TABLE: &str = "push_constant_int,0\nreturn,21\n";

fn script_bytes(book: &OpcodeBook, name: Option<&str>, args: u16) -> Vec<u8> {
    let script = CompiledScript {
        name: name.map(|n| n.to_string()),
        local_count_int: 0,
        local_count_object: 0,
        local_count_long: 0,
        argument_count_int: args,
        argument_count_object: 0,
        argument_count_long: 0,
        code: vec![
            Instruction { opcode: 0, command: "push_constant_int".to_string(), operand: Operand::Int(5) },
            Instruction { opcode: 21, command: "return".to_string(), operand: Operand::Byte(0) },
        ],
    };
    encode_script(&script, book, 947).expect("encode")
}

fn packed(group: u32, file: u32) -> u32 {
    (group << 16) | file
}

#[test]
fn shared_names_take_kind_suffixes_with_a_warning() {
    let book = OpcodeBook::from_tables(TABLE, None, 947).expect("table");
    let groups = NameTable::new();
    let mut builder = ScriptCatalogBuilder::new(&groups, &book, 947);
    builder.add_script(packed(10, 0), &script_bytes(&book, Some("[clientscript,shop_open]"), 1));
    builder.add_script(packed(11, 0), &script_bytes(&book, Some("[proc,shop_open]"), 0));
    builder.add_script(packed(12, 0), &script_bytes(&book, Some("[proc,other]"), 0));
    builder.add_script(packed(13, 0), &[1, 2, 3]);
    let catalog = builder.build();
    let a = catalog.get(ScriptId(packed(10, 0) as i32)).expect("first");
    assert_eq!(a.export_name, "shop_open_clientscript");
    assert_eq!(a.module_name, "shop_open_clientscript");
    assert_eq!(a.kind, ScriptKind::ClientScript);
    assert_eq!(a.short_name, "shop_open");
    assert_eq!(a.signature.arg_count_int, 1);
    assert_eq!(a.signature.return_type, "number");
    let b = catalog.get(ScriptId(packed(11, 0) as i32)).expect("second");
    assert_eq!(b.export_name, "shop_open_proc");
    assert_eq!(b.group_id.0, 11);
    let c = catalog.get(ScriptId(packed(12, 0) as i32)).expect("third");
    assert_eq!(c.export_name, "other");
    assert!(catalog.get(ScriptId(packed(13, 0) as i32)).is_none());
    assert_eq!(catalog.diagnostics.len(), 1);
    assert_eq!(
        catalog.diagnostics[0].message,
        format!(
            "ambiguous script export name 'shop_open' for packed ids [{}, {}]; applying disambiguation",
            packed(10, 0),
            packed(11, 0)
        )
    );
}

#[test]
fn names_that_still_collide_get_the_packed_id() {
    let book = OpcodeBook::from_tables(TABLE, None, 947).expect("table");
    let groups = NameTable::new();
    let mut builder = ScriptCatalogBuilder::new(&groups, &book, 947).without_return_types();
    builder.add_script(packed(3, 1), &script_bytes(&book, Some("[proc,dup]"), 0));
    builder.add_script(packed(4, 2), &script_bytes(&book, Some("[proc,dup]"), 0));
    let catalog = builder.build();
    let a = catalog.get(ScriptId(packed(3, 1) as i32)).expect("first");
    assert_eq!(a.export_name, format!("dup_proc_{}", packed(3, 1)));
    assert_eq!(a.signature.return_type, "unknown");
    assert_eq!(a.file_id, 1);
    let b = catalog.get(ScriptId(packed(4, 2) as i32)).expect("second");
    assert_eq!(b.export_name, format!("dup_proc_{}", packed(4, 2)));
    assert_eq!(catalog.diagnostics.len(), 3);
    assert_eq!(
        catalog.diagnostics[1].message,
        format!("ambiguous disambiguated export 'dup_proc' still collided; appending packed id {}", packed(3, 1))
    );
}

#[test]
fn untagged_scripts_fall_back_to_group_names() {
    let book = OpcodeBook::from_tables(TABLE, None, 947).expect("table");
    let mut groups = NameTable::new();
    groups.insert(7, "bank_ui".to_string());
    let scripts = vec![
        (packed(7, 0), script_bytes(&book, None, 0)),
        (packed(8, 0), script_bytes(&book, Some("plain"), 0)),
    ];
    let catalog = build_script_catalog(&scripts, &groups, &book, 947);
    assert_eq!(catalog.get(ScriptId(packed(7, 0) as i32)).unwrap().export_name, "bank_ui");
    assert_eq!(catalog.get(ScriptId(packed(8, 0) as i32)).unwrap().export_name, "script8");
    assert_eq!(catalog.get(ScriptId(packed(8, 0) as i32)).unwrap().raw_name.as_deref(), Some("plain"));
    assert!(catalog.diagnostics.is_empty());
}
