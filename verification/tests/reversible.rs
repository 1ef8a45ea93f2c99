use cs2script::transpile::ast::ScriptId;
use cs2script::transpile::reversible_format::{
    is_reversible_source, metadata_json, parse_reversible_source, render_reversible_source,
    structured_digest, ReversibleMetadata, ASM_BEGIN, ASM_END, META_PREFIX,
};
use cs2script::transpile::structured::{StructuredScript, StructuredStmt};

fn simple_script() -> StructuredScript {
    StructuredScript {
        script_id: ScriptId(1234),
        raw_name: Some("[proc,script1234]".to_string()),
        header_comments: Vec::new(),
        imports: Vec::new(),
        function_name: "script1234".to_string(),
        arguments: Vec::new(),
        locals: Vec::new(),
        arrays: Vec::new(),
        return_type: "void".to_string(),
        body: vec![StructuredStmt::Return { value: None }],
    }
}

fn simple_metadata() -> ReversibleMetadata {
    ReversibleMetadata {
        format_version: 1,
        build: 947,
        subbuild: 0,
        packed_id: 1234,
        group_id: 1234 >> 16,
        file_id: 0,
        script_id: 1234,
        export_name: "script1234".to_string(),
        raw_name: Some("[proc,script1234]".to_string()),
        editable_structured: true,
        structured_digest: structured_digest(&simple_script()),
        blocking_diagnostics: Vec::new(),
    }
}

#[test]
fn reversible_source_roundtrip_preserves_sections() {
    let source = "export function script1234(): void {\n    return;\n}\n";
    let metadata = simple_metadata();
    let wrapped = render_reversible_source(
        source,
        &metadata,
        "// @cs2 name=[proc,script1234]\n// @cs2 return",
    );
    assert!(wrapped.starts_with(META_PREFIX));
    assert!(wrapped.contains(ASM_BEGIN));
    assert!(wrapped.contains(ASM_END));

    let parsed = parse_reversible_source(&wrapped).expect("parse reversible source");
    let meta: serde_json::Value = serde_json::from_str(&parsed.metadata_json).expect("metadata json");
    assert_eq!(meta["export_name"], "script1234");
    assert!(parsed.structured_source.contains("export function script1234()"));
    assert!(parsed.asm_trailer.contains("// @cs2 return"));
}

#[test]
fn reversible_parse_gives_back_rendered_sections_exactly() {
    let metadata = simple_metadata();
    let wrapped = render_reversible_source("a\nb  \n\n", &metadata, "x\ny\n");
    assert!(is_reversible_source(&wrapped));
    let parsed = parse_reversible_source(&wrapped).expect("parse");
    assert_eq!(parsed.metadata_json, metadata_json(&metadata));
    assert_eq!(parsed.structured_source, "\na\nb\n");
    assert_eq!(parsed.asm_trailer, "x\ny");
}

#[test]
fn reversible_parse_requires_metadata_and_markers() {
    assert!(!is_reversible_source("export function f() {}\n"));
    let no_meta = format!("code\n{ASM_BEGIN}\nx\n{ASM_END}\n");
    assert_eq!(
        parse_reversible_source(&no_meta).unwrap_err().message,
        "missing reversible metadata"
    );
    let no_end = format!("{META_PREFIX}{{}}\ncode\n{ASM_BEGIN}\nx\n");
    assert_eq!(
        parse_reversible_source(&no_end).unwrap_err().message,
        "missing reversible ASM trailer markers"
    );
}

#[test]
fn structured_digest_is_sixteen_hex_digits_and_stable() {
    let a = structured_digest(&simple_script());
    let b = structured_digest(&simple_script());
    assert_eq!(a, b);
    assert_eq!(a.len(), 16);
    assert!(a.chars().all(|c| c.is_ascii_hexdigit()));
}
