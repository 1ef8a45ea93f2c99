use cs2script::transpile::names::{
    extract_script_name_suffix, parse_script_name_tag, sanitize_export_name, sanitize_ts_ident,
    script_function_name, ScriptKind,
};
use cs2script::transpile::ast::ScriptId;

#[test]
fn sanitize_ts_ident_normalizes_invalid_identifiers() {
    assert_eq!("hello_world", sanitize_ts_ident("hello/world"));
    assert_eq!("_123abc", sanitize_ts_ident("123abc"));
    assert_eq!("unnamed", sanitize_ts_ident(""));
    assert_eq!("foo_bar", sanitize_ts_ident("foo bar"));
}

#[test]
fn extract_script_name_suffix_parses_tag_syntax() {
    assert_eq!(
        "bank_build_init",
        extract_script_name_suffix("[clientscript,bank_build_init]")
    );
    assert_eq!(
        "script621",
        extract_script_name_suffix("[proc,script621](int $int0)")
    );
    assert_eq!("plain_name", extract_script_name_suffix("plain_name"));
}

#[test]
fn sanitize_ident() {
    assert_eq!("hello_world", sanitize_ts_ident("hello/world"));
    assert_eq!("_123abc", sanitize_ts_ident("123abc"));
    assert_eq!("unnamed", sanitize_ts_ident(""));
    assert_eq!("foo_bar", sanitize_ts_ident("foo bar"));
}

#[test]
fn parse_script_name_tag_preserves_kind() {
    let parsed = parse_script_name_tag("[proc,stockmarket_choosecancel]").expect("tag");
    assert_eq!(ScriptKind::Proc, parsed.kind);
    assert_eq!("stockmarket_choosecancel", parsed.short_name);
}

#[test]
fn sanitize_export_name_emits_valid_identifier() {
    assert_eq!("foo_bar", sanitize_export_name("foo-bar"));
    assert_eq!("_123abc", sanitize_export_name("123abc"));
}

#[test]
fn parse_script_name_tag_rejects_untagged_names() {
    assert!(parse_script_name_tag("plain_name").is_none());
    let parsed = parse_script_name_tag("[clientscript,abc]").expect("tag");
    assert_eq!(ScriptKind::ClientScript, parsed.kind);
}

#[test]
fn script_function_name_uses_name_suffix_or_id() {
    assert_eq!(
        "bank_build_init",
        script_function_name(ScriptId(5), Some("[clientscript,bank_build_init]"))
    );
    assert!(script_function_name(ScriptId(5), None).contains('5'));
}
