use corbel::resolve::{resolve_relationships, ImportEntry, RelationshipRow, Resolution, SymbolRow};

fn sym(id: i64, file_id: i64, name: &str) -> SymbolRow {
    SymbolRow { id, file_id, name: name.to_string() }
}

fn call(id: i64, caller: i64, callee: &str) -> RelationshipRow {
    RelationshipRow { id, caller_symbol_id: caller, callee_name: callee.to_string() }
}

fn import(file_id: i64, local: &str, path: &str, kind: &str) -> ImportEntry {
    ImportEntry {
        file_id,
        local_name: local.to_string(),
        source_path: path.to_string(),
        kind: kind.to_string(),
    }
}

#[test]
fn call_to_undefined_symbol_resolves_external() {
    let symbols = vec![sym(1, 10, "a")];
    let (out, stats) = resolve_relationships(&symbols, &Vec::new(), &vec![call(100, 1, "ghost")]);
    assert_eq!(out[0].resolution, Resolution::External);
    assert_eq!(out[0].resolution.as_str(), "external");
    assert_eq!(out[0].callee_file_id, None);
    assert_eq!(stats.external, 1);
    assert_eq!(stats.unresolved, 0);
}

#[test]
fn external_and_ambiguous_are_distinguished() {
    let symbols = vec![sym(1, 10, "a"), sym(2, 20, "dup"), sym(3, 30, "dup")];
    let rels = vec![call(100, 1, "ghost"), call(101, 1, "dup")];
    let (out, stats) = resolve_relationships(&symbols, &Vec::new(), &rels);
    assert_eq!(out[0].resolution, Resolution::External);
    assert_eq!(out[1].resolution, Resolution::Unresolved);
    assert_eq!(out[1].callee_file_id, None);
    assert_eq!(stats.external, 1);
    assert_eq!(stats.unresolved, 1);
}

#[test]
fn call_from_unknown_caller_is_unresolved() {
    let (out, stats) = resolve_relationships(&vec![sym(1, 10, "b")], &Vec::new(), &vec![call(100, 99, "b")]);
    assert_eq!(out[0].resolution, Resolution::Unresolved);
    assert_eq!(stats.unresolved, 1);
    assert_eq!(stats.external, 0);
}

#[test]
fn imported_unique_definition_resolves_scoped() {
    let symbols = vec![sym(1, 10, "a"), sym(2, 20, "helper")];
    let imports = vec![import(10, "helper", "crate::util::helper", "direct")];
    let (out, stats) = resolve_relationships(&symbols, &imports, &vec![call(100, 1, "helper")]);
    assert_eq!(out[0].resolution, Resolution::Scoped);
    assert_eq!(out[0].callee_file_id, Some(20));
    assert_eq!(stats.scoped, 1);
}

#[test]
fn typescript_wildcard_reexport_is_not_treated_as_scoped_import() {
    let symbols = vec![sym(1, 10, "a"), sym(2, 20, "dup")];
    let imports = vec![import(10, "", "dup", "wildcard")];
    let (out, stats) = resolve_relationships(&symbols, &imports, &vec![call(100, 1, "dup")]);
    assert_eq!(out[0].resolution, Resolution::GlobalUnique);
    assert_eq!(out[0].callee_file_id, Some(20));
    assert_eq!(stats.global_unique, 1);
}

#[test]
fn same_file_definition_wins() {
    let symbols = vec![sym(1, 10, "a"), sym(2, 10, "b"), sym(3, 20, "b")];
    let (out, stats) = resolve_relationships(&symbols, &Vec::new(), &vec![call(100, 1, "b")]);
    assert_eq!(out[0].resolution, Resolution::SameFile);
    assert_eq!(out[0].callee_file_id, Some(10));
    assert_eq!(stats.same_file, 1);
}
