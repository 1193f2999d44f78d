use bevy_kissing_godot::class_data::{
    generate_cases, generate_class_data, generate_inherit_map, ApiClassEntry, ApiDumpError,
    ClassChain, ClassDataError, CodegenError,
};
use bevy_kissing_godot::codegen::dispatch_source;
use bevy_kissing_godot::hash_script::{class_name_hash_script, parse_class_name_hashes, HashOutputError};
use bevy_kissing_godot::special_cases::BuildTarget;

fn class(name: &str, inherits: Option<&str>) -> ApiClassEntry {
    ApiClassEntry::Class {
        name: Some(name.to_string()),
        inherits: inherits.map(|s| s.to_string()),
    }
}

fn linux() -> BuildTarget {
    BuildTarget { os: "linux".to_string(), experimental_api: false, api_before_uniform_set_cache: false }
}

fn chains(dump: Vec<ApiClassEntry>) -> Vec<ClassChain> {
    let m = generate_inherit_map(&dump).unwrap();
    generate_class_data(&m, &linux()).unwrap()
}

#[test]
fn scenario_leaf_chain() {
    let c = chains(vec![class("Base", None), class("Mid", Some("Base")), class("Leaf", Some("Mid"))]);
    let leaf = c.iter().find(|c| c.name == "Leaf").unwrap();
    let mut full = vec![leaf.name.clone()];
    full.extend(leaf.inherits.iter().cloned());
    assert_eq!(full, vec!["Leaf", "Mid", "Base"]);
    let base = c.iter().find(|c| c.name == "Base").unwrap();
    assert!(base.inherits.is_empty());
}

#[test]
fn dispatch_entries_span_class_to_root() {
    let c = chains(vec![class("Base", None), class("Mid", Some("Base")), class("Leaf", Some("Mid"))]);
    let entries = generate_cases(&c, &vec![11, 22, 33]).unwrap();
    assert_eq!(entries.len(), 3);
    assert_eq!(entries[0].hash, 11);
    assert_eq!(entries[0].components, vec!["Base"]);
    assert_eq!(entries[2].hash, 33);
    assert_eq!(entries[2].components, vec!["Leaf", "Mid", "Base"]);
    assert_eq!(entries[2].components.len(), c[2].inherits.len() + 1);
}

#[test]
fn components_use_rust_type_names() {
    let c = chains(vec![class("Object", None), class("GDScriptX", Some("Object")), class("JSONRPC", Some("Object"))]);
    let entries = generate_cases(&c, &vec![1, 2, 3]).unwrap();
    assert_eq!(entries[1].components, vec!["GDScriptX", "Object"]);
    assert_eq!(entries[2].components, vec!["JsonRpc", "Object"]);
}

#[test]
fn class_list_errors() {
    let dump = vec![class("A", None), ApiClassEntry::Class { name: None, inherits: None }];
    assert_eq!(generate_inherit_map(&dump).err(), Some(ApiDumpError::MissingName { index: 1 }));
}

#[test]
fn class_list_skips_other_entries_and_merges_names() {
    let dump = vec![class("A", None), ApiClassEntry::Other, class("B", Some("A")), class("A", Some("B0"))];
    let m = generate_inherit_map(&dump).unwrap();
    assert_eq!(m.len(), 2);
    assert_eq!(m[0].name, "A");
    assert_eq!(m[0].inherits.as_deref(), Some("B0"));
    assert_eq!(m[1].name, "B");
}

#[test]
fn unknown_parent_ends_chain() {
    let c = chains(vec![class("A", Some("Ghost"))]);
    assert_eq!(c[0].inherits, vec!["Ghost"]);
}

#[test]
fn cycle_is_reported() {
    let m = generate_inherit_map(&vec![class("A", Some("B")), class("B", Some("A"))]).unwrap();
    assert_eq!(
        generate_class_data(&m, &linux()).err(),
        Some(ClassDataError::CyclicHierarchy { class: "A".to_string() })
    );
}

#[test]
fn deleted_classes_are_left_out() {
    let c = chains(vec![class("Object", None), class("Thread", Some("Object")), class("GraphNode", Some("Object"))]);
    let names: Vec<&str> = c.iter().map(|c| c.name.as_str()).collect();
    assert_eq!(names, vec!["Object"]);
}

#[test]
fn hash_count_must_match() {
    let c = chains(vec![class("A", None), class("B", None)]);
    assert_eq!(
        generate_cases(&c, &vec![1]).err(),
        Some(CodegenError::HashCountMismatch { classes: 2, hashes: 1 })
    );
}

#[test]
fn invalid_class_name_is_reported() {
    let c = chains(vec![class("A", None), class("2B", Some("A"))]);
    assert_eq!(
        generate_cases(&c, &vec![1, 2]).err(),
        Some(CodegenError::InvalidClassName { name: "2B".to_string() })
    );
}

#[test]
fn hashes_are_read_after_marker() {
    let out = "Godot Engine v4\n\u{1F48B},12,345,6789\n";
    assert_eq!(parse_class_name_hashes(out), Ok(vec![12, 345, 6789]));
    assert_eq!(parse_class_name_hashes("\u{1F48B},+5"), Ok(vec![5]));
}

#[test]
fn hash_output_errors() {
    assert_eq!(parse_class_name_hashes("1,2,3"), Err(HashOutputError::MissingMarker));
    assert_eq!(
        parse_class_name_hashes("\u{1F48B},1,x,3"),
        Err(HashOutputError::NotANumber { index: 1 })
    );
    assert_eq!(
        parse_class_name_hashes("\u{1F48B},18446744073709551616"),
        Err(HashOutputError::NotANumber { index: 0 })
    );
    assert_eq!(
        parse_class_name_hashes("\u{1F48B},18446744073709551615"),
        Ok(vec![u64::MAX])
    );
}

#[test]
fn hash_script_text() {
    let s = class_name_hash_script(&vec!["Node".to_string(), "Node2D".to_string()]);
    assert_eq!(
        s,
        "extends SceneTree\n\nfunc _init():\n\tvar ids = [\"\u{1F48B}\"];\n\tids.push_back(StringName(\"Node\").hash());\n\tids.push_back(StringName(\"Node2D\").hash());\n\tprint(\",\".join(ids));\n\tquit();"
    );
}

#[test]
fn dispatch_source_text() {
    let c = chains(vec![class("Object", None), class("Node", Some("Object"))]);
    let entries = generate_cases(&c, &vec![7, 1234]).unwrap();
    let src = dispatch_source(&entries);
    assert!(src.contains("\n\t\t7 => { world.spawn(crate::GodotNode::<godot::classes::Object>::default()).into() }"));
    assert!(src.contains("\n\t\t1234 => { world.spawn((crate::GodotNode::<godot::classes::Node>::default(), crate::GodotNode::<godot::classes::Object>::default())).into() }"));
    assert!(src.starts_with("fn add_components_for_node<'a>"));
    assert!(src.ends_with("\t\t_ => crate::add_components_for_custom_node(world, node),\n\t}\n}\n"));
}
