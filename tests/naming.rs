use bevy_kissing_godot::decimal::write_decimal;
use bevy_kissing_godot::field::KissingComponentField;
use bevy_kissing_godot::naming::{is_valid_ident, starts_with_invalid_char, to_pascal_case, to_snake_special_case};
use bevy_kissing_godot::special_cases::{is_class_experimental, is_godot_type_deleted, BuildTarget};
use bevy_kissing_godot::text::{replace_all, str_eq};

fn target(os: &str, experimental: bool, before: bool) -> BuildTarget {
    BuildTarget { os: os.to_string(), experimental_api: experimental, api_before_uniform_set_cache: before }
}

#[test]
fn pascal_case_conversion() {
    assert_eq!(to_pascal_case("node_2d"), "Node2d");
    assert_eq!(to_pascal_case("Node3D"), "Node3D");
    assert_eq!(to_pascal_case("GDScriptNativeClass"), "GDScriptNativeClass");
    assert_eq!(to_pascal_case("JSONRPC"), "JsonRpc");
    assert_eq!(to_pascal_case("OpenXRIPBinding"), "OpenXrIpBinding");
    assert_eq!(to_pascal_case("GDExtensionManager"), "GDExtensionManager");
}

#[test]
fn snake_special_cases() {
    assert_eq!(to_snake_special_case("JSONRPC"), Some("json_rpc"));
    assert_eq!(to_snake_special_case("Node"), None);
}

#[test]
fn identifiers() {
    assert!(is_valid_ident("Node_2D"));
    assert!(!is_valid_ident("2D"));
    assert!(!is_valid_ident("Node-2D"));
    assert!(is_valid_ident(""));
    assert!(starts_with_invalid_char("9a"));
    assert!(!starts_with_invalid_char(""));
}

#[test]
fn experimental_classes() {
    assert!(is_class_experimental("GraphNode"));
    assert!(is_class_experimental("XRFaceTracker"));
    assert!(!is_class_experimental("Node"));
}

#[test]
fn deleted_types() {
    let linux = target("linux", false, false);
    assert!(is_godot_type_deleted("Thread", &linux));
    assert!(is_godot_type_deleted("NavigationMesh", &linux));
    assert!(!is_godot_type_deleted("NavigationMesh", &target("linux", true, false)));
    assert!(is_godot_type_deleted("JavaClass", &linux));
    assert!(!is_godot_type_deleted("JavaClass", &target("android", false, false)));
    assert!(is_godot_type_deleted("JavaScriptBridge", &linux));
    assert!(!is_godot_type_deleted("JavaScriptBridge", &target("emscripten", false, false)));
    assert!(is_godot_type_deleted("OpenXRInterface", &target("ios", false, false)));
    assert!(!is_godot_type_deleted("OpenXRInterface", &linux));
    assert!(is_godot_type_deleted("UniformSetCacheRD", &target("linux", false, true)));
    assert!(!is_godot_type_deleted("UniformSetCacheRD", &linux));
    assert!(!is_godot_type_deleted("Node", &linux));
}

#[test]
fn text_helpers() {
    assert!(str_eq("héllo", "héllo"));
    assert!(!str_eq("abc", "abd"));
    assert_eq!(replace_all("aaa", "aa", "b"), "ba");
    assert_eq!(replace_all("GdScriptGdScript", "GdScript", "GDScript"), "GDScriptGDScript");
    let mut s = "n=".to_string();
    write_decimal(&mut s, 9041);
    assert_eq!(s, "n=9041");
    let mut z = String::new();
    write_decimal(&mut z, 0);
    assert_eq!(z, "0");
}

#[test]
fn field_values_from_editor_text() {
    assert_eq!(u8::parse_from_editor_input(&"200".to_string()), 200);
    assert_eq!(u8::parse_from_editor_input(&"300".to_string()), 0);
    assert_eq!(u8::parse_from_editor_input(&"-1".to_string()), 0);
    assert_eq!(i8::parse_from_editor_input(&"-128".to_string()), -128);
    assert_eq!(i32::parse_from_editor_input(&"+42".to_string()), 42);
    assert_eq!(i64::parse_from_editor_input(&"abc".to_string()), 0);
    assert_eq!(u64::parse_from_editor_input(&"18446744073709551615".to_string()), u64::MAX);
    assert_eq!(i64::parse_from_editor_input(&"-9223372036854775808".to_string()), i64::MIN);
    assert_eq!(usize::parse_from_editor_input(&"".to_string()), 0);
    assert_eq!(String::parse_from_editor_input(&"text".to_string()), "text");
}
