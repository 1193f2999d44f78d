use bevy_kissing_godot::class_data::DispatchEntry;
use bevy_kissing_godot::editor_components::{
    convert_component_data_variant_to_rust, convert_dictionary_to_string_string_map, ComponentStep,
    KissingComponent, KissingComponentData, KissingComponentRegistry, MetaValue, MetadataError,
    RegisterComponentError,
};
use bevy_kissing_godot::node_dispatch::{dispatch_node, CustomNodeRegistry, KissingNode, NodeDispatch, RegisterNodeError};

fn text(s: &str) -> MetaValue {
    MetaValue::Text(s.to_string())
}

fn entry(name: Option<MetaValue>, data: Vec<(MetaValue, MetaValue)>) -> MetaValue {
    let mut d = vec![(text("data"), MetaValue::Dictionary(data))];
    if let Some(n) = name {
        d.push((text("name"), n));
    }
    MetaValue::Dictionary(d)
}

fn registry() -> KissingComponentRegistry<u32> {
    let mut r = KissingComponentRegistry::new();
    for (i, name) in ["Health", "Speed"].iter().enumerate() {
        let data = KissingComponentData { name: name.to_string(), docs: String::new(), fields: vec![] };
        assert_eq!(r.register(KissingComponent::new(data, i as u32)), Ok(()));
    }
    r
}

#[test]
fn malformed_second_entry_drops_whole_list() {
    let meta = MetaValue::Array(vec![
        entry(Some(text("Health")), vec![(text("hp"), text("10"))]),
        entry(None, vec![]),
    ]);
    assert_eq!(convert_component_data_variant_to_rust(&meta).err(), Some(MetadataError::EntryLacksName));
    assert_eq!(registry().apply_kissing_components(&Some(meta)).err(), Some(MetadataError::EntryLacksName));
}

#[test]
fn metadata_errors() {
    assert_eq!(convert_component_data_variant_to_rust(&text("x")).err(), Some(MetadataError::NotArray));
    assert_eq!(
        convert_component_data_variant_to_rust(&MetaValue::Array(vec![MetaValue::Other])).err(),
        Some(MetadataError::EntryNotDictionary)
    );
    assert_eq!(
        convert_component_data_variant_to_rust(&MetaValue::Array(vec![entry(Some(MetaValue::Other), vec![])])).err(),
        Some(MetadataError::EntryNameInvalid)
    );
    assert_eq!(MetadataError::NotArray.message(), "not an array");
}

#[test]
fn metadata_is_read_in_order() {
    let meta = MetaValue::Array(vec![
        entry(Some(MetaValue::Name("Speed".to_string())), vec![(text("v"), text("3")), (MetaValue::Other, text("x"))]),
        MetaValue::Dictionary(vec![(text("name"), text("Health")), (text("data"), text("not a dict"))]),
    ]);
    let parsed = convert_component_data_variant_to_rust(&meta).unwrap();
    assert_eq!(parsed.len(), 2);
    assert_eq!(parsed[0].0, "Speed");
    assert_eq!(parsed[0].1, vec![("v".to_string(), "3".to_string())]);
    assert_eq!(parsed[1].0, "Health");
    assert!(parsed[1].1.is_empty());
}

#[test]
fn later_field_wins() {
    let d = vec![(text("a"), text("1")), (text("b"), text("2")), (text("a"), MetaValue::Name("3".to_string()))];
    assert_eq!(
        convert_dictionary_to_string_string_map(&d),
        vec![("a".to_string(), "3".to_string()), ("b".to_string(), "2".to_string())]
    );
}

#[test]
fn apply_plans_known_and_unknown_components() {
    let r = registry();
    assert_eq!(r.apply_kissing_components(&None).unwrap().len(), 0);
    let meta = MetaValue::Array(vec![entry(Some(text("Ghost")), vec![]), entry(Some(text("Speed")), vec![(text("v"), text("9"))])]);
    let steps = r.apply_kissing_components(&Some(meta)).unwrap();
    assert_eq!(steps.len(), 2);
    match &steps[0] {
        ComponentStep::Unknown { name } => assert_eq!(name, "Ghost"),
        _ => panic!("expected an unknown component"),
    }
    match &steps[1] {
        ComponentStep::Attach { component, fields } => {
            assert_eq!(*component, 1);
            assert_eq!(*r.get(*component).get_add_component_from_editor_fields(), 1);
            assert_eq!(fields, &vec![("v".to_string(), "9".to_string())]);
        }
        _ => panic!("expected an attach step"),
    }
}

#[test]
fn duplicate_component_name_is_refused() {
    let mut r = registry();
    let data = KissingComponentData { name: "Speed".to_string(), docs: String::new(), fields: vec![] };
    assert_eq!(r.register(KissingComponent::new(data, 5)), Err(RegisterComponentError::DuplicateName));
    assert_eq!(r.len(), 2);
    assert_eq!(r.get(0).get_data().name, "Health");
}

fn table() -> Vec<DispatchEntry> {
    vec![
        DispatchEntry { hash: 5, components: vec!["Node".to_string()] },
        DispatchEntry { hash: 9, components: vec!["Node2D".to_string(), "Node".to_string()] },
    ]
}

#[test]
fn unknown_class_gets_no_entity_and_one_warning() {
    let mut custom: CustomNodeRegistry<u8> = CustomNodeRegistry::new();
    custom.register(KissingNode::new("Player".to_string(), 77, 1)).unwrap();
    let d = dispatch_node(&table(), &custom, 1000);
    assert_eq!(d, NodeDispatch::Unmatched);
    let w = d.warnings("EditorHelper");
    assert_eq!(w, vec!["Could not set up Node marker components for `get_class` returning \"EditorHelper\"".to_string()]);
}

#[test]
fn dispatch_prefers_table_then_custom() {
    let mut custom: CustomNodeRegistry<u8> = CustomNodeRegistry::new();
    custom.register(KissingNode::new("Player".to_string(), 77, 1)).unwrap();
    custom.register(KissingNode::new("Enemy".to_string(), 9, 2)).unwrap();
    assert_eq!(dispatch_node(&table(), &custom, 9), NodeDispatch::Builtin { entry: 1 });
    assert_eq!(dispatch_node(&table(), &custom, 77), NodeDispatch::Custom { node: 0 });
    assert!(dispatch_node(&table(), &custom, 9).warnings("Node2D").is_empty());
    assert_eq!(custom.add_components_for_kissing_node(9), Some(&2));
}

#[test]
fn duplicate_custom_node_hash_is_refused() {
    let mut custom: CustomNodeRegistry<u8> = CustomNodeRegistry::new();
    custom.register(KissingNode::new("A".to_string(), 3, 1)).unwrap();
    assert_eq!(
        custom.register(KissingNode::new("B".to_string(), 3, 2)),
        Err(RegisterNodeError::DuplicateNameHash { name_hash: 3 })
    );
    assert_eq!(custom.add_components_for_kissing_node(3), Some(&1));
}
