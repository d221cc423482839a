use bevy_ecs_tiled::properties::export::{type_to_field, ExportConversionError, TypeExportRegistry};
use bevy_ecs_tiled::properties::import::{FieldType, TypeData, UseAs};
use bevy_ecs_tiled::properties::reflect::{
    NamedField, TypeInfo, TypeRegistration, TypeRegistry, UnnamedField, VariantInfo,
};

fn plain(path: &str, info: TypeInfo) -> TypeRegistration {
    TypeRegistration {
        type_path: path.to_string(),
        info,
        is_component: false,
        is_bundle: false,
        is_resource: false,
        default_value: None,
    }
}

fn component(path: &str, info: TypeInfo) -> TypeRegistration {
    TypeRegistration { is_component: true, ..plain(path, info) }
}

fn named(name: &str, path: &str) -> NamedField {
    NamedField { name: name.to_string(), type_path: path.to_string() }
}

#[test]
fn member_types_of_fields() {
    let field = |path: &str, info: TypeInfo| type_to_field(&plain(path, info));
    assert_eq!(field("my::List", TypeInfo::List { item: "u8".to_string() }), Err(ExportConversionError::ListUnsupported));
    assert_eq!(
        field("my::Map", TypeInfo::Dictionary { key: "u8".to_string(), value: "u8".to_string() }),
        Err(ExportConversionError::MapUnsupported)
    );
    assert_eq!(
        field("my::Opaque", TypeInfo::Opaque),
        Err(ExportConversionError::UnsupportedValue("my::Opaque".to_string()))
    );
    assert_eq!(field("bool", TypeInfo::Opaque), Ok((FieldType::Bool, None)));
    assert_eq!(field("f64", TypeInfo::Opaque), Ok((FieldType::Float, None)));
    assert_eq!(field("u64", TypeInfo::Opaque), Ok((FieldType::Int, None)));
    assert_eq!(field("isize", TypeInfo::Opaque), Ok((FieldType::Int, None)));
    assert_eq!(field("bevy_ecs::entity::Entity", TypeInfo::Opaque), Ok((FieldType::Object, None)));
    assert_eq!(field("char", TypeInfo::Opaque), Ok((FieldType::String, None)));
    assert_eq!(field("bevy_color::color::Color", TypeInfo::Opaque), Ok((FieldType::Color, None)));
    assert_eq!(field("std::path::PathBuf", TypeInfo::Opaque), Ok((FieldType::File, None)));
    assert_eq!(field("bevy_asset::handle::Handle<bevy_image::image::Image>", TypeInfo::Opaque), Ok((FieldType::File, None)));
    assert_eq!(
        field("my::Unit", TypeInfo::Enum(vec![VariantInfo::Unit { name: "A".to_string() }])),
        Ok((FieldType::String, Some("my::Unit".to_string())))
    );
    assert_eq!(field("my::Struct", TypeInfo::Struct(vec![])), Ok((FieldType::Class, Some("my::Struct".to_string()))));
}

#[test]
fn unsupported_fields_keep_a_type_out() {
    let registry = TypeRegistry {
        types: vec![
            component("my::WithList", TypeInfo::Struct(vec![named("items", "my::List")])),
            plain("my::List", TypeInfo::List { item: "u8".to_string() }),
            component("my::Set", TypeInfo::SetOf { value: "u8".to_string() }),
            component("my::Ok", TypeInfo::Struct(vec![named("n", "u8")])),
            plain("u8", TypeInfo::Opaque),
        ],
    };
    let exports = TypeExportRegistry::from_registry(&registry).unwrap();
    assert!(exports.get("my::WithList").is_none());
    assert!(exports.get("my::Set").is_none());
    assert!(exports.get("my::Ok").is_some());
}

#[test]
fn types_depending_on_unsupported_types_are_removed() {
    let registry = TypeRegistry {
        types: vec![
            component("my::Outer", TypeInfo::Struct(vec![named("inner", "my::Inner")])),
            plain("my::Inner", TypeInfo::TupleStruct(vec![UnnamedField { type_path: "my::List".to_string() }])),
            plain("my::List", TypeInfo::List { item: "u8".to_string() }),
            plain("u8", TypeInfo::Opaque),
        ],
    };
    let exports = TypeExportRegistry::from_registry(&registry).unwrap();
    assert!(!exports.contains_key("my::Outer"));
    assert!(!exports.contains_key("my::Inner"));
}

#[test]
fn removal_takes_dependents_along() {
    let registry = TypeRegistry {
        types: vec![
            component("my::A", TypeInfo::Struct(vec![named("b", "my::B")])),
            component("my::B", TypeInfo::Struct(vec![named("c", "my::C")])),
            component("my::C", TypeInfo::Struct(vec![named("n", "u8")])),
            component("my::D", TypeInfo::Struct(vec![named("n", "u8")])),
            plain("u8", TypeInfo::Opaque),
        ],
    };
    let mut exports = TypeExportRegistry::from_registry(&registry).unwrap();
    assert!(exports.contains_key("my::A") && exports.contains_key("my::B") && exports.contains_key("my::C"));
    exports.remove_with_dependency(&"my::C".to_string());
    assert!(!exports.contains_key("my::A"));
    assert!(!exports.contains_key("my::B"));
    assert!(exports.contains_key("my::C"));
    assert!(exports.contains_key("my::D"));
}

#[test]
fn exported_list_is_sorted_by_name() {
    let registry = TypeRegistry {
        types: vec![
            component("z::Last", TypeInfo::Struct(vec![])),
            component("a::First", TypeInfo::Struct(vec![])),
            component("m::Middle", TypeInfo::Enum(vec![VariantInfo::Unit { name: "X".to_string() }])),
        ],
    };
    let list = TypeExportRegistry::from_registry(&registry).unwrap().to_vec();
    let names: Vec<&str> = list.iter().map(|t| t.name.as_str()).collect();
    assert_eq!(names, vec!["a::First", "m::Middle", "z::Last"]);
    let mut ids: Vec<u32> = list.iter().map(|t| t.id).collect();
    ids.sort();
    assert_eq!(ids, vec![1, 2, 3]);
    match &list[0].type_data {
        TypeData::Class(c) => assert_eq!(c.use_as, vec![UseAs::Property]),
        other => panic!("unexpected {:?}", other),
    }
}

#[test]
fn all_supported_use_as() {
    assert_eq!(
        UseAs::all_supported(),
        vec![UseAs::Property, UseAs::WholeMap, UseAs::Layer, UseAs::Object, UseAs::Tile]
    );
}

#[test]
fn registry_well_formedness() {
    let ok = TypeRegistry {
        types: vec![component("my::A", TypeInfo::Struct(vec![named("n", "u8")])), plain("u8", TypeInfo::Opaque)],
    };
    assert!(ok.check_wf());
    let missing = TypeRegistry { types: vec![component("my::A", TypeInfo::Struct(vec![named("n", "u8")]))] };
    assert!(!missing.check_wf());
    let twice = TypeRegistry { types: vec![plain("u8", TypeInfo::Opaque), plain("u8", TypeInfo::Opaque)] };
    assert!(!twice.check_wf());
}
