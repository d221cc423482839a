use bevy_ecs_tiled::properties::export::TypeExportRegistry;
use bevy_ecs_tiled::properties::import::{
    Class, Enum, FieldType, Member, StorageType, TypeData, UseAs,
};
use bevy_ecs_tiled::properties::reflect::{
    NamedField, TypeInfo, TypeRegistration, TypeRegistry, UnnamedField, VariantInfo,
};
use bevy_ecs_tiled::properties::value::{FloatValue, JsonValue, ReflectData, ReflectValue};

const DEFAULT_COLOR: &str = "#000000";

fn plain(path: &str, info: TypeInfo) -> TypeRegistration {
    TypeRegistration {
        type_path: path.to_string(),
        info,
        is_component: false,
        is_bundle: false,
        is_resource: false,
        default_value: None,
    }
}

fn component(path: &str, info: TypeInfo) -> TypeRegistration {
    TypeRegistration { is_component: true, ..plain(path, info) }
}

fn with_default(reg: TypeRegistration, data: ReflectData) -> TypeRegistration {
    TypeRegistration { default_value: Some(value(data)), ..reg }
}

fn value(data: ReflectData) -> ReflectValue {
    ReflectValue { source: 0, data }
}

fn unit_variant(name: &str) -> ReflectData {
    ReflectData::Enum { variant: name.to_string(), unit_only: true, fields: vec![] }
}

fn opaque(path: &str) -> TypeRegistration {
    plain(path, TypeInfo::Opaque)
}

fn unnamed(path: &str) -> UnnamedField {
    UnnamedField { type_path: path.to_string() }
}

fn named(name: &str, path: &str) -> NamedField {
    NamedField { name: name.to_string(), type_path: path.to_string() }
}

fn member(name: &str, property_type: Option<&str>, type_field: FieldType, value: JsonValue) -> Member {
    Member {
        name: name.to_string(),
        property_type: property_type.map(|s| s.to_string()),
        type_field,
        value,
    }
}

fn object(members: Vec<(&str, JsonValue)>) -> JsonValue {
    JsonValue::Object(members.into_iter().map(|(k, v)| (k.to_string(), v)).collect())
}

fn text(s: &str) -> JsonValue {
    JsonValue::Str(s.to_string())
}

fn use_as_property() -> Vec<UseAs> {
    vec![UseAs::Property]
}

#[test]
fn generate_with_entity() {
    let path = "bevy_ecs_tiled::properties::export::tests::ComponentA";
    let registry = TypeRegistry {
        types: vec![
            component(path, TypeInfo::TupleStruct(vec![unnamed("bevy_ecs::entity::Entity")])),
            opaque("bevy_ecs::entity::Entity"),
        ],
    };

    let exports = TypeExportRegistry::from_registry(&registry).unwrap();
    let export_type = exports.get(path).unwrap();
    assert_eq!(export_type.len(), 1);
    assert_eq!(export_type[0].name, path.to_string());
    assert_eq!(
        export_type[0].type_data,
        TypeData::Class(Class {
            use_as: use_as_property(),
            color: DEFAULT_COLOR.to_string(),
            draw_fill: true,
            members: vec![member("0", None, FieldType::Object, JsonValue::Null)],
        }),
    );
}

#[test]
fn generate_with_entity_option() {
    let path = "bevy_ecs_tiled::properties::export::tests::ComponentA";
    let option = "core::option::Option<bevy_ecs::entity::Entity>";
    let registry = TypeRegistry {
        types: vec![
            component(path, TypeInfo::TupleStruct(vec![unnamed(option)])),
            plain(
                option,
                TypeInfo::Enum(vec![
                    VariantInfo::Unit { name: "None".to_string() },
                    VariantInfo::Tuple {
                        name: "Some".to_string(),
                        fields: vec![unnamed("bevy_ecs::entity::Entity")],
                    },
                ]),
            ),
            opaque("bevy_ecs::entity::Entity"),
        ],
    };

    let exports = TypeExportRegistry::from_registry(&registry).unwrap();
    let export_type = exports.get(path).unwrap();
    assert_eq!(export_type.len(), 1);
    assert_eq!(export_type[0].name, path.to_string());
    assert_eq!(
        export_type[0].type_data,
        TypeData::Class(Class {
            use_as: use_as_property(),
            color: DEFAULT_COLOR.to_string(),
            draw_fill: true,
            members: vec![member("0", None, FieldType::Object, JsonValue::Null)],
        }),
    );
}

#[test]
fn generate_simple_enum() {
    let path = "bevy_ecs_tiled::properties::export::tests::EnumComponent";
    let registry = TypeRegistry {
        types: vec![component(
            path,
            TypeInfo::Enum(vec![
                VariantInfo::Unit { name: "VarA".to_string() },
                VariantInfo::Unit { name: "VarB".to_string() },
                VariantInfo::Unit { name: "VarC".to_string() },
            ]),
        )],
    };

    let exports = TypeExportRegistry::from_registry(&registry).unwrap();
    let export_type = exports.get(path).unwrap();
    assert_eq!(export_type.len(), 1);
    assert_eq!(export_type[0].name, path.to_string());
    assert_eq!(
        export_type[0].type_data,
        TypeData::Enum(Enum {
            storage_type: StorageType::String,
            values: vec!["VarA".to_string(), "VarB".to_string(), "VarC".to_string()],
            values_as_flags: false,
        }),
    );
}

#[test]
fn generate_nested_struct_with_default() {
    let test_enum = "bevy_ecs_tiled::properties::export::tests::TestEnum";
    let inner = "bevy_ecs_tiled::properties::export::tests::InnerStruct";
    let outer = "bevy_ecs_tiled::properties::export::tests::StructComponent";
    let unit_variants = |names: &[&str]| {
        TypeInfo::Enum(names.iter().map(|n| VariantInfo::Unit { name: n.to_string() }).collect())
    };
    let inner_default = || {
        ReflectData::Struct(vec![
            ("another_float".to_string(), value(ReflectData::Float(FloatValue::F64(123.456f64.to_bits())))),
            ("another_integer".to_string(), value(ReflectData::UInt(42))),
            ("another_enum".to_string(), value(unit_variant("VarC"))),
        ])
    };
    let registry = TypeRegistry {
        types: vec![
            with_default(plain(test_enum, unit_variants(&["VarA", "VarB", "VarC"])), unit_variant("VarB")),
            with_default(
                plain(
                    inner,
                    TypeInfo::Struct(vec![
                        named("another_float", "f64"),
                        named("another_integer", "u16"),
                        named("another_enum", test_enum),
                    ]),
                ),
                inner_default(),
            ),
            with_default(
                component(
                    outer,
                    TypeInfo::Struct(vec![
                        named("a_float", "f32"),
                        named("an_enum", test_enum),
                        named("a_struct", inner),
                        named("an_integer", "i32"),
                    ]),
                ),
                ReflectData::Struct(vec![
                    ("a_float".to_string(), value(ReflectData::Float(FloatValue::F32(0.0f32.to_bits())))),
                    ("an_enum".to_string(), value(unit_variant("VarB"))),
                    ("a_struct".to_string(), value(inner_default())),
                    ("an_integer".to_string(), value(ReflectData::Int(0))),
                ]),
            ),
            opaque("f32"),
            opaque("f64"),
            opaque("u16"),
            opaque("i32"),
        ],
    };

    let exports = TypeExportRegistry::from_registry(&registry).unwrap();
    let export_type = exports.get(outer).unwrap();
    assert_eq!(export_type.len(), 1);
    assert_eq!(export_type[0].name, outer.to_string());
    assert_eq!(
        export_type[0].type_data,
        TypeData::Class(Class {
            use_as: use_as_property(),
            color: DEFAULT_COLOR.to_string(),
            draw_fill: true,
            members: vec![
                member("a_float", None, FieldType::Float, JsonValue::Float(FloatValue::F32(0.0f32.to_bits()))),
                member("an_enum", Some(test_enum), FieldType::String, text("VarB")),
                member(
                    "a_struct",
                    Some(inner),
                    FieldType::Class,
                    object(vec![
                        ("another_enum", text("VarC")),
                        ("another_float", JsonValue::Float(FloatValue::F64(123.456f64.to_bits()))),
                        ("another_integer", JsonValue::UInt(42)),
                    ]),
                ),
                member("an_integer", None, FieldType::Int, JsonValue::Int(0)),
            ],
        })
    );
}

#[test]
fn generate_nested_tuple_struct() {
    let outer = "bevy_ecs_tiled::properties::export::tests::TestOuter";
    let inner = "bevy_ecs_tiled::properties::export::tests::TestInner";
    let test_struct = "bevy_ecs_tiled::properties::export::tests::TestStruct";
    let variant = "bevy_ecs_tiled::properties::export::tests::TestVariant";
    let registry = TypeRegistry {
        types: vec![
            with_default(
                component(outer, TypeInfo::TupleStruct(vec![unnamed(inner)])),
                ReflectData::Tuple(vec![value(ReflectData::Tuple(vec![
                    value(ReflectData::Int(0)),
                    value(ReflectData::Other),
                ]))]),
            ),
            plain(inner, TypeInfo::TupleStruct(vec![unnamed("i32"), unnamed("[f32; 3]")])),
            plain(
                test_struct,
                TypeInfo::Struct(vec![named("a", "i32"), named("b", "alloc::string::String")]),
            ),
            plain(
                variant,
                TypeInfo::Enum(vec![
                    VariantInfo::Unit { name: "Apples".to_string() },
                    VariantInfo::Unit { name: "Bananas".to_string() },
                    VariantInfo::Unit { name: "Oranges".to_string() },
                ]),
            ),
            plain("[f32; 3]", TypeInfo::Array { item: "f32".to_string(), capacity: 3 }),
            opaque("i32"),
            opaque("f32"),
            opaque("alloc::string::String"),
        ],
    };

    let exports = TypeExportRegistry::from_registry(&registry).unwrap();
    let export_type = exports.get(outer).unwrap();
    assert_eq!(export_type.len(), 1);
    assert_eq!(export_type[0].name, outer.to_string());
    assert_eq!(
        export_type[0].type_data,
        TypeData::Class(Class {
            use_as: use_as_property(),
            color: DEFAULT_COLOR.to_string(),
            draw_fill: true,
            members: vec![member(
                "0",
                Some(inner),
                FieldType::Class,
                object(vec![("0", JsonValue::Int(0)), ("1", JsonValue::Null)]),
            )],
        })
    );
}

#[test]
fn generate_non_simple_enum() {
    let test_struct = "bevy_ecs_tiled::properties::export::tests::TestStruct";
    let path = "bevy_ecs_tiled::properties::export::tests::EnumComponent";
    let registry = TypeRegistry {
        types: vec![
            plain(
                test_struct,
                TypeInfo::Struct(vec![named("a", "i32"), named("b", "alloc::string::String")]),
            ),
            component(
                path,
                TypeInfo::Enum(vec![
                    VariantInfo::Unit { name: "VarA".to_string() },
                    VariantInfo::Tuple { name: "VarB".to_string(), fields: vec![unnamed("u32")] },
                    VariantInfo::Tuple { name: "VarC".to_string(), fields: vec![unnamed(test_struct)] },
                    VariantInfo::Tuple { name: "VarD".to_string(), fields: vec![unnamed("(u16, f32)")] },
                ]),
            ),
            plain("(u16, f32)", TypeInfo::Tuple(vec![unnamed("u16"), unnamed("f32")])),
            opaque("u32"),
            opaque("i32"),
            opaque("u16"),
            opaque("f32"),
            opaque("alloc::string::String"),
        ],
    };

    let exports = TypeExportRegistry::from_registry(&registry).unwrap();
    let export_type = exports.get(path).unwrap();

    assert_eq!(export_type.len(), 5);
    assert_eq!(export_type[0].name, path.to_string() + ":::Variant");
    assert_eq!(
        export_type[0].type_data,
        TypeData::Enum(Enum {
            storage_type: StorageType::String,
            values: vec![
                "VarA".to_string(),
                "VarB".to_string(),
                "VarC".to_string(),
                "VarD".to_string(),
            ],
            values_as_flags: false,
        }),
    );
    assert_eq!(export_type[1].name, path.to_string() + "::VarB");
    assert_eq!(
        export_type[1].type_data,
        TypeData::Class(Class {
            use_as: use_as_property(),
            color: DEFAULT_COLOR.to_string(),
            draw_fill: true,
            members: vec![member("0", None, FieldType::Int, JsonValue::Null)],
        })
    );
    assert_eq!(export_type[2].name, path.to_string() + "::VarC");
    assert_eq!(
        export_type[2].type_data,
        TypeData::Class(Class {
            use_as: use_as_property(),
            color: DEFAULT_COLOR.to_string(),
            draw_fill: true,
            members: vec![member("0", Some(test_struct), FieldType::Class, JsonValue::Null)],
        })
    );
    assert_eq!(export_type[3].name, path.to_string() + "::VarD");
    assert_eq!(
        export_type[3].type_data,
        TypeData::Class(Class {
            use_as: use_as_property(),
            color: DEFAULT_COLOR.to_string(),
            draw_fill: true,
            members: vec![member("0", Some("(u16, f32)"), FieldType::Class, JsonValue::Null)],
        })
    );
    assert_eq!(export_type[4].name, path.to_string());
    let variants = path.to_string() + ":::Variant";
    let var_b = path.to_string() + "::VarB";
    let var_c = path.to_string() + "::VarC";
    let var_d = path.to_string() + "::VarD";
    assert_eq!(
        export_type[4].type_data,
        TypeData::Class(Class {
            use_as: use_as_property(),
            color: DEFAULT_COLOR.to_string(),
            draw_fill: true,
            members: vec![
                member(":variant", Some(&variants), FieldType::Class, text("VarA")),
                member("VarB", Some(&var_b), FieldType::Class, JsonValue::Null),
                member("VarC", Some(&var_c), FieldType::Class, JsonValue::Null),
                member("VarD", Some(&var_d), FieldType::Class, JsonValue::Null),
            ],
        })
    );
}
