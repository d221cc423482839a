use bevy_ecs_tiled::properties::load::{
    deserialize_property, hydrate, load_properties, read_property, Deserialized, IntKind, LoadedProperty, PropertyError,
    PropertyValue, ReadFailure, VariantValue,
};
use bevy_ecs_tiled::properties::reflect::{
    NamedField, TypeInfo, TypeRegistration, TypeRegistry, UnnamedField, VariantInfo,
};
use bevy_ecs_tiled::properties::value::{FloatValue, ReflectData, ReflectValue};

fn plain(path: &str, info: TypeInfo) -> TypeRegistration {
    TypeRegistration {
        type_path: path.to_string(),
        info,
        is_component: false,
        is_bundle: false,
        is_resource: false,
        default_value: None,
    }
}

fn value(source: u64, data: ReflectData) -> ReflectValue {
    ReflectValue { source, data }
}

fn unit_variants(names: &[&str]) -> TypeInfo {
    TypeInfo::Enum(names.iter().map(|n| VariantInfo::Unit { name: n.to_string() }).collect())
}

fn named(name: &str, path: &str) -> NamedField {
    NamedField { name: name.to_string(), type_path: path.to_string() }
}

fn class(path: &str, props: Vec<(&str, PropertyValue)>) -> PropertyValue {
    PropertyValue::ClassValue {
        property_type: path.to_string(),
        properties: props.into_iter().map(|(k, v)| (k.to_string(), v)).collect(),
    }
}

fn string(s: &str) -> PropertyValue {
    PropertyValue::StringValue(s.to_string())
}

fn unit(path: &str, variant: &str) -> Deserialized {
    Deserialized::UnitVariant { type_path: path.to_string(), variant: variant.to_string() }
}

fn find<'a>(registry: &'a TypeRegistry, path: &str) -> &'a TypeRegistration {
    registry.get_with_type_path(path).unwrap()
}

const ENUM_COMPONENT: &str = "bevy_ecs_tiled::properties::load::tests::EnumComponent";
const TEST_ENUM: &str = "bevy_ecs_tiled::properties::load::tests::TestEnum";
const INNER: &str = "bevy_ecs_tiled::properties::load::tests::InnerStruct";
const OUTER: &str = "bevy_ecs_tiled::properties::load::tests::StructComponent";

#[test]
fn deserialize_simple_enum() {
    let registry = TypeRegistry { types: vec![plain(ENUM_COMPONENT, unit_variants(&["VarA", "VarB", "VarC"]))] };

    let res = deserialize_property(string("VarB"), find(&registry, ENUM_COMPONENT), &registry, false, None).unwrap();
    assert_eq!(res, unit(ENUM_COMPONENT, "VarB"));
}

fn inner_default(source: u64) -> ReflectValue {
    value(
        source,
        ReflectData::Struct(vec![
            ("another_float".to_string(), value(source + 1, ReflectData::Float(FloatValue::F64(0.0f64.to_bits())))),
            ("another_integer".to_string(), value(source + 2, ReflectData::UInt(42))),
            (
                "another_enum".to_string(),
                value(source + 3, ReflectData::Enum { variant: "VarC".to_string(), unit_only: true, fields: vec![] }),
            ),
        ]),
    )
}

fn nested_registry() -> TypeRegistry {
    let mut test_enum = plain(TEST_ENUM, unit_variants(&["VarA", "VarB", "VarC"]));
    test_enum.default_value = Some(value(1, ReflectData::Enum { variant: "VarB".to_string(), unit_only: true, fields: vec![] }));
    let mut inner = plain(
        INNER,
        TypeInfo::Struct(vec![
            named("another_float", "f64"),
            named("another_integer", "u16"),
            named("another_enum", TEST_ENUM),
        ]),
    );
    inner.default_value = Some(inner_default(10));
    let mut outer = plain(
        OUTER,
        TypeInfo::Struct(vec![
            named("a_float", "f32"),
            named("an_enum", TEST_ENUM),
            named("a_struct", INNER),
            named("an_integer", "i32"),
        ]),
    );
    outer.is_component = true;
    outer.default_value = Some(value(
        20,
        ReflectData::Struct(vec![
            ("a_float".to_string(), value(21, ReflectData::Float(FloatValue::F32(0.0f32.to_bits())))),
            ("an_enum".to_string(), value(22, ReflectData::Enum { variant: "VarB".to_string(), unit_only: true, fields: vec![] })),
            ("a_struct".to_string(), inner_default(30)),
            ("an_integer".to_string(), value(23, ReflectData::Int(0))),
        ]),
    ));
    TypeRegistry {
        types: vec![
            test_enum,
            inner,
            outer,
            plain("f32", TypeInfo::Opaque),
            plain("f64", TypeInfo::Opaque),
            plain("u16", TypeInfo::Opaque),
            plain("i32", TypeInfo::Opaque),
        ],
    }
}

#[test]
fn deserialize_nested_struct() {
    let registry = nested_registry();
    let tiled_value = class(
        OUTER,
        vec![
            ("a_float", PropertyValue::FloatValue(0.0f32.to_bits())),
            ("an_enum", string("VarB")),
            (
                "a_struct",
                class(
                    INNER,
                    vec![
                        ("another_float", PropertyValue::FloatValue(0.0f32.to_bits())),
                        ("another_integer", PropertyValue::IntValue(42)),
                        ("another_enum", string("VarC")),
                    ],
                ),
            ),
            ("an_integer", PropertyValue::IntValue(0)),
        ],
    );

    let res = deserialize_property(tiled_value, find(&registry, OUTER), &registry, false, None).unwrap();
    assert_eq!(
        res,
        Deserialized::Struct {
            type_path: OUTER.to_string(),
            fields: vec![
                ("a_float".to_string(), Deserialized::Float(FloatValue::F32(0.0f32.to_bits()))),
                ("an_enum".to_string(), unit(TEST_ENUM, "VarB")),
                (
                    "a_struct".to_string(),
                    Deserialized::Struct {
                        type_path: INNER.to_string(),
                        fields: vec![
                            ("another_float".to_string(), Deserialized::Float(FloatValue::F32AsF64(0.0f32.to_bits()))),
                            ("another_integer".to_string(), Deserialized::Integer(IntKind::U16, 42)),
                            ("another_enum".to_string(), unit(TEST_ENUM, "VarC")),
                        ],
                    },
                ),
                ("an_integer".to_string(), Deserialized::Integer(IntKind::I32, 0)),
            ],
        }
    );
}

#[test]
fn missing_fields_take_the_enclosing_default() {
    let registry = nested_registry();
    // Only `an_integer` is given: the other fields are copies of the
    // component's registered default.
    let tiled_value = class(OUTER, vec![("an_integer", PropertyValue::IntValue(-7))]);
    let res = deserialize_property(tiled_value, find(&registry, OUTER), &registry, false, None).unwrap();
    assert_eq!(
        res,
        Deserialized::Struct {
            type_path: OUTER.to_string(),
            fields: vec![
                ("a_float".to_string(), Deserialized::Default(value(21, ReflectData::Float(FloatValue::F32(0.0f32.to_bits()))))),
                ("an_enum".to_string(), Deserialized::Default(value(22, ReflectData::Enum { variant: "VarB".to_string(), unit_only: true, fields: vec![] }))),
                ("a_struct".to_string(), Deserialized::Default(inner_default(30))),
                ("an_integer".to_string(), Deserialized::Integer(IntKind::I32, -7)),
            ],
        }
    );
}

#[test]
fn nested_class_uses_its_own_type_default() {
    let registry = nested_registry();
    let tiled_value = class(OUTER, vec![("a_struct", class(INNER, vec![("another_integer", PropertyValue::IntValue(7))]))]);
    let res = deserialize_property(tiled_value, find(&registry, OUTER), &registry, false, None).unwrap();
    match res {
        Deserialized::Struct { fields, .. } => {
            assert_eq!(
                fields[2].1,
                Deserialized::Struct {
                    type_path: INNER.to_string(),
                    fields: vec![
                        ("another_float".to_string(), Deserialized::Default(value(11, ReflectData::Float(FloatValue::F64(0.0f64.to_bits()))))),
                        ("another_integer".to_string(), Deserialized::Integer(IntKind::U16, 7)),
                        ("another_enum".to_string(), Deserialized::Default(value(13, ReflectData::Enum { variant: "VarC".to_string(), unit_only: true, fields: vec![] }))),
                    ],
                }
            );
        },
        other => panic!("unexpected {:?}", other),
    }
}

#[test]
fn missing_field_without_default_is_an_error() {
    let registry = TypeRegistry {
        types: vec![
            plain("my::Pair", TypeInfo::TupleStruct(vec![UnnamedField { type_path: "i32".to_string() }])),
            plain("i32", TypeInfo::Opaque),
        ],
    };
    let res = deserialize_property(class("my::Pair", vec![]), find(&registry, "my::Pair"), &registry, false, None);
    assert_eq!(res, Err(PropertyError::MissingPositionalField { index: 0, owner: "my::Pair".to_string() }));
    let res = deserialize_property(
        class("my::Pair", vec![("0", PropertyValue::IntValue(5))]),
        find(&registry, "my::Pair"),
        &registry,
        false,
        None,
    );
    assert_eq!(
        res,
        Ok(Deserialized::TupleStruct {
            type_path: "my::Pair".to_string(),
            fields: vec![Deserialized::Integer(IntKind::I32, 5)],
        })
    );
}

#[test]
fn scalar_properties() {
    let registry = TypeRegistry {
        types: vec![
            plain("bool", TypeInfo::Opaque),
            plain("u8", TypeInfo::Opaque),
            plain("f64", TypeInfo::Opaque),
            plain("char", TypeInfo::Opaque),
            plain("bevy_ecs::entity::Entity", TypeInfo::Opaque),
            plain("core::option::Option<bevy_ecs::entity::Entity>", TypeInfo::Opaque),
            plain("bevy_asset::handle::Handle<bevy_image::image::Image>", TypeInfo::Opaque),
            plain("std::path::PathBuf", TypeInfo::Opaque),
        ],
    };
    let read = |pv: PropertyValue, path: &str, can_load: bool| {
        deserialize_property(pv, find(&registry, path), &registry, can_load, None)
    };
    assert_eq!(read(PropertyValue::BoolValue(true), "bool", false), Ok(Deserialized::Bool(true)));
    assert_eq!(read(PropertyValue::IntValue(200), "u8", false), Ok(Deserialized::Integer(IntKind::U8, 200)));
    assert_eq!(read(PropertyValue::IntValue(3), "f64", false), Ok(Deserialized::Float(FloatValue::I32AsF64(3))));
    assert_eq!(read(string("xyz"), "char", false), Ok(Deserialized::Char('x')));
    assert_eq!(read(PropertyValue::ObjectValue(0), "bevy_ecs::entity::Entity", false), Err(PropertyError::EmptyObjectReference));
    assert_eq!(read(PropertyValue::ObjectValue(4), "bevy_ecs::entity::Entity", false), Ok(Deserialized::Entity(4)));
    assert_eq!(
        read(PropertyValue::ObjectValue(0), "core::option::Option<bevy_ecs::entity::Entity>", false),
        Ok(Deserialized::OptionEntity(None))
    );
    let handle = "bevy_asset::handle::Handle<bevy_image::image::Image>";
    assert_eq!(read(PropertyValue::FileValue("a.png".to_string()), handle, false), Err(PropertyError::NoLoadContext));
    assert_eq!(
        read(PropertyValue::FileValue("a.png".to_string()), handle, true),
        Ok(Deserialized::Handle("a.png".to_string()))
    );
    assert_eq!(
        read(PropertyValue::FileValue("a.txt".to_string()), "std::path::PathBuf", false),
        Ok(Deserialized::Path("a.txt".to_string()))
    );
    assert_eq!(
        read(PropertyValue::BoolValue(true), "u8", false),
        Err(PropertyError::Unsupported { type_path: "u8".to_string(), value: PropertyValue::BoolValue(true) })
    );
}

#[test]
fn enum_from_class_value() {
    let shape = "my::Shape";
    let registry = TypeRegistry {
        types: vec![
            plain(
                shape,
                TypeInfo::Enum(vec![
                    VariantInfo::Unit { name: "Empty".to_string() },
                    VariantInfo::Tuple { name: "Square".to_string(), fields: vec![UnnamedField { type_path: "u8".to_string() }] },
                ]),
            ),
            plain("u8", TypeInfo::Opaque),
        ],
    };
    let pv = class(
        shape,
        vec![(":variant", string("Square")), ("Square", class("", vec![("0", PropertyValue::IntValue(9))]))],
    );
    assert_eq!(
        deserialize_property(pv, find(&registry, shape), &registry, false, None),
        Ok(Deserialized::Enum {
            type_path: shape.to_string(),
            variant: "Square".to_string(),
            index: 1,
            value: VariantValue::Tuple(vec![Deserialized::Integer(IntKind::U8, 9)]),
        })
    );
    let pv = class(shape, vec![(":variant", string("Circle")), ("Circle", class("", vec![]))]);
    assert_eq!(
        deserialize_property(pv, find(&registry, shape), &registry, false, None),
        Err(PropertyError::UnknownVariant { type_path: shape.to_string(), variant: "Circle".to_string() })
    );
    assert_eq!(
        deserialize_property(class(shape, vec![]), find(&registry, shape), &registry, false, None),
        Err(PropertyError::MissingEnumProperties { type_path: shape.to_string() })
    );
    assert_eq!(
        deserialize_property(string("Square"), find(&registry, shape), &registry, false, None),
        Err(PropertyError::NotUnitVariant { variant: "Square".to_string(), type_path: shape.to_string() })
    );
    assert_eq!(
        deserialize_property(string("Round"), find(&registry, shape), &registry, false, None),
        Err(PropertyError::NoVariant { variant: "Round".to_string(), type_path: shape.to_string() })
    );
}

#[test]
fn unsupported_containers() {
    let registry = TypeRegistry {
        types: vec![
            plain("my::List", TypeInfo::List { item: "u8".to_string() }),
            plain("my::Map", TypeInfo::Dictionary { key: "u8".to_string(), value: "u8".to_string() }),
            plain("my::Set", TypeInfo::SetOf { value: "u8".to_string() }),
            plain("my::Array", TypeInfo::Array { item: "u8".to_string(), capacity: 2 }),
            plain("u8", TypeInfo::Opaque),
        ],
    };
    let read = |path: &str| deserialize_property(class(path, vec![]), find(&registry, path), &registry, false, None);
    assert_eq!(read("my::List"), Err(PropertyError::ListUnsupported));
    assert_eq!(read("my::Map"), Err(PropertyError::MapUnsupported));
    assert_eq!(read("my::Set"), Err(PropertyError::SetUnsupported));
    assert_eq!(read("my::Array"), Ok(Deserialized::Array { type_path: "my::Array".to_string() }));
}

#[test]
fn load_keeps_insertable_values_and_assets() {
    let registry = nested_registry();
    let props = vec![
        ("c".to_string(), class(OUTER, vec![("an_integer", PropertyValue::IntValue(1))])),
        ("s".to_string(), class(INNER, vec![])),
        ("f".to_string(), PropertyValue::FileValue("music.ogg".to_string())),
        ("b".to_string(), PropertyValue::BoolValue(true)),
        ("u".to_string(), class("not::Registered", vec![])),
    ];
    let loaded = load_properties(props, &registry, false).unwrap();
    assert_eq!(loaded.len(), 2);
    assert!(matches!(&loaded[0], LoadedProperty::Value(Deserialized::Struct { .. })));
    assert_eq!(loaded[1], LoadedProperty::Asset("music.ogg".to_string()));
}

// A default holding entities in a struct field, an optional field, an enum
// variant's field and a list item.
fn links_default(owner: ReflectData, maybe: ReflectData, in_variant: ReflectData, in_list: ReflectData) -> ReflectValue {
    value(
        1,
        ReflectData::Struct(vec![
            ("owner".to_string(), value(2, owner)),
            ("maybe".to_string(), value(3, maybe)),
            (
                "mode".to_string(),
                value(4, ReflectData::Enum { variant: "Follow".to_string(), unit_only: false, fields: vec![value(5, in_variant)] }),
            ),
            ("list".to_string(), value(6, ReflectData::List(vec![value(7, in_list), value(8, ReflectData::Int(3))]))),
        ]),
    )
}

#[test]
fn object_references_resolve_to_spawned_entities() {
    let value = Deserialized::Struct {
        type_path: "my::Links".to_string(),
        fields: vec![
            ("target".to_string(), Deserialized::Entity(4)),
            ("maybe".to_string(), Deserialized::OptionEntity(Some(9))),
            ("known".to_string(), Deserialized::OptionEntity(Some(5))),
            ("none".to_string(), Deserialized::OptionEntity(None)),
            ("copied".to_string(), Deserialized::Default(links_default(ReflectData::Entity(4), ReflectData::OptionEntity(Some(5)), ReflectData::OptionEntity(Some(9)), ReflectData::Entity(5)))),
            (
                "inner".to_string(),
                Deserialized::Tuple { type_path: "(Entity,)".to_string(), fields: vec![Deserialized::Entity(5)] },
            ),
        ],
    };
    let objects = vec![(4u32, 100u64), (5, 200)];
    assert_eq!(
        hydrate(value, &objects),
        Deserialized::Struct {
            type_path: "my::Links".to_string(),
            fields: vec![
                ("target".to_string(), Deserialized::Spawned(100)),
                ("maybe".to_string(), Deserialized::OptionSpawned(None)),
                ("known".to_string(), Deserialized::OptionSpawned(Some(200))),
                ("none".to_string(), Deserialized::OptionSpawned(None)),
                ("copied".to_string(), Deserialized::Default(links_default(ReflectData::Spawned(100), ReflectData::OptionSpawned(Some(200)), ReflectData::OptionSpawned(None), ReflectData::Spawned(200)))),
                (
                    "inner".to_string(),
                    Deserialized::Tuple { type_path: "(Entity,)".to_string(), fields: vec![Deserialized::Spawned(200)] },
                ),
            ],
        }
    );
}

#[test]
fn out_of_range_integers_are_reported_as_panics() {
    let registry = TypeRegistry {
        types: vec![
            TypeRegistration {
                is_component: true,
                ..plain("my::Small", TypeInfo::TupleStruct(vec![UnnamedField { type_path: "u8".to_string() }]))
            },
            plain("u8", TypeInfo::Opaque),
            plain("char", TypeInfo::Opaque),
        ],
    };
    let too_big = class("my::Small", vec![("0", PropertyValue::IntValue(300))]);
    assert_eq!(read_property(too_big, find(&registry, "my::Small"), &registry, false, None), Err(ReadFailure::Panic));
    assert_eq!(read_property(string(""), find(&registry, "char"), &registry, false, None), Err(ReadFailure::Panic));
    let props = vec![("p".to_string(), class("my::Small", vec![("0", PropertyValue::IntValue(-1))]))];
    assert_eq!(load_properties(props, &registry, false), None);
    let props = vec![("p".to_string(), class("my::Small", vec![("0", PropertyValue::IntValue(255))]))];
    assert_eq!(
        load_properties(props, &registry, false),
        Some(vec![LoadedProperty::Value(Deserialized::TupleStruct {
            type_path: "my::Small".to_string(),
            fields: vec![Deserialized::Integer(IntKind::U8, 255)],
        })])
    );
}

#[test]
fn field_of_an_unregistered_type_is_reported() {
    let registry = TypeRegistry {
        types: vec![TypeRegistration {
            is_component: true,
            ..plain("my::Holder", TypeInfo::Struct(vec![named("inner", "my::Unknown")]))
        }],
    };
    assert!(registry.check_paths_distinct());
    assert!(!registry.check_wf());
    let given = class("my::Holder", vec![("inner", PropertyValue::IntValue(1))]);
    assert_eq!(
        deserialize_property(given, find(&registry, "my::Holder"), &registry, false, None),
        Err(PropertyError::NotRegistered { type_path: "my::Unknown".to_string() })
    );
}
