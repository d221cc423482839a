use bevy_ecs_tiled::properties::load::{Deserialized, LoadedProperty, PropertyValue};
use bevy_ecs_tiled::properties::map::{DeserializedMapProperties, LayerContent, PropertyLayer, PropertyTileset};
use bevy_ecs_tiled::properties::reflect::{NamedField, TypeInfo, TypeRegistration, TypeRegistry, UnnamedField};
use bevy_ecs_tiled::properties::value::{ReflectData, ReflectValue};

fn registry() -> TypeRegistry {
    TypeRegistry {
        types: vec![
            TypeRegistration {
                type_path: "my::Target".to_string(),
                info: TypeInfo::TupleStruct(vec![UnnamedField { type_path: "bevy_ecs::entity::Entity".to_string() }]),
                is_component: true,
                is_bundle: false,
                is_resource: false,
                default_value: None,
            },
            TypeRegistration {
                type_path: "my::Small".to_string(),
                info: TypeInfo::Struct(vec![NamedField { name: "n".to_string(), type_path: "u8".to_string() }]),
                is_component: true,
                is_bundle: false,
                is_resource: false,
                default_value: None,
            },
            TypeRegistration {
                type_path: "my::Owner".to_string(),
                info: TypeInfo::Struct(vec![NamedField { name: "owner".to_string(), type_path: "bevy_ecs::entity::Entity".to_string() }]),
                is_component: true,
                is_bundle: false,
                is_resource: false,
                default_value: Some(ReflectValue {
                    source: 1,
                    data: ReflectData::Struct(vec![(
                        "owner".to_string(),
                        ReflectValue { source: 2, data: ReflectData::Entity(7) },
                    )]),
                }),
            },
            TypeRegistration {
                type_path: "bevy_ecs::entity::Entity".to_string(),
                info: TypeInfo::Opaque,
                is_component: false,
                is_bundle: false,
                is_resource: false,
                default_value: None,
            },
            TypeRegistration {
                type_path: "u8".to_string(),
                info: TypeInfo::Opaque,
                is_component: false,
                is_bundle: false,
                is_resource: false,
                default_value: None,
            },
        ],
    }
}

fn target(object: u32) -> Vec<(String, PropertyValue)> {
    vec![(
        "t".to_string(),
        PropertyValue::ClassValue {
            property_type: "my::Target".to_string(),
            properties: vec![("0".to_string(), PropertyValue::ObjectValue(object))],
        },
    )]
}

fn file(name: &str) -> Vec<(String, PropertyValue)> {
    vec![("f".to_string(), PropertyValue::FileValue(name.to_string()))]
}

fn target_value(object: u32) -> LoadedProperty {
    LoadedProperty::Value(Deserialized::TupleStruct {
        type_path: "my::Target".to_string(),
        fields: vec![Deserialized::Entity(object)],
    })
}

fn layer(id: u32, properties: Vec<(String, PropertyValue)>, content: LayerContent) -> PropertyLayer {
    PropertyLayer { id, properties, content }
}

#[test]
fn map_properties_follow_the_layer_tree() {
    let layers = vec![
        layer(1, file("a.png"), LayerContent::Other),
        layer(
            2,
            vec![],
            LayerContent::Group(vec![
                layer(3, target(5), LayerContent::Objects(vec![(5, file("b.png")), (6, target(5))])),
                layer(4, vec![], LayerContent::Other),
            ]),
        ),
    ];
    let tilesets = vec![PropertyTileset { name: "ground".to_string(), tiles: vec![(0, target(6)), (1, vec![])] }];
    let p = DeserializedMapProperties::load(file("music.ogg"), layers, tilesets, &registry()).unwrap();
    assert_eq!(p.map, vec![LoadedProperty::Asset("music.ogg".to_string())]);
    assert_eq!(
        p.layers,
        vec![
            (1, vec![LoadedProperty::Asset("a.png".to_string())]),
            (2, vec![]),
            (3, vec![target_value(5)]),
            (4, vec![]),
        ]
    );
    assert_eq!(p.objects, vec![(5, vec![LoadedProperty::Asset("b.png".to_string())]), (6, vec![target_value(5)])]);
    assert_eq!(p.tiles, vec![("ground".to_string(), vec![(0, vec![target_value(6)]), (1, vec![])])]);
}

#[test]
fn a_panicking_property_anywhere_gives_none() {
    let too_big = vec![(
        "s".to_string(),
        PropertyValue::ClassValue {
            property_type: "my::Small".to_string(),
            properties: vec![("n".to_string(), PropertyValue::IntValue(300))],
        },
    )];
    let nested = vec![layer(1, vec![], LayerContent::Group(vec![layer(2, vec![], LayerContent::Objects(vec![(3, too_big)]))]))];
    assert_eq!(DeserializedMapProperties::load(vec![], nested, vec![], &registry()), None);
}

#[test]
fn map_hydration_resolves_every_value() {
    let layers = vec![layer(1, target(5), LayerContent::Objects(vec![(5, target(6))]))];
    let owner = vec![(
        "o".to_string(),
        PropertyValue::ClassValue { property_type: "my::Owner".to_string(), properties: vec![] },
    )];
    let tilesets = vec![PropertyTileset { name: "t".to_string(), tiles: vec![(0, owner)] }];
    let p = DeserializedMapProperties::load(file("m.ogg"), layers, tilesets, &registry()).unwrap();
    let h = p.hydrate(&vec![(5, 50), (6, 60), (7, 70)]);
    let spawned = |bits: u64| {
        LoadedProperty::Value(Deserialized::TupleStruct {
            type_path: "my::Target".to_string(),
            fields: vec![Deserialized::Spawned(bits)],
        })
    };
    assert_eq!(h.map, vec![LoadedProperty::Asset("m.ogg".to_string())]);
    assert_eq!(h.layers, vec![(1, vec![spawned(50)])]);
    assert_eq!(h.objects, vec![(5, vec![spawned(60)])]);
    assert_eq!(
        h.tiles,
        vec![(
            "t".to_string(),
            vec![(
                0,
                vec![LoadedProperty::Value(Deserialized::Struct {
                    type_path: "my::Owner".to_string(),
                    fields: vec![(
                        "owner".to_string(),
                        Deserialized::Default(ReflectValue { source: 2, data: ReflectData::Spawned(70) }),
                    )],
                })],
            )],
        )]
    );
}
