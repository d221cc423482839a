//! Reading the custom properties of a whole map: the map itself, every layer
//! (group layers with their children), every object of the object layers,
//! and every tile of the tilesets.
use vstd::prelude::*;
use crate::properties::load::{
    hydrate, load_one_panics, load_properties, loaded_views, refs_known, spec_hydrate, spec_load, LoadedProperty,
    LoadedView, PropertyValue,
};
use crate::properties::reflect::{TypeRegistration, TypeRegistry};

verus! {

/// A layer of a map, as far as custom properties go.
#[derive(Debug, PartialEq, Eq)]
pub struct PropertyLayer {
    pub id: u32,
    pub properties: Vec<(String, PropertyValue)>,
    pub content: LayerContent,
}

/// What a layer holds that has custom properties of its own.
#[derive(Debug, PartialEq, Eq)]
pub enum LayerContent {
    /// An object layer: its objects, by identifier.
    Objects(Vec<(u32, Vec<(String, PropertyValue)>)>),
    /// A group layer: its child layers.
    Group(Vec<PropertyLayer>),
    /// Any other layer.
    Other,
}

/// A tileset, as far as custom properties go: its name and its tiles, by
/// identifier.
#[derive(Debug, PartialEq, Eq)]
pub struct PropertyTileset {
    pub name: String,
    pub tiles: Vec<(u32, Vec<(String, PropertyValue)>)>,
}

/// The custom properties read for a whole map.
#[derive(Debug, PartialEq, Eq)]
pub struct DeserializedMapProperties {
    /// The map's own properties.
    pub map: Vec<LoadedProperty>,
    /// The properties of each layer, by layer identifier.
    pub layers: Vec<(u32, Vec<LoadedProperty>)>,
    /// The properties of each tile, by tileset name and tile identifier.
    pub tiles: Vec<(String, Vec<(u32, Vec<LoadedProperty>)>)>,
    /// The properties of each object, by object identifier.
    pub objects: Vec<(u32, Vec<LoadedProperty>)>,
}

/// Reading one of the properties panics.
pub open spec fn props_panic(types: Seq<TypeRegistration>, props: Seq<(String, PropertyValue)>, resources_allowed: bool) -> bool {
    exists|k: int| 0 <= k < props.len() && load_one_panics(types, #[trigger] props[k].1, resources_allowed)
}

/// What reading the properties of each entity gives, by identifier.
pub open spec fn entries_loads(types: Seq<TypeRegistration>, es: Seq<(u32, Vec<(String, PropertyValue)>)>) -> Seq<(u32, Seq<LoadedView>)> {
    es.map_values(|e: (u32, Vec<(String, PropertyValue)>)| (e.0, spec_load(types, e.1@, false)))
}

/// Reading the properties of one of the entities panics.
pub open spec fn entries_panic(types: Seq<TypeRegistration>, es: Seq<(u32, Vec<(String, PropertyValue)>)>) -> bool {
    exists|k: int| 0 <= k < es.len() && props_panic(types, (#[trigger] es[k]).1@, false)
}

/// Views of properties read by identifier.
pub open spec fn loaded_entries_view(v: Seq<(u32, Vec<LoadedProperty>)>) -> Seq<(u32, Seq<LoadedView>)> {
    v.map_values(|e: (u32, Vec<LoadedProperty>)| (e.0, loaded_views(e.1@)))
}

/// What reading the properties of a layer and of the layers it groups gives:
/// the layer first, then its children in order.
pub open spec fn layer_loads(types: Seq<TypeRegistration>, l: PropertyLayer) -> Seq<(u32, Seq<LoadedView>)>
    decreases l,
{
    seq![(l.id, spec_load(types, l.properties@, false))] + match l.content {
        LayerContent::Group(ch) => layers_loads(types, ch@),
        _ => Seq::empty(),
    }
}

/// [`layer_loads`] of each layer, in order.
pub open spec fn layers_loads(types: Seq<TypeRegistration>, ls: Seq<PropertyLayer>) -> Seq<(u32, Seq<LoadedView>)>
    decreases ls,
{
    if ls.len() == 0 {
        Seq::empty()
    } else {
        layers_loads(types, ls.drop_last()) + layer_loads(types, ls.last())
    }
}

/// What reading the properties of the objects of a layer, and of the layers
/// it groups, gives.
pub open spec fn layer_object_loads(types: Seq<TypeRegistration>, l: PropertyLayer) -> Seq<(u32, Seq<LoadedView>)>
    decreases l,
{
    match l.content {
        LayerContent::Objects(os) => entries_loads(types, os@),
        LayerContent::Group(ch) => layers_object_loads(types, ch@),
        LayerContent::Other => Seq::empty(),
    }
}

/// [`layer_object_loads`] of each layer, in order.
pub open spec fn layers_object_loads(types: Seq<TypeRegistration>, ls: Seq<PropertyLayer>) -> Seq<(u32, Seq<LoadedView>)>
    decreases ls,
{
    if ls.len() == 0 {
        Seq::empty()
    } else {
        layers_object_loads(types, ls.drop_last()) + layer_object_loads(types, ls.last())
    }
}

/// Reading a property of the layer, of one of its objects or of a layer it
/// groups panics.
pub open spec fn layer_panics(types: Seq<TypeRegistration>, l: PropertyLayer) -> bool
    decreases l,
{
    props_panic(types, l.properties@, false) || match l.content {
        LayerContent::Objects(os) => entries_panic(types, os@),
        LayerContent::Group(ch) => layers_panic(types, ch@),
        LayerContent::Other => false,
    }
}

/// [`layer_panics`] of one of the layers.
pub open spec fn layers_panic(types: Seq<TypeRegistration>, ls: Seq<PropertyLayer>) -> bool
    decreases ls,
{
    ls.len() > 0 && (layers_panic(types, ls.drop_last()) || layer_panics(types, ls.last()))
}

/// What reading the properties of the tiles of each tileset gives, by
/// tileset name.
pub open spec fn tilesets_loads(types: Seq<TypeRegistration>, ts: Seq<PropertyTileset>) -> Seq<(Seq<char>, Seq<(u32, Seq<LoadedView>)>)> {
    ts.map_values(|t: PropertyTileset| (t.name@, entries_loads(types, t.tiles@)))
}

/// Reading a property of a tile of one of the tilesets panics.
pub open spec fn tilesets_panic(types: Seq<TypeRegistration>, ts: Seq<PropertyTileset>) -> bool {
    exists|k: int| 0 <= k < ts.len() && entries_panic(types, (#[trigger] ts[k]).tiles@)
}

/// Views of the tile properties read by tileset.
pub open spec fn loaded_tilesets_view(v: Seq<(String, Vec<(u32, Vec<LoadedProperty>)>)>) -> Seq<(Seq<char>, Seq<(u32, Seq<LoadedView>)>)> {
    v.map_values(|t: (String, Vec<(u32, Vec<LoadedProperty>)>)| (t.0@, loaded_entries_view(t.1@)))
}

/// Reading one of the properties of a map panics.
pub open spec fn map_panics(types: Seq<TypeRegistration>, map: Seq<(String, PropertyValue)>, layers: Seq<PropertyLayer>, tilesets: Seq<PropertyTileset>) -> bool {
    props_panic(types, map, true) || layers_panic(types, layers) || tilesets_panic(types, tilesets)
}

proof fn lemma_layers_panic_prefix(types: Seq<TypeRegistration>, s: Seq<PropertyLayer>, j: int)
    requires
        0 <= j <= s.len(),
        layers_panic(types, s.subrange(0, j)),
    ensures
        layers_panic(types, s),
    decreases s.len(),
{
    if j == s.len() {
        assert(s.subrange(0, j) =~= s);
    } else {
        assert(s.drop_last().subrange(0, j) =~= s.subrange(0, j));
        lemma_layers_panic_prefix(types, s.drop_last(), j);
    }
}

proof fn lemma_layers_no_panic_prefix(types: Seq<TypeRegistration>, s: Seq<PropertyLayer>, j: int)
    requires
        0 <= j <= s.len(),
        !layers_panic(types, s),
    ensures
        !layers_panic(types, s.subrange(0, j)),
    decreases s.len(),
{
    if j == s.len() {
        assert(s.subrange(0, j) =~= s);
    } else {
        assert(s.drop_last().subrange(0, j) =~= s.subrange(0, j));
        lemma_layers_no_panic_prefix(types, s.drop_last(), j);
    }
}

/// Reads the properties of each entity, in order. `None` when reading one of
/// them panics.
fn load_entries(entries: Vec<(u32, Vec<(String, PropertyValue)>)>, registry: &TypeRegistry) -> (r: Option<Vec<(u32, Vec<LoadedProperty>)>>)
    requires
        registry.paths_distinct(),
    ensures
        match r {
            Some(v) => !entries_panic(registry.types@, entries@) && loaded_entries_view(v@) == entries_loads(registry.types@, entries@),
            None => entries_panic(registry.types@, entries@),
        },
{
    let ghost types = registry.types@;
    let ghost orig = entries@;
    let ghost n = orig.len();
    let mut rest = entries;
    let mut out: Vec<(u32, Vec<LoadedProperty>)> = Vec::new();
    while rest.len() > 0
        invariant
            registry.paths_distinct(),
            types == registry.types@,
            orig == entries@,
            n == orig.len(),
            out@.len() + rest@.len() == n,
            rest@ == orig.subrange(out@.len() as int, n as int),
            loaded_entries_view(out@) == entries_loads(types, orig.subrange(0, out@.len() as int)),
            forall|k: int| 0 <= k < out@.len() ==> !props_panic(types, (#[trigger] orig[k]).1@, false),
        decreases rest@.len(),
    {
        let ghost k = out@.len() as int;
        let (id, props) = rest.remove(0);
        assert(orig[k] == (id, props));
        match load_properties(props, registry, false) {
            Some(v) => {
                let ghost before = out@;
                out.push((id, v));
                proof {
                    assert(rest@ =~= orig.subrange(k + 1, n as int));
                    assert(loaded_entries_view(out@) =~= loaded_entries_view(before).push((id, loaded_views(v@))));
                    assert(entries_loads(types, orig.subrange(0, k + 1)) =~= entries_loads(types, orig.subrange(0, k)).push((id, spec_load(types, props@, false))));
                    assert forall|j: int| 0 <= j < out@.len() implies !props_panic(types, (#[trigger] orig[j]).1@, false) by {
                        if j == k {
                            assert(orig[j].1@ == props@);
                        }
                    }
                }
            },
            None => {
                assert(props_panic(types, orig[k].1@, false));
                assert(0 <= k < orig.len());
                assert(entries_panic(types, orig));
                return None;
            },
        }
    }
    assert(orig.subrange(0, n as int) =~= orig);
    Some(out)
}

/// Reads the properties of a layer (into `layers_out`), of its objects (into
/// `objects_out`) and of the layers it groups. `false`, with the outputs
/// left unspecified, when reading one of them panics.
fn load_layer(l: PropertyLayer, registry: &TypeRegistry, layers_out: &mut Vec<(u32, Vec<LoadedProperty>)>, objects_out: &mut Vec<(u32, Vec<LoadedProperty>)>) -> (ok: bool)
    requires
        registry.paths_distinct(),
    ensures
        ok == !layer_panics(registry.types@, l),
        ok ==> loaded_entries_view(final(layers_out)@) == loaded_entries_view(old(layers_out)@) + layer_loads(registry.types@, l),
        ok ==> loaded_entries_view(final(objects_out)@) == loaded_entries_view(old(objects_out)@) + layer_object_loads(registry.types@, l),
    decreases l, 1nat,
{
    let ghost types = registry.types@;
    let ghost l0 = l;
    let PropertyLayer { id, properties, content } = l;
    let ghost before_layers = layers_out@;
    match load_properties(properties, registry, false) {
        Some(v) => {
            layers_out.push((id, v));
            assert(loaded_entries_view(layers_out@) =~= loaded_entries_view(before_layers).push((id, spec_load(types, properties@, false))));
        },
        None => {
            return false;
        },
    }
    let ghost mid_layers = layers_out@;
    match content {
        LayerContent::Objects(os) => {
            match load_entries(os, registry) {
                Some(v) => {
                    let mut v = v;
                    let ghost before_objects = objects_out@;
                    objects_out.append(&mut v);
                    proof {
                        assert(loaded_entries_view(objects_out@) =~= loaded_entries_view(before_objects) + entries_loads(types, os@));
                        assert(layer_loads(types, l0) =~= seq![(id, spec_load(types, properties@, false))]);
                    }
                    true
                },
                None => false,
            }
        },
        LayerContent::Group(ch) => {
            proof {
                assert(decreases_to!(l0 => l0.content));
                assert(decreases_to!(l0.content => l0.content->Group_0));
                assert(decreases_to!(l0.content->Group_0 => l0.content->Group_0@));
            }
            let ok = load_layer_list(ch, registry, layers_out, objects_out);
            proof {
                if ok {
                    assert(loaded_entries_view(layers_out@) =~= loaded_entries_view(before_layers) + layer_loads(types, l0));
                }
            }
            ok
        },
        LayerContent::Other => {
            assert(layer_loads(types, l0) =~= seq![(id, spec_load(types, properties@, false))]);
            assert(layer_object_loads(types, l0) =~= Seq::<(u32, Seq<LoadedView>)>::empty());
            assert(loaded_entries_view(objects_out@) =~= loaded_entries_view(objects_out@) + Seq::<(u32, Seq<LoadedView>)>::empty());
            true
        },
    }
}

/// Reads the properties of each layer in turn (see [`load_layer`]).
fn load_layer_list(ls: Vec<PropertyLayer>, registry: &TypeRegistry, layers_out: &mut Vec<(u32, Vec<LoadedProperty>)>, objects_out: &mut Vec<(u32, Vec<LoadedProperty>)>) -> (ok: bool)
    requires
        registry.paths_distinct(),
    ensures
        ok == !layers_panic(registry.types@, ls@),
        ok ==> loaded_entries_view(final(layers_out)@) == loaded_entries_view(old(layers_out)@) + layers_loads(registry.types@, ls@),
        ok ==> loaded_entries_view(final(objects_out)@) == loaded_entries_view(old(objects_out)@) + layers_object_loads(registry.types@, ls@),
    decreases ls@, 0nat,
{
    let ghost types = registry.types@;
    let ghost orig = ls@;
    let ghost n = orig.len();
    let ghost start_layers = layers_out@;
    let ghost start_objects = objects_out@;
    let mut rest = ls;
    let ghost mut k: int = 0;
    assert(orig.subrange(0, 0) =~= Seq::<PropertyLayer>::empty());
    while rest.len() > 0
        invariant
            registry.paths_distinct(),
            types == registry.types@,
            orig == ls@,
            n == orig.len(),
            0 <= k,
            k + rest@.len() == n,
            rest@ == orig.subrange(k, n as int),
            !layers_panic(types, orig.subrange(0, k)),
            loaded_entries_view(layers_out@) == loaded_entries_view(start_layers) + layers_loads(types, orig.subrange(0, k)),
            loaded_entries_view(objects_out@) == loaded_entries_view(start_objects) + layers_object_loads(types, orig.subrange(0, k)),
        decreases rest@.len(),
    {
        let x = rest.remove(0);
        proof {
            assert(orig[k] == x);
            assert(decreases_to!(orig => orig[k]));
        }
        let ghost before_layers = layers_out@;
        let ghost before_objects = objects_out@;
        let ok = load_layer(x, registry, layers_out, objects_out);
        let ghost t = orig.subrange(0, k + 1);
        assert(t.drop_last() =~= orig.subrange(0, k));
        assert(t.last() == x);
        if !ok {
            proof {
                lemma_layers_panic_prefix(types, orig, k + 1);
            }
            return false;
        }
        proof {
            assert(rest@ =~= orig.subrange(k + 1, n as int));
            assert(layers_loads(types, t) == layers_loads(types, orig.subrange(0, k)) + layer_loads(types, x));
            assert(loaded_entries_view(layers_out@) =~= loaded_entries_view(start_layers) + layers_loads(types, t));
            assert(loaded_entries_view(objects_out@) =~= loaded_entries_view(start_objects) + layers_object_loads(types, t));
        }
        proof {
            k = k + 1;
        }
    }
    assert(orig.subrange(0, n as int) =~= orig);
    assert(loaded_entries_view(layers_out@) =~= loaded_entries_view(start_layers) + layers_loads(types, orig));
    assert(loaded_entries_view(objects_out@) =~= loaded_entries_view(start_objects) + layers_object_loads(types, orig));
    true
}

impl DeserializedMapProperties {
    /// Reads the custom properties of a map: the map's own (which may name
    /// resources), those of every layer, group layers followed by their
    /// children, those of every object of the object layers, and those of
    /// every tile of the tilesets. `None` when reading one of them panics.
    pub fn load(map: Vec<(String, PropertyValue)>, layers: Vec<PropertyLayer>, tilesets: Vec<PropertyTileset>, registry: &TypeRegistry) -> (r: Option<Self>)
        requires
            registry.paths_distinct(),
        ensures
            match r {
                Some(p) => {
                    &&& !map_panics(registry.types@, map@, layers@, tilesets@)
                    &&& loaded_views(p.map@) == spec_load(registry.types@, map@, true)
                    &&& loaded_entries_view(p.layers@) == layers_loads(registry.types@, layers@)
                    &&& loaded_entries_view(p.objects@) == layers_object_loads(registry.types@, layers@)
                    &&& loaded_tilesets_view(p.tiles@) == tilesets_loads(registry.types@, tilesets@)
                },
                None => map_panics(registry.types@, map@, layers@, tilesets@),
            },
    {
        let ghost types = registry.types@;
        let ghost map0 = map@;
        let ghost layers0 = layers@;
        let ghost tilesets0 = tilesets@;
        let map_props = match load_properties(map, registry, true) {
            Some(v) => v,
            None => return None,
        };
        let mut layers_out: Vec<(u32, Vec<LoadedProperty>)> = Vec::new();
        let mut objects_out: Vec<(u32, Vec<LoadedProperty>)> = Vec::new();
        if !load_layer_list(layers, registry, &mut layers_out, &mut objects_out) {
            return None;
        }
        assert(loaded_entries_view(Seq::<(u32, Vec<LoadedProperty>)>::empty()) =~= Seq::<(u32, Seq<LoadedView>)>::empty());
        assert(loaded_entries_view(layers_out@) =~= layers_loads(types, layers0));
        assert(loaded_entries_view(objects_out@) =~= layers_object_loads(types, layers0));
        let ghost n = tilesets0.len();
        let mut rest = tilesets;
        let mut tiles_out: Vec<(String, Vec<(u32, Vec<LoadedProperty>)>)> = Vec::new();
        while rest.len() > 0
            invariant
                registry.paths_distinct(),
                types == registry.types@,
                map0 == map@,
                layers0 == layers@,
                tilesets0 == tilesets@,
                !props_panic(types, map0, true),
                !layers_panic(types, layers0),
                loaded_views(map_props@) == spec_load(types, map0, true),
                loaded_entries_view(layers_out@) == layers_loads(types, layers0),
                loaded_entries_view(objects_out@) == layers_object_loads(types, layers0),
                n == tilesets0.len(),
                tiles_out@.len() + rest@.len() == n,
                rest@ == tilesets0.subrange(tiles_out@.len() as int, n as int),
                loaded_tilesets_view(tiles_out@) == tilesets_loads(types, tilesets0.subrange(0, tiles_out@.len() as int)),
                forall|k: int| 0 <= k < tiles_out@.len() ==> !entries_panic(types, (#[trigger] tilesets0[k]).tiles@),
            decreases rest@.len(),
        {
            let ghost k = tiles_out@.len() as int;
            let t = rest.remove(0);
            assert(tilesets0[k] == t);
            let PropertyTileset { name, tiles } = t;
            match load_entries(tiles, registry) {
                Some(v) => {
                    let ghost before = tiles_out@;
                    tiles_out.push((name, v));
                    proof {
                        assert(rest@ =~= tilesets0.subrange(k + 1, n as int));
                        assert(loaded_tilesets_view(tiles_out@) =~= loaded_tilesets_view(before).push((name@, loaded_entries_view(v@))));
                        assert(tilesets_loads(types, tilesets0.subrange(0, k + 1)) =~= tilesets_loads(types, tilesets0.subrange(0, k)).push((name@, entries_loads(types, tiles@))));
                        assert forall|j: int| 0 <= j < tiles_out@.len() implies !entries_panic(types, (#[trigger] tilesets0[j]).tiles@) by {
                            if j == k {
                                assert(tilesets0[j].tiles@ == tiles@);
                            }
                        }
                    }
                },
                None => {
                    assert(entries_panic(types, tilesets0[k].tiles@));
                    assert(0 <= k < tilesets0.len());
                    assert(tilesets_panic(types, tilesets0));
                    return None;
                },
            }
        }
        assert(tilesets0.subrange(0, n as int) =~= tilesets0);
        proof {
            if tilesets_panic(types, tilesets0) {
                let k = choose|k: int| 0 <= k < tilesets0.len() && entries_panic(types, (#[trigger] tilesets0[k]).tiles@);
                assert(!entries_panic(types, tilesets0[k].tiles@));
            }
        }
        Some(DeserializedMapProperties { map: map_props, layers: layers_out, tiles: tiles_out, objects: objects_out })
    }
}

/// The properties read for an entity with their object references resolved
/// (see [`spec_hydrate`]); assets stay as they are.
pub open spec fn hydrate_loaded(s: Seq<LoadedProperty>, objects: Seq<(u32, u64)>) -> Seq<LoadedView> {
    s.map_values(|p: LoadedProperty| match p {
        LoadedProperty::Asset(f) => LoadedView::Asset(f@),
        LoadedProperty::Value(d) => LoadedView::Value(spec_hydrate(d, objects)),
    })
}

/// Every object that the values read for an entity refer to has a spawned
/// entity.
pub open spec fn loaded_refs_known(s: Seq<LoadedProperty>, objects: Seq<(u32, u64)>) -> bool {
    forall|k: int| 0 <= k < s.len() ==> match #[trigger] s[k] {
        LoadedProperty::Value(d) => refs_known(d, objects),
        LoadedProperty::Asset(_) => true,
    }
}

/// [`hydrate_loaded`] of the properties of each entity, by identifier.
pub open spec fn hydrate_entries(es: Seq<(u32, Vec<LoadedProperty>)>, objects: Seq<(u32, u64)>) -> Seq<(u32, Seq<LoadedView>)> {
    es.map_values(|e: (u32, Vec<LoadedProperty>)| (e.0, hydrate_loaded(e.1@, objects)))
}

/// [`loaded_refs_known`] of the properties of each entity.
pub open spec fn entries_refs_known(es: Seq<(u32, Vec<LoadedProperty>)>, objects: Seq<(u32, u64)>) -> bool {
    forall|k: int| 0 <= k < es.len() ==> loaded_refs_known((#[trigger] es[k]).1@, objects)
}

/// Resolves the object references of the properties read for an entity to
/// the spawned entities (see [`hydrate`]).
pub fn hydrate_properties(props: Vec<LoadedProperty>, objects: &Vec<(u32, u64)>) -> (r: Vec<LoadedProperty>)
    requires
        loaded_refs_known(props@, objects@),
    ensures
        loaded_views(r@) == hydrate_loaded(props@, objects@),
{
    let ghost orig = props@;
    let ghost n = orig.len();
    let mut rest = props;
    let mut out: Vec<LoadedProperty> = Vec::new();
    while rest.len() > 0
        invariant
            orig == props@,
            n == orig.len(),
            loaded_refs_known(orig, objects@),
            out@.len() + rest@.len() == n,
            rest@ == orig.subrange(out@.len() as int, n as int),
            loaded_views(out@) == hydrate_loaded(orig.subrange(0, out@.len() as int), objects@),
        decreases rest@.len(),
    {
        let ghost k = out@.len() as int;
        let p = rest.remove(0);
        assert(orig[k] == p);
        let h = match p {
            LoadedProperty::Asset(f) => LoadedProperty::Asset(f),
            LoadedProperty::Value(d) => LoadedProperty::Value(hydrate(d, objects)),
        };
        let ghost before = out@;
        out.push(h);
        proof {
            assert(rest@ =~= orig.subrange(k + 1, n as int));
            assert(loaded_views(out@) =~= loaded_views(before).push(hydrate_loaded(seq![orig[k]], objects@)[0]));
            assert(hydrate_loaded(orig.subrange(0, k + 1), objects@) =~= hydrate_loaded(orig.subrange(0, k), objects@).push(hydrate_loaded(seq![orig[k]], objects@)[0]));
        }
    }
    assert(orig.subrange(0, n as int) =~= orig);
    out
}

fn hydrate_entry_list(es: Vec<(u32, Vec<LoadedProperty>)>, objects: &Vec<(u32, u64)>) -> (r: Vec<(u32, Vec<LoadedProperty>)>)
    requires
        entries_refs_known(es@, objects@),
    ensures
        loaded_entries_view(r@) == hydrate_entries(es@, objects@),
{
    let ghost orig = es@;
    let ghost n = orig.len();
    let mut rest = es;
    let mut out: Vec<(u32, Vec<LoadedProperty>)> = Vec::new();
    while rest.len() > 0
        invariant
            orig == es@,
            n == orig.len(),
            entries_refs_known(orig, objects@),
            out@.len() + rest@.len() == n,
            rest@ == orig.subrange(out@.len() as int, n as int),
            loaded_entries_view(out@) == hydrate_entries(orig.subrange(0, out@.len() as int), objects@),
        decreases rest@.len(),
    {
        let ghost k = out@.len() as int;
        let (id, props) = rest.remove(0);
        assert(orig[k] == (id, props));
        let h = hydrate_properties(props, objects);
        let ghost before = out@;
        out.push((id, h));
        proof {
            assert(rest@ =~= orig.subrange(k + 1, n as int));
            assert(loaded_entries_view(out@) =~= loaded_entries_view(before).push((id, hydrate_loaded(props@, objects@))));
            assert(hydrate_entries(orig.subrange(0, k + 1), objects@) =~= hydrate_entries(orig.subrange(0, k), objects@).push((id, hydrate_loaded(props@, objects@))));
        }
    }
    assert(orig.subrange(0, n as int) =~= orig);
    out
}

impl DeserializedMapProperties {
    /// Every object that the values read for the map refer to has a spawned
    /// entity.
    pub open spec fn refs_known(&self, objects: Seq<(u32, u64)>) -> bool {
        &&& loaded_refs_known(self.map@, objects)
        &&& entries_refs_known(self.layers@, objects)
        &&& entries_refs_known(self.objects@, objects)
        &&& forall|k: int| 0 <= k < self.tiles@.len() ==> entries_refs_known((#[trigger] self.tiles@[k]).1@, objects)
    }

    /// Resolves the object references of every value read for the map (of
    /// the map, its layers, objects and tiles) to the entities spawned for
    /// those objects (`objects` pairs object identifiers with entity bits).
    pub fn hydrate(self, objects: &Vec<(u32, u64)>) -> (r: Self)
        requires
            self.refs_known(objects@),
        ensures
            loaded_views(r.map@) == hydrate_loaded(self.map@, objects@),
            loaded_entries_view(r.layers@) == hydrate_entries(self.layers@, objects@),
            loaded_entries_view(r.objects@) == hydrate_entries(self.objects@, objects@),
            r.tiles@.len() == self.tiles@.len(),
            forall|k: int| 0 <= k < self.tiles@.len() ==> {
                &&& (#[trigger] r.tiles@[k]).0@ == self.tiles@[k].0@
                &&& loaded_entries_view(r.tiles@[k].1@) == hydrate_entries(self.tiles@[k].1@, objects@)
            },
    {
        let ghost tiles0 = self.tiles@;
        let ghost n = tiles0.len();
        let DeserializedMapProperties { map, layers, tiles, objects: objs } = self;
        let map = hydrate_properties(map, objects);
        let layers = hydrate_entry_list(layers, objects);
        let objs = hydrate_entry_list(objs, objects);
        let mut rest = tiles;
        let mut out: Vec<(String, Vec<(u32, Vec<LoadedProperty>)>)> = Vec::new();
        while rest.len() > 0
            invariant
                n == tiles0.len(),
                forall|k: int| 0 <= k < tiles0.len() ==> entries_refs_known((#[trigger] tiles0[k]).1@, objects@),
                out@.len() + rest@.len() == n,
                rest@ == tiles0.subrange(out@.len() as int, n as int),
                forall|k: int| 0 <= k < out@.len() ==> {
                    &&& (#[trigger] out@[k]).0@ == tiles0[k].0@
                    &&& loaded_entries_view(out@[k].1@) == hydrate_entries(tiles0[k].1@, objects@)
                },
            decreases rest@.len(),
        {
            let ghost k = out@.len() as int;
            let (name, es) = rest.remove(0);
            assert(tiles0[k] == (name, es));
            let h = hydrate_entry_list(es, objects);
            out.push((name, h));
            proof {
                assert(rest@ =~= tiles0.subrange(k + 1, n as int));
            }
        }
        DeserializedMapProperties { map, layers, tiles: out, objects: objs }
    }
}

} // verus!
