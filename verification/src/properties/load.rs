//! Reading Tiled custom properties into values of reflected types.
use vstd::prelude::*;
use crate::properties::reflect::{
    is_registered, lookup, TypeInfo, TypeRegistration, TypeRegistry, UnnamedField, NamedField,
    VariantInfo,
};
use crate::properties::value::{
    deref_opt, find_positional_field, find_struct_field, positional_field, rview, rviews, rviews_named,
    struct_field, FloatValue, ReflectData, ReflectDataView, ReflectValue, ReflectView,
};
use crate::text::{decimal, eq_lit, has_prefix, starts_with, usize_to_decimal};

verus! {

/// A Tiled property value.
#[derive(Debug, PartialEq, Eq)]
pub enum PropertyValue {
    BoolValue(bool),
    /// A `float` property, by the bits of its `f32`.
    FloatValue(u32),
    IntValue(i32),
    ColorValue { red: u8, green: u8, blue: u8, alpha: u8 },
    StringValue(String),
    FileValue(String),
    /// The identifier of the referenced object, 0 when unset.
    ObjectValue(u32),
    /// A class value: its type name and its properties by name.
    ClassValue { property_type: String, properties: Vec<(String, PropertyValue)> },
}

/// The integer types a Tiled `int` property can be read into.
#[derive(Copy, Clone, Debug, PartialEq, Eq, Structural)]
pub enum IntKind {
    I8,
    I16,
    I32,
    I64,
    I128,
    U8,
    U16,
    U32,
    U64,
    U128,
}

/// A value built from Tiled properties for a reflected type.
#[derive(Debug, PartialEq, Eq)]
pub enum Deserialized {
    Bool(bool),
    /// An integer of the given type, with this value.
    Integer(IntKind, i32),
    Float(FloatValue),
    /// A color from its sRGBA bytes.
    Color { red: u8, green: u8, blue: u8, alpha: u8 },
    Str(String),
    Char(char),
    /// A file path.
    Path(String),
    /// An asset handle, loaded from this path.
    Handle(String),
    /// A reference to the object with this identifier.
    Entity(u32),
    /// An optional reference to an object.
    OptionEntity(Option<u32>),
    /// A unit variant of an enum type.
    UnitVariant { type_path: String, variant: String },
    Struct { type_path: String, fields: Vec<(String, Deserialized)> },
    TupleStruct { type_path: String, fields: Vec<Deserialized> },
    Tuple { type_path: String, fields: Vec<Deserialized> },
    /// An array of the given type, with no items.
    Array { type_path: String },
    /// A variant of an enum type, with its position among the variants.
    Enum { type_path: String, variant: String, index: usize, value: VariantValue },
    /// A copy of a registered default value, or of a part of one.
    Default(ReflectValue),
    /// A spawned entity, by its bits: an object reference once resolved.
    Spawned(u64),
    /// An optional spawned entity: an optional object reference once
    /// resolved.
    OptionSpawned(Option<u64>),
}

/// The content of an enum variant.
#[derive(Debug, PartialEq, Eq)]
pub enum VariantValue {
    Unit,
    Tuple(Vec<Deserialized>),
    Struct(Vec<(String, Deserialized)>),
}

/// Abstract view of [`Deserialized`].
pub enum DeserializedView {
    Bool(bool),
    Integer(IntKind, int),
    Float(FloatValue),
    Color { red: u8, green: u8, blue: u8, alpha: u8 },
    Str(Seq<char>),
    Char(char),
    Path(Seq<char>),
    Handle(Seq<char>),
    Entity(u32),
    OptionEntity(Option<u32>),
    UnitVariant { type_path: Seq<char>, variant: Seq<char> },
    Struct { type_path: Seq<char>, fields: Seq<(Seq<char>, DeserializedView)> },
    TupleStruct { type_path: Seq<char>, fields: Seq<DeserializedView> },
    Tuple { type_path: Seq<char>, fields: Seq<DeserializedView> },
    Array { type_path: Seq<char> },
    Enum { type_path: Seq<char>, variant: Seq<char>, index: int, value: VariantValueView },
    Default(ReflectView),
    Spawned(u64),
    OptionSpawned(Option<u64>),
}

/// Abstract view of [`VariantValue`].
pub enum VariantValueView {
    Unit,
    Tuple(Seq<DeserializedView>),
    Struct(Seq<(Seq<char>, DeserializedView)>),
}

/// The view of a built value.
pub open spec fn dview(d: Deserialized) -> DeserializedView
    decreases d,
{
    match d {
        Deserialized::Bool(b) => DeserializedView::Bool(b),
        Deserialized::Integer(k, i) => DeserializedView::Integer(k, i as int),
        Deserialized::Float(f) => DeserializedView::Float(f),
        Deserialized::Color { red, green, blue, alpha } => DeserializedView::Color { red, green, blue, alpha },
        Deserialized::Str(s) => DeserializedView::Str(s@),
        Deserialized::Char(c) => DeserializedView::Char(c),
        Deserialized::Path(s) => DeserializedView::Path(s@),
        Deserialized::Handle(s) => DeserializedView::Handle(s@),
        Deserialized::Entity(o) => DeserializedView::Entity(o),
        Deserialized::OptionEntity(o) => DeserializedView::OptionEntity(o),
        Deserialized::UnitVariant { type_path, variant } => DeserializedView::UnitVariant {
            type_path: type_path@,
            variant: variant@,
        },
        Deserialized::Struct { type_path, fields } => DeserializedView::Struct {
            type_path: type_path@,
            fields: named_dviews(fields@),
        },
        Deserialized::TupleStruct { type_path, fields } => DeserializedView::TupleStruct {
            type_path: type_path@,
            fields: dviews(fields@),
        },
        Deserialized::Tuple { type_path, fields } => DeserializedView::Tuple {
            type_path: type_path@,
            fields: dviews(fields@),
        },
        Deserialized::Array { type_path } => DeserializedView::Array { type_path: type_path@ },
        Deserialized::Enum { type_path, variant, index, value } => DeserializedView::Enum {
            type_path: type_path@,
            variant: variant@,
            index: index as int,
            value: variant_view(value),
        },
        Deserialized::Default(v) => DeserializedView::Default(rview(v)),
        Deserialized::Spawned(e) => DeserializedView::Spawned(e),
        Deserialized::OptionSpawned(e) => DeserializedView::OptionSpawned(e),
    }
}

/// The view of a variant's content.
pub open spec fn variant_view(v: VariantValue) -> VariantValueView
    decreases v,
{
    match v {
        VariantValue::Unit => VariantValueView::Unit,
        VariantValue::Tuple(fs) => VariantValueView::Tuple(dviews(fs@)),
        VariantValue::Struct(fs) => VariantValueView::Struct(named_dviews(fs@)),
    }
}

/// The views of positional values.
pub open spec fn dviews(s: Seq<Deserialized>) -> Seq<DeserializedView>
    decreases s,
{
    if s.len() == 0 {
        Seq::empty()
    } else {
        dviews(s.drop_last()).push(dview(s.last()))
    }
}

/// The views of named values.
pub open spec fn named_dviews(s: Seq<(String, Deserialized)>) -> Seq<(Seq<char>, DeserializedView)>
    decreases s,
{
    if s.len() == 0 {
        Seq::empty()
    } else {
        named_dviews(s.drop_last()).push((s.last().0@, dview(s.last().1)))
    }
}

impl View for Deserialized {
    type V = DeserializedView;

    open spec fn view(&self) -> DeserializedView {
        dview(*self)
    }
}

/// Why a property could not be read.
#[derive(Debug, PartialEq, Eq)]
pub enum PropertyError {
    /// The type is not in the registry.
    NotRegistered { type_path: String },
    /// A named field has no property and no default.
    MissingNamedField { field: String, owner: String },
    /// A positional field has no property and no default.
    MissingPositionalField { index: usize, owner: String },
    /// An asset handle was asked for where no asset can be loaded.
    NoLoadContext,
    /// An entity reference to no object.
    EmptyObjectReference,
    /// The enum has no variant of that name.
    NoVariant { variant: String, type_path: String },
    /// The variant named by a string is not a unit variant.
    NotUnitVariant { variant: String, type_path: String },
    /// A class value selects a variant that the enum does not have.
    UnknownVariant { type_path: String, variant: String },
    /// A class value for an enum selects no variant and there is no default.
    MissingEnumProperties { type_path: String },
    ListUnsupported,
    MapUnsupported,
    SetUnsupported,
    /// The property value cannot be read into the type.
    Unsupported { type_path: String, value: PropertyValue },
}

/// Why reading a property gave no value: an error, or a panic of the
/// reading (an input on which [`deserialize_property`] is not called).
#[derive(Debug, PartialEq, Eq)]
pub enum ReadFailure {
    Error(PropertyError),
    Panic,
}

/// Abstract view of [`PropertyError`].
pub enum PropertyErrorView {
    NotRegistered { type_path: Seq<char> },
    MissingNamedField { field: Seq<char>, owner: Seq<char> },
    MissingPositionalField { index: int, owner: Seq<char> },
    NoLoadContext,
    EmptyObjectReference,
    NoVariant { variant: Seq<char>, type_path: Seq<char> },
    NotUnitVariant { variant: Seq<char>, type_path: Seq<char> },
    UnknownVariant { type_path: Seq<char>, variant: Seq<char> },
    MissingEnumProperties { type_path: Seq<char> },
    ListUnsupported,
    MapUnsupported,
    SetUnsupported,
    Unsupported { type_path: Seq<char>, value: PropertyValue },
}

impl View for PropertyError {
    type V = PropertyErrorView;

    open spec fn view(&self) -> PropertyErrorView {
        match self {
            PropertyError::NotRegistered { type_path } => PropertyErrorView::NotRegistered { type_path: type_path@ },
            PropertyError::MissingNamedField { field, owner } => PropertyErrorView::MissingNamedField {
                field: field@,
                owner: owner@,
            },
            PropertyError::MissingPositionalField { index, owner } => PropertyErrorView::MissingPositionalField {
                index: *index as int,
                owner: owner@,
            },
            PropertyError::NoLoadContext => PropertyErrorView::NoLoadContext,
            PropertyError::EmptyObjectReference => PropertyErrorView::EmptyObjectReference,
            PropertyError::NoVariant { variant, type_path } => PropertyErrorView::NoVariant {
                variant: variant@,
                type_path: type_path@,
            },
            PropertyError::NotUnitVariant { variant, type_path } => PropertyErrorView::NotUnitVariant {
                variant: variant@,
                type_path: type_path@,
            },
            PropertyError::UnknownVariant { type_path, variant } => PropertyErrorView::UnknownVariant {
                type_path: type_path@,
                variant: variant@,
            },
            PropertyError::MissingEnumProperties { type_path } => PropertyErrorView::MissingEnumProperties {
                type_path: type_path@,
            },
            PropertyError::ListUnsupported => PropertyErrorView::ListUnsupported,
            PropertyError::MapUnsupported => PropertyErrorView::MapUnsupported,
            PropertyError::SetUnsupported => PropertyErrorView::SetUnsupported,
            PropertyError::Unsupported { type_path, value } => PropertyErrorView::Unsupported { type_path: type_path@, value: *value },
        }
    }
}

/// What reading a property gives: a value, an error, or a panic of the
/// reading code (inputs on which the library's functions are not called).
pub enum Outcome<T> {
    Value(T),
    Error(PropertyErrorView),
    Panic,
}

/// The size of a property value, counting every property in it.
pub open spec fn pv_size(pv: PropertyValue) -> nat
    decreases pv,
{
    match pv {
        PropertyValue::ClassValue { properties, .. } => 1 + props_size(properties@),
        _ => 1,
    }
}

/// The size of a list of properties.
pub open spec fn props_size(ps: Seq<(String, PropertyValue)>) -> nat
    decreases ps,
{
    if ps.len() == 0 {
        0
    } else {
        props_size(ps.drop_last()) + 1 + pv_size(ps.last().1)
    }
}

/// Some property is named `key`.
pub open spec fn has_key(ps: Seq<(String, PropertyValue)>, key: Seq<char>) -> bool {
    exists|k: int| 0 <= k < ps.len() && ps[k].0@ == key
}

/// The position of the first property named `key`.
pub open spec fn first_key(ps: Seq<(String, PropertyValue)>, key: Seq<char>) -> int {
    choose|k: int| 0 <= k < ps.len() && ps[k].0@ == key && forall|j: int| 0 <= j < k ==> ps[j].0@ != key
}

/// Removing the property named `key`: the value it had, and what is left.
pub open spec fn take(ps: Seq<(String, PropertyValue)>, key: Seq<char>) -> (Option<PropertyValue>, Seq<(String, PropertyValue)>) {
    if has_key(ps, key) {
        (Some(ps[first_key(ps, key)].1), ps.remove(first_key(ps, key)))
    } else {
        (None, ps)
    }
}

proof fn lemma_first_key_exists(ps: Seq<(String, PropertyValue)>, key: Seq<char>, k: int)
    requires
        0 <= k < ps.len(),
        ps[k].0@ == key,
    ensures
        exists|m: int| 0 <= m < ps.len() && ps[m].0@ == key && forall|j: int| 0 <= j < m ==> ps[j].0@ != key,
    decreases k,
{
    if exists|j: int| 0 <= j < k && ps[j].0@ == key {
        let j = choose|j: int| 0 <= j < k && ps[j].0@ == key;
        lemma_first_key_exists(ps, key, j);
    } else {
        assert(forall|j: int| 0 <= j < k ==> ps[j].0@ != key);
    }
}

/// The first property named `key` is where `first_key` says.
pub proof fn lemma_first_key(ps: Seq<(String, PropertyValue)>, key: Seq<char>)
    requires
        has_key(ps, key),
    ensures
        0 <= first_key(ps, key) < ps.len(),
        ps[first_key(ps, key)].0@ == key,
        forall|j: int| 0 <= j < first_key(ps, key) ==> ps[j].0@ != key,
{
    let k = choose|k: int| 0 <= k < ps.len() && ps[k].0@ == key;
    lemma_first_key_exists(ps, key, k);
}

proof fn lemma_props_size_remove(ps: Seq<(String, PropertyValue)>, k: int)
    requires
        0 <= k < ps.len(),
    ensures
        props_size(ps) == props_size(ps.remove(k)) + 1 + pv_size(ps[k].1),
    decreases ps.len(),
{
    if k == ps.len() - 1 {
        assert(ps.remove(k) =~= ps.drop_last());
    } else {
        lemma_props_size_remove(ps.drop_last(), k);
        assert(ps.remove(k).drop_last() =~= ps.drop_last().remove(k));
        assert(ps.remove(k).last() == ps.last());
    }
}

/// Taking a property leaves fewer properties, and the property taken is
/// smaller than the list it came from.
pub proof fn lemma_take_size(ps: Seq<(String, PropertyValue)>, key: Seq<char>)
    ensures
        props_size(take(ps, key).1) <= props_size(ps),
        take(ps, key).0 matches Some(v) ==> pv_size(v) < props_size(ps) && props_size(take(ps, key).1) < props_size(ps),
{
    if has_key(ps, key) {
        lemma_first_key(ps, key);
        lemma_props_size_remove(ps, first_key(ps, key));
    }
}

/// The integer type named by a type path.
pub open spec fn int_kind(path: Seq<char>) -> Option<IntKind> {
    if path == "i8"@ {
        Some(IntKind::I8)
    } else if path == "i16"@ {
        Some(IntKind::I16)
    } else if path == "i32"@ {
        Some(IntKind::I32)
    } else if path == "i64"@ {
        Some(IntKind::I64)
    } else if path == "i128"@ {
        Some(IntKind::I128)
    } else if path == "u8"@ {
        Some(IntKind::U8)
    } else if path == "u16"@ {
        Some(IntKind::U16)
    } else if path == "u32"@ {
        Some(IntKind::U32)
    } else if path == "u64"@ {
        Some(IntKind::U64)
    } else if path == "u128"@ {
        Some(IntKind::U128)
    } else {
        None
    }
}

/// `i` converts to the integer type `k` (else the conversion panics).
pub open spec fn int_fits(k: IntKind, i: int) -> bool {
    match k {
        IntKind::I8 => -128 <= i <= 127,
        IntKind::I16 => -32768 <= i <= 32767,
        IntKind::I32 | IntKind::I64 | IntKind::I128 => true,
        IntKind::U8 => 0 <= i <= 255,
        IntKind::U16 => 0 <= i <= 65535,
        IntKind::U32 | IntKind::U64 | IntKind::U128 => 0 <= i,
    }
}

/// Some variant is named `name`.
pub open spec fn has_variant(vs: Seq<VariantInfo>, name: Seq<char>) -> bool {
    exists|k: int| 0 <= k < vs.len() && vs[k].spec_name() == name
}

/// The position of the first variant named `name`.
pub open spec fn first_variant(vs: Seq<VariantInfo>, name: Seq<char>) -> int {
    choose|k: int| 0 <= k < vs.len() && vs[k].spec_name() == name && forall|j: int| 0 <= j < k ==> vs[j].spec_name() != name
}

/// The registered default value of the type at `path`, if any.
pub open spec fn type_default(types: Seq<TypeRegistration>, path: Seq<char>) -> Option<ReflectValue> {
    if is_registered(types, path) {
        lookup(types, path).default_value
    } else {
        None
    }
}

/// The default that a class value's fields fall back on: the type's own
/// registered default, else the one handed down by the enclosing value.
pub open spec fn class_default(reg: TypeRegistration, default: Option<ReflectValue>) -> Option<ReflectValue> {
    match reg.default_value {
        Some(d) => Some(d),
        None => default,
    }
}

/// The field `name` of an optional struct default.
pub open spec fn named_default(default: Option<ReflectValue>, name: Seq<char>) -> Option<ReflectValue> {
    match default {
        Some(d) => struct_field(d, name),
        None => None,
    }
}

/// Positional field `index` of an optional tuple default.
pub open spec fn positional_default(default: Option<ReflectValue>, index: int) -> Option<ReflectValue> {
    match default {
        Some(d) => positional_field(d, index),
        None => None,
    }
}

/// `o` with the value `v` put in front of its list.
pub open spec fn prepend<T>(v: T, o: Outcome<Seq<T>>) -> Outcome<Seq<T>> {
    match o {
        Outcome::Value(vs) => Outcome::Value(seq![v] + vs),
        Outcome::Error(e) => Outcome::Error(e),
        Outcome::Panic => Outcome::Panic,
    }
}

/// A field with no property: the default's field, else the field type's
/// registered default, else `missing`.
pub open spec fn fallback(types: Seq<TypeRegistration>, field_default: Option<ReflectValue>, type_path: Seq<char>, missing: PropertyErrorView) -> Outcome<DeserializedView> {
    match field_default {
        Some(fd) => Outcome::Value(DeserializedView::Default(rview(fd))),
        None => match type_default(types, type_path) {
            Some(td) => Outcome::Value(DeserializedView::Default(rview(td))),
            None => Outcome::Error(missing),
        },
    }
}

/// Reading the field `f` from the properties `ps`: the property of its name
/// if there is one (read into the field's type), else its fallback.
pub open spec fn named_field_step(
    types: Seq<TypeRegistration>,
    ps: Seq<(String, PropertyValue)>,
    f: NamedField,
    owner: Seq<char>,
    can_load: bool,
    default: Option<ReflectValue>,
) -> Outcome<DeserializedView>
    decreases props_size(ps), 0nat,
{
    proof {
        lemma_take_size(ps, f.name@);
    }
    match take(ps, f.name@).0 {
        Some(child) => if is_registered(types, f.type_path@) {
            spec_deserialize(types, child, lookup(types, f.type_path@), can_load, named_default(default, f.name@))
        } else {
            Outcome::Error(PropertyErrorView::NotRegistered { type_path: f.type_path@ })
        },
        None => fallback(types, named_default(default, f.name@), f.type_path@,
            PropertyErrorView::MissingNamedField { field: f.name@, owner }),
    }
}

/// Reading positional field `index`, whose type is that of `f`, from the
/// properties `ps`: the property named by its position if there is one,
/// else its fallback.
pub open spec fn unnamed_field_step(
    types: Seq<TypeRegistration>,
    ps: Seq<(String, PropertyValue)>,
    f: UnnamedField,
    index: nat,
    owner: Seq<char>,
    can_load: bool,
    default: Option<ReflectValue>,
) -> Outcome<DeserializedView>
    decreases props_size(ps), 0nat,
{
    proof {
        lemma_take_size(ps, decimal(index));
    }
    match take(ps, decimal(index)).0 {
        Some(child) => if is_registered(types, f.type_path@) {
            spec_deserialize(types, child, lookup(types, f.type_path@), can_load, positional_default(default, index as int))
        } else {
            Outcome::Error(PropertyErrorView::NotRegistered { type_path: f.type_path@ })
        },
        None => fallback(types, positional_default(default, index as int), f.type_path@,
            PropertyErrorView::MissingPositionalField { index: index as int, owner }),
    }
}

/// Reading the properties `ps` into the named fields `fs` in turn, each
/// field taking (and removing) the property of its name, until one fails;
/// the properties left come second. `owner` is the type the fields belong
/// to.
pub open spec fn spec_named_fields(
    types: Seq<TypeRegistration>,
    ps: Seq<(String, PropertyValue)>,
    fs: Seq<NamedField>,
    owner: Seq<char>,
    can_load: bool,
    default: Option<ReflectValue>,
) -> (Outcome<Seq<(Seq<char>, DeserializedView)>>, Seq<(String, PropertyValue)>)
    decreases props_size(ps), fs.len(),
{
    if fs.len() == 0 {
        (Outcome::Value(Seq::empty()), ps)
    } else {
        let rest = take(ps, fs[0].name@).1;
        proof {
            lemma_take_size(ps, fs[0].name@);
        }
        match named_field_step(types, ps, fs[0], owner, can_load, default) {
            Outcome::Value(v) => {
                let (r, left) = spec_named_fields(types, rest, fs.drop_first(), owner, can_load, default);
                (prepend((fs[0].name@, v), r), left)
            },
            Outcome::Error(e) => (Outcome::Error(e), rest),
            Outcome::Panic => (Outcome::Panic, rest),
        }
    }
}

/// Reading the properties `ps` into positional fields, the first of which is
/// field `index`, each taking the property named by its position, until one
/// fails.
pub open spec fn spec_unnamed_fields(
    types: Seq<TypeRegistration>,
    ps: Seq<(String, PropertyValue)>,
    fs: Seq<UnnamedField>,
    index: nat,
    owner: Seq<char>,
    can_load: bool,
    default: Option<ReflectValue>,
) -> (Outcome<Seq<DeserializedView>>, Seq<(String, PropertyValue)>)
    decreases props_size(ps), fs.len(),
{
    if fs.len() == 0 {
        (Outcome::Value(Seq::empty()), ps)
    } else {
        let rest = take(ps, decimal(index)).1;
        proof {
            lemma_take_size(ps, decimal(index));
        }
        match unnamed_field_step(types, ps, fs[0], index, owner, can_load, default) {
            Outcome::Value(v) => {
                let (r, left) = spec_unnamed_fields(types, rest, fs.drop_first(), index + 1, owner, can_load, default);
                (prepend(v, r), left)
            },
            Outcome::Error(e) => (Outcome::Error(e), rest),
            Outcome::Panic => (Outcome::Panic, rest),
        }
    }
}

/// A class value for an enum that selects no variant: a copy of the enum
/// default if there is one.
pub open spec fn enum_fallback(default: Option<ReflectValue>, path: Seq<char>) -> Outcome<DeserializedView> {
    match default {
        Some(d) => if d.data is Enum {
            Outcome::Value(DeserializedView::Default(rview(d)))
        } else {
            Outcome::Error(PropertyErrorView::MissingEnumProperties { type_path: path })
        },
        None => Outcome::Error(PropertyErrorView::MissingEnumProperties { type_path: path }),
    }
}

/// A class value for an enum that selects the variant `name` and gives its
/// fields in `ps`.
pub open spec fn spec_variant(
    types: Seq<TypeRegistration>,
    vs: Seq<VariantInfo>,
    name: Seq<char>,
    ps: Seq<(String, PropertyValue)>,
    path: Seq<char>,
    can_load: bool,
    default: Option<ReflectValue>,
) -> Outcome<DeserializedView>
    decreases props_size(ps) + 1, 0nat,
{
    if has_variant(vs, name) {
        let k = first_variant(vs, name);
        match vs[k] {
            VariantInfo::Struct { fields, .. } => match spec_named_fields(types, ps, fields@, path, can_load, default).0 {
                Outcome::Value(fv) => Outcome::Value(DeserializedView::Enum { type_path: path, variant: name, index: k, value: VariantValueView::Struct(fv) }),
                Outcome::Error(e) => Outcome::Error(e),
                Outcome::Panic => Outcome::Panic,
            },
            VariantInfo::Tuple { fields, .. } => match spec_unnamed_fields(types, ps, fields@, 0, path, can_load, default).0 {
                Outcome::Value(fv) => Outcome::Value(DeserializedView::Enum { type_path: path, variant: name, index: k, value: VariantValueView::Tuple(fv) }),
                Outcome::Error(e) => Outcome::Error(e),
                Outcome::Panic => Outcome::Panic,
            },
            VariantInfo::Unit { .. } => Outcome::Value(DeserializedView::Enum { type_path: path, variant: name, index: k, value: VariantValueView::Unit }),
        }
    } else {
        Outcome::Error(PropertyErrorView::UnknownVariant { type_path: path, variant: name })
    }
}

/// The path of asset handle types starts with this.
pub open spec fn handle_prefix() -> Seq<char> {
    "bevy_asset::handle::Handle"@
}

/// Reading the Tiled property `pv` into a value of the registered type
/// `reg`. `can_load` tells whether assets can be loaded; `default` is the
/// value handed down by an enclosing default, if any.
pub open spec fn spec_deserialize(
    types: Seq<TypeRegistration>,
    pv: PropertyValue,
    reg: TypeRegistration,
    can_load: bool,
    default: Option<ReflectValue>,
) -> Outcome<DeserializedView>
    decreases pv_size(pv), 2nat,
{
    let path = reg.type_path@;
    let unsupported = Outcome::Error(PropertyErrorView::Unsupported { type_path: path, value: pv });
    match pv {
        PropertyValue::BoolValue(b) => if path == "bool"@ {
            Outcome::Value(DeserializedView::Bool(b))
        } else {
            unsupported
        },
        PropertyValue::IntValue(i) => match int_kind(path) {
            Some(k) => if int_fits(k, i as int) {
                Outcome::Value(DeserializedView::Integer(k, i as int))
            } else {
                Outcome::Panic
            },
            None => if path == "f32"@ {
                Outcome::Value(DeserializedView::Float(FloatValue::I32AsF32(i)))
            } else if path == "f64"@ {
                Outcome::Value(DeserializedView::Float(FloatValue::I32AsF64(i)))
            } else {
                unsupported
            },
        },
        PropertyValue::FloatValue(f) => if path == "f32"@ {
            Outcome::Value(DeserializedView::Float(FloatValue::F32(f)))
        } else if path == "f64"@ {
            Outcome::Value(DeserializedView::Float(FloatValue::F32AsF64(f)))
        } else {
            unsupported
        },
        PropertyValue::ColorValue { red, green, blue, alpha } => if path == "bevy_color::color::Color"@ {
            Outcome::Value(DeserializedView::Color { red, green, blue, alpha })
        } else {
            unsupported
        },
        PropertyValue::StringValue(s) => if path == "alloc::string::String"@ {
            Outcome::Value(DeserializedView::Str(s@))
        } else if path == "char"@ {
            if s@.len() > 0 {
                Outcome::Value(DeserializedView::Char(s@[0]))
            } else {
                Outcome::Panic
            }
        } else {
            match reg.info {
                TypeInfo::Enum(vs) => if !has_variant(vs@, s@) {
                    Outcome::Error(PropertyErrorView::NoVariant { variant: s@, type_path: path })
                } else if vs@[first_variant(vs@, s@)] is Unit {
                    Outcome::Value(DeserializedView::UnitVariant { type_path: path, variant: s@ })
                } else {
                    Outcome::Error(PropertyErrorView::NotUnitVariant { variant: s@, type_path: path })
                },
                _ => unsupported,
            }
        },
        PropertyValue::FileValue(s) => if path == "std::path::PathBuf"@ {
            Outcome::Value(DeserializedView::Path(s@))
        } else if has_prefix(path, handle_prefix()) {
            if can_load {
                Outcome::Value(DeserializedView::Handle(s@))
            } else {
                Outcome::Error(PropertyErrorView::NoLoadContext)
            }
        } else {
            unsupported
        },
        PropertyValue::ObjectValue(o) => if path == "bevy_ecs::entity::Entity"@ {
            if o == 0 {
                Outcome::Error(PropertyErrorView::EmptyObjectReference)
            } else {
                Outcome::Value(DeserializedView::Entity(o))
            }
        } else if path == "core::option::Option<bevy_ecs::entity::Entity>"@ {
            Outcome::Value(DeserializedView::OptionEntity(if o != 0 { Some(o) } else { None }))
        } else {
            unsupported
        },
        PropertyValue::ClassValue { properties, .. } => {
            let ps = properties@;
            let d = class_default(reg, default);
            match reg.info {
                TypeInfo::Struct(fs) => match spec_named_fields(types, ps, fs@, path, can_load, d).0 {
                    Outcome::Value(fv) => Outcome::Value(DeserializedView::Struct { type_path: path, fields: fv }),
                    Outcome::Error(e) => Outcome::Error(e),
                    Outcome::Panic => Outcome::Panic,
                },
                TypeInfo::TupleStruct(fs) => match spec_unnamed_fields(types, ps, fs@, 0, path, can_load, d).0 {
                    Outcome::Value(fv) => Outcome::Value(DeserializedView::TupleStruct { type_path: path, fields: fv }),
                    Outcome::Error(e) => Outcome::Error(e),
                    Outcome::Panic => Outcome::Panic,
                },
                TypeInfo::Tuple(fs) => match spec_unnamed_fields(types, ps, fs@, 0, path, can_load, d).0 {
                    Outcome::Value(fv) => Outcome::Value(DeserializedView::Tuple { type_path: path, fields: fv }),
                    Outcome::Error(e) => Outcome::Error(e),
                    Outcome::Panic => Outcome::Panic,
                },
                TypeInfo::Array { item, .. } => if is_registered(types, item@) {
                    Outcome::Value(DeserializedView::Array { type_path: path })
                } else {
                    Outcome::Error(PropertyErrorView::NotRegistered { type_path: item@ })
                },
                TypeInfo::Enum(vs) => {
                    let (sel, rest) = take(ps, ":variant"@);
                    proof {
                        lemma_take_size(ps, ":variant"@);
                    }
                    match sel {
                        Some(PropertyValue::StringValue(name)) => {
                            let (vp, _) = take(rest, name@);
                            proof {
                                lemma_take_size(rest, name@);
                            }
                            match vp {
                                Some(PropertyValue::ClassValue { properties: vps, .. }) =>
                                    spec_variant(types, vs@, name@, vps@, path, can_load, d),
                                _ => enum_fallback(d, path),
                            }
                        },
                        _ => enum_fallback(d, path),
                    }
                },
                TypeInfo::List { .. } => Outcome::Error(PropertyErrorView::ListUnsupported),
                TypeInfo::Dictionary { .. } => Outcome::Error(PropertyErrorView::MapUnsupported),
                TypeInfo::SetOf { .. } => Outcome::Error(PropertyErrorView::SetUnsupported),
                TypeInfo::Opaque => unsupported,
            }
        },
    }
}

/// The exec result `r` is the outcome `o`.
pub open spec fn outcome_is(r: Result<Deserialized, ReadFailure>, o: Outcome<DeserializedView>) -> bool {
    match (r, o) {
        (Ok(v), Outcome::Value(w)) => v@ == w,
        (Err(ReadFailure::Error(e)), Outcome::Error(d)) => e@ == d,
        (Err(ReadFailure::Panic), Outcome::Panic) => true,
        _ => false,
    }
}

/// The exec result `r` is the outcome `o`.
pub open spec fn named_outcome_is(r: Result<Vec<(String, Deserialized)>, ReadFailure>, o: Outcome<Seq<(Seq<char>, DeserializedView)>>) -> bool {
    match (r, o) {
        (Ok(v), Outcome::Value(w)) => named_dviews(v@) == w,
        (Err(ReadFailure::Error(e)), Outcome::Error(d)) => e@ == d,
        (Err(ReadFailure::Panic), Outcome::Panic) => true,
        _ => false,
    }
}

/// The exec result `r` is the outcome `o`.
pub open spec fn positional_outcome_is(r: Result<Vec<Deserialized>, ReadFailure>, o: Outcome<Seq<DeserializedView>>) -> bool {
    match (r, o) {
        (Ok(v), Outcome::Value(w)) => dviews(v@) == w,
        (Err(ReadFailure::Error(e)), Outcome::Error(d)) => e@ == d,
        (Err(ReadFailure::Panic), Outcome::Panic) => true,
        _ => false,
    }
}

/// `o` with `prefix` put in front of its list.
pub open spec fn prepend_all<T>(prefix: Seq<T>, o: Outcome<Seq<T>>) -> Outcome<Seq<T>> {
    match o {
        Outcome::Value(vs) => Outcome::Value(prefix + vs),
        Outcome::Error(e) => Outcome::Error(e),
        Outcome::Panic => Outcome::Panic,
    }
}

/// Removes the first property named `key` and returns its value.
pub fn take_property(props: &mut Vec<(String, PropertyValue)>, key: &str) -> (r: Option<PropertyValue>)
    ensures
        r == take(old(props)@, key@).0,
        final(props)@ == take(old(props)@, key@).1,
{
    let mut i: usize = 0;
    while i < props.len()
        invariant
            i <= props@.len(),
            props@ == old(props)@,
            forall|j: int| 0 <= j < i ==> props@[j].0@ != key@,
        decreases props@.len() - i,
    {
        if crate::text::str_eq(props[i].0.as_str(), key) {
            proof {
                lemma_first_key(props@, key@);
                let k = first_key(props@, key@);
                assert(k == i) by {
                    if k < i {
                    } else if k > i {
                    }
                }
            }
            let (_, v) = props.remove(i);
            return Some(v);
        }
        i = i + 1;
    }
    None
}

/// Position of the first variant named `name`.
fn find_variant(vs: &Vec<VariantInfo>, name: &str) -> (r: Option<usize>)
    ensures
        match r {
            Some(k) => has_variant(vs@, name@) && k == first_variant(vs@, name@) && k < vs@.len(),
            None => !has_variant(vs@, name@),
        },
{
    let mut i: usize = 0;
    while i < vs.len()
        invariant
            i <= vs@.len(),
            forall|j: int| 0 <= j < i ==> vs@[j].spec_name() != name@,
        decreases vs@.len() - i,
    {
        if crate::text::str_eq(vs[i].name().as_str(), name) {
            proof {
                let k = first_variant(vs@, name@);
                assert(0 <= i < vs@.len() && vs@[i as int].spec_name() == name@
                    && forall|j: int| 0 <= j < i ==> vs@[j].spec_name() != name@);
                assert(k == i) by {
                    if k < i {
                    } else if k > i {
                    }
                }
            }
            return Some(i);
        }
        i = i + 1;
    }
    None
}

fn int_kind_of(path: &String) -> (r: Option<IntKind>)
    ensures
        r == int_kind(path@),
{
    if eq_lit(path, "i8") {
        Some(IntKind::I8)
    } else if eq_lit(path, "i16") {
        Some(IntKind::I16)
    } else if eq_lit(path, "i32") {
        Some(IntKind::I32)
    } else if eq_lit(path, "i64") {
        Some(IntKind::I64)
    } else if eq_lit(path, "i128") {
        Some(IntKind::I128)
    } else if eq_lit(path, "u8") {
        Some(IntKind::U8)
    } else if eq_lit(path, "u16") {
        Some(IntKind::U16)
    } else if eq_lit(path, "u32") {
        Some(IntKind::U32)
    } else if eq_lit(path, "u64") {
        Some(IntKind::U64)
    } else if eq_lit(path, "u128") {
        Some(IntKind::U128)
    } else {
        None
    }
}

fn fits(k: IntKind, i: i32) -> (r: bool)
    ensures
        r == int_fits(k, i as int),
{
    match k {
        IntKind::I8 => -128 <= i && i <= 127,
        IntKind::I16 => -32768 <= i && i <= 32767,
        IntKind::I32 | IntKind::I64 | IntKind::I128 => true,
        IntKind::U8 => 0 <= i && i <= 255,
        IntKind::U16 => 0 <= i && i <= 65535,
        IntKind::U32 | IntKind::U64 | IntKind::U128 => 0 <= i,
    }
}

fn fallback_value(registry: &TypeRegistry, field_default: Option<&ReflectValue>, type_path: &String, missing: PropertyError) -> (r: Result<Deserialized, ReadFailure>)
    requires
        registry.paths_distinct(),
    ensures
        outcome_is(r, fallback(registry.types@, deref_opt(field_default), type_path@, missing@)),
{
    match field_default {
        Some(fd) => Ok(Deserialized::Default(fd.copy_value())),
        None => match registry.get_with_type_path(type_path.as_str()) {
            Some(t) => match &t.default_value {
                Some(td) => Ok(Deserialized::Default(td.copy_value())),
                None => Err(ReadFailure::Error(missing)),
            },
            None => Err(ReadFailure::Error(missing)),
        },
    }
}

fn named_default_of<'a>(default: Option<&'a ReflectValue>, name: &str) -> (r: Option<&'a ReflectValue>)
    ensures
        deref_opt(r) == named_default(deref_opt(default), name@),
{
    match default {
        Some(d) => find_struct_field(d, name),
        None => None,
    }
}

fn positional_default_of<'a>(default: Option<&'a ReflectValue>, index: usize) -> (r: Option<&'a ReflectValue>)
    ensures
        deref_opt(r) == positional_default(deref_opt(default), index as int),
{
    match default {
        Some(d) => find_positional_field(d, index),
        None => None,
    }
}

fn deserialize_named_field(
    field: &NamedField,
    props: &mut Vec<(String, PropertyValue)>,
    owner: &String,
    registry: &TypeRegistry,
    can_load: bool,
    default: Option<&ReflectValue>,
) -> (r: Result<Deserialized, ReadFailure>)
    requires
        registry.paths_distinct(),
    ensures
        outcome_is(r, named_field_step(registry.types@, old(props)@, *field, owner@, can_load, deref_opt(default))),
        final(props)@ == take(old(props)@, field.name@).1,
    decreases props_size(old(props)@), 0nat,
{
    proof {
        lemma_take_size(props@, field.name@);
    }
    let fd = named_default_of(default, field.name.as_str());
    match take_property(props, field.name.as_str()) {
        Some(child) => match registry.get_with_type_path(field.type_path.as_str()) {
            Some(reg) => read_property(child, reg, registry, can_load, fd),
            None => Err(ReadFailure::Error(PropertyError::NotRegistered { type_path: field.type_path.clone() })),
        },
        None => fallback_value(registry, fd, &field.type_path,
            PropertyError::MissingNamedField { field: field.name.clone(), owner: owner.clone() }),
    }
}

fn deserialize_unnamed_field(
    field: &UnnamedField,
    index: usize,
    props: &mut Vec<(String, PropertyValue)>,
    owner: &String,
    registry: &TypeRegistry,
    can_load: bool,
    default: Option<&ReflectValue>,
) -> (r: Result<Deserialized, ReadFailure>)
    requires
        registry.paths_distinct(),
    ensures
        outcome_is(r, unnamed_field_step(registry.types@, old(props)@, *field, index as nat, owner@, can_load, deref_opt(default))),
        final(props)@ == take(old(props)@, decimal(index as nat)).1,
    decreases props_size(old(props)@), 0nat,
{
    proof {
        lemma_take_size(props@, decimal(index as nat));
    }
    let fd = positional_default_of(default, index);
    let key = usize_to_decimal(index);
    match take_property(props, key.as_str()) {
        Some(child) => match registry.get_with_type_path(field.type_path.as_str()) {
            Some(reg) => read_property(child, reg, registry, can_load, fd),
            None => Err(ReadFailure::Error(PropertyError::NotRegistered { type_path: field.type_path.clone() })),
        },
        None => fallback_value(registry, fd, &field.type_path,
            PropertyError::MissingPositionalField { index, owner: owner.clone() }),
    }
}

/// Reads the properties into the named fields in turn, until one fails.
fn deserialize_named_fields(
    props_in: Vec<(String, PropertyValue)>,
    fields: &Vec<NamedField>,
    owner: &String,
    registry: &TypeRegistry,
    can_load: bool,
    default: Option<&ReflectValue>,
) -> (r: Result<Vec<(String, Deserialized)>, ReadFailure>)
    requires
        registry.paths_distinct(),
    ensures
        named_outcome_is(r, spec_named_fields(registry.types@, props_in@, fields@, owner@, can_load, deref_opt(default)).0),
    decreases props_size(props_in@), 1nat,
{
    let ghost types = registry.types@;
    let ghost dd = deref_opt(default);
    let ghost total = spec_named_fields(types, props_in@, fields@, owner@, can_load, dd).0;
    let ghost size0 = props_size(props_in@);
    let mut props = props_in;
    let mut out: Vec<(String, Deserialized)> = Vec::new();
    let mut i: usize = 0;
    assert(fields@.subrange(0, fields@.len() as int) =~= fields@);
    while i < fields.len()
        invariant
            registry.paths_distinct(),
            types == registry.types@,
            dd == deref_opt(default),
            i <= fields@.len(),
            props_size(props@) <= size0,
            size0 == props_size(props_in@),
            total == spec_named_fields(types, props_in@, fields@, owner@, can_load, dd).0,
            total == prepend_all(named_dviews(out@),
                spec_named_fields(types, props@, fields@.subrange(i as int, fields@.len() as int), owner@, can_load, dd).0),
        decreases fields@.len() - i,
    {
        let ghost ps = props@;
        let ghost suffix = fields@.subrange(i as int, fields@.len() as int);
        proof {
            assert(suffix[0] == fields@[i as int]);
            assert(suffix.drop_first() =~= fields@.subrange(i + 1, fields@.len() as int));
            lemma_take_size(ps, fields@[i as int].name@);
        }
        let r = deserialize_named_field(&fields[i], &mut props, owner, registry, can_load, default);
        match r {
            Ok(v) => {
                let ghost before = out@;
                out.push((fields[i].name.clone(), v));
                proof {
                    assert(out@.drop_last() =~= before);
                    let rest = spec_named_fields(types, props@, fields@.subrange(i + 1, fields@.len() as int), owner@, can_load, dd).0;
                    match rest {
                        Outcome::Value(vs) => {
                            assert(named_dviews(before) + (seq![(fields@[i as int].name@, v@)] + vs)
                                =~= named_dviews(out@) + vs);
                        },
                        _ => {},
                    }
                }
            },
            Err(e) => {
                return Err(e);
            },
        }
        i = i + 1;
    }
    proof {
        assert(fields@.subrange(i as int, fields@.len() as int) =~= Seq::<NamedField>::empty());
        assert(named_dviews(out@) + Seq::<(Seq<char>, DeserializedView)>::empty() =~= named_dviews(out@));
    }
    Ok(out)
}

/// Reads the properties into the positional fields in turn, until one fails.
fn deserialize_unnamed_fields(
    props_in: Vec<(String, PropertyValue)>,
    fields: &Vec<UnnamedField>,
    owner: &String,
    registry: &TypeRegistry,
    can_load: bool,
    default: Option<&ReflectValue>,
) -> (r: Result<Vec<Deserialized>, ReadFailure>)
    requires
        registry.paths_distinct(),
    ensures
        positional_outcome_is(r, spec_unnamed_fields(registry.types@, props_in@, fields@, 0, owner@, can_load, deref_opt(default)).0),
    decreases props_size(props_in@), 1nat,
{
    let ghost types = registry.types@;
    let ghost dd = deref_opt(default);
    let ghost total = spec_unnamed_fields(types, props_in@, fields@, 0, owner@, can_load, dd).0;
    let ghost size0 = props_size(props_in@);
    let mut props = props_in;
    let mut out: Vec<Deserialized> = Vec::new();
    let mut i: usize = 0;
    assert(fields@.subrange(0, fields@.len() as int) =~= fields@);
    while i < fields.len()
        invariant
            registry.paths_distinct(),
            types == registry.types@,
            dd == deref_opt(default),
            i <= fields@.len(),
            props_size(props@) <= size0,
            size0 == props_size(props_in@),
            total == spec_unnamed_fields(types, props_in@, fields@, 0, owner@, can_load, dd).0,
            total == prepend_all(dviews(out@),
                spec_unnamed_fields(types, props@, fields@.subrange(i as int, fields@.len() as int), i as nat, owner@, can_load, dd).0),
        decreases fields@.len() - i,
    {
        let ghost ps = props@;
        let ghost suffix = fields@.subrange(i as int, fields@.len() as int);
        proof {
            assert(suffix[0] == fields@[i as int]);
            assert(suffix.drop_first() =~= fields@.subrange(i + 1, fields@.len() as int));
            lemma_take_size(ps, decimal(i as nat));
        }
        let r = deserialize_unnamed_field(&fields[i], i, &mut props, owner, registry, can_load, default);
        match r {
            Ok(v) => {
                let ghost before = out@;
                out.push(v);
                proof {
                    assert(out@.drop_last() =~= before);
                    let rest = spec_unnamed_fields(types, props@, fields@.subrange(i + 1, fields@.len() as int), (i + 1) as nat, owner@, can_load, dd).0;
                    match rest {
                        Outcome::Value(vs) => {
                            assert(dviews(before) + (seq![v@] + vs) =~= dviews(out@) + vs);
                        },
                        _ => {},
                    }
                }
            },
            Err(e) => {
                return Err(e);
            },
        }
        i = i + 1;
    }
    proof {
        assert(fields@.subrange(i as int, fields@.len() as int) =~= Seq::<UnnamedField>::empty());
        assert(dviews(out@) + Seq::<DeserializedView>::empty() =~= dviews(out@));
    }
    Ok(out)
}

fn enum_fallback_value(default: Option<&ReflectValue>, path: &String) -> (r: Result<Deserialized, ReadFailure>)
    ensures
        outcome_is(r, enum_fallback(deref_opt(default), path@)),
{
    match default {
        Some(d) => match &d.data {
            ReflectData::Enum { .. } => Ok(Deserialized::Default(d.copy_value())),
            _ => Err(ReadFailure::Error(PropertyError::MissingEnumProperties { type_path: path.clone() })),
        },
        None => Err(ReadFailure::Error(PropertyError::MissingEnumProperties { type_path: path.clone() })),
    }
}

fn deserialize_variant(
    vs: &Vec<VariantInfo>,
    name: String,
    props: Vec<(String, PropertyValue)>,
    path: &String,
    registry: &TypeRegistry,
    can_load: bool,
    default: Option<&ReflectValue>,
) -> (r: Result<Deserialized, ReadFailure>)
    requires
        registry.paths_distinct(),
    ensures
        outcome_is(r, spec_variant(registry.types@, vs@, name@, props@, path@, can_load, deref_opt(default))),
    decreases props_size(props@) + 1, 0nat,
{
    match find_variant(vs, name.as_str()) {
        Some(k) => match &vs[k] {
            VariantInfo::Struct { fields, .. } => {
                let fv = deserialize_named_fields(props, fields, path, registry, can_load, default)?;
                Ok(Deserialized::Enum { type_path: path.clone(), variant: name, index: k, value: VariantValue::Struct(fv) })
            },
            VariantInfo::Tuple { fields, .. } => {
                let fv = deserialize_unnamed_fields(props, fields, path, registry, can_load, default)?;
                Ok(Deserialized::Enum { type_path: path.clone(), variant: name, index: k, value: VariantValue::Tuple(fv) })
            },
            VariantInfo::Unit { .. } => {
                Ok(Deserialized::Enum { type_path: path.clone(), variant: name, index: k, value: VariantValue::Unit })
            },
        },
        None => Err(ReadFailure::Error(PropertyError::UnknownVariant { type_path: path.clone(), variant: name })),
    }
}

/// Reads the Tiled property `property` into a value of the registered type
/// `registration`, or tells why it cannot, or that reading it panics.
/// `can_load` tells whether assets can be loaded here; `default_value` is
/// the value handed down by an enclosing default.
#[verifier::rlimit(60)]
pub fn read_property(
    property: PropertyValue,
    registration: &TypeRegistration,
    registry: &TypeRegistry,
    can_load: bool,
    default_value: Option<&ReflectValue>,
) -> (r: Result<Deserialized, ReadFailure>)
    requires
        registry.paths_distinct(),
    ensures
        outcome_is(r, spec_deserialize(registry.types@, property, *registration, can_load, deref_opt(default_value))),
    decreases pv_size(property), 2nat,
{
    let path = &registration.type_path;
    match property {
        PropertyValue::BoolValue(b) => {
            if eq_lit(path, "bool") {
                Ok(Deserialized::Bool(b))
            } else {
                Err(ReadFailure::Error(PropertyError::Unsupported { type_path: path.clone(), value: PropertyValue::BoolValue(b) }))
            }
        },
        PropertyValue::IntValue(i) => match int_kind_of(path) {
            Some(k) => {
                if fits(k, i) {
                    Ok(Deserialized::Integer(k, i))
                } else {
                    Err(ReadFailure::Panic)
                }
            },
            None => {
                if eq_lit(path, "f32") {
                    Ok(Deserialized::Float(FloatValue::I32AsF32(i)))
                } else if eq_lit(path, "f64") {
                    Ok(Deserialized::Float(FloatValue::I32AsF64(i)))
                } else {
                    Err(ReadFailure::Error(PropertyError::Unsupported { type_path: path.clone(), value: PropertyValue::IntValue(i) }))
                }
            },
        },
        PropertyValue::FloatValue(f) => {
            if eq_lit(path, "f32") {
                Ok(Deserialized::Float(FloatValue::F32(f)))
            } else if eq_lit(path, "f64") {
                Ok(Deserialized::Float(FloatValue::F32AsF64(f)))
            } else {
                Err(ReadFailure::Error(PropertyError::Unsupported { type_path: path.clone(), value: PropertyValue::FloatValue(f) }))
            }
        },
        PropertyValue::ColorValue { red, green, blue, alpha } => {
            if eq_lit(path, "bevy_color::color::Color") {
                Ok(Deserialized::Color { red, green, blue, alpha })
            } else {
                Err(ReadFailure::Error(PropertyError::Unsupported { type_path: path.clone(), value: PropertyValue::ColorValue { red, green, blue, alpha } }))
            }
        },
        PropertyValue::StringValue(s) => {
            if eq_lit(path, "alloc::string::String") {
                Ok(Deserialized::Str(s))
            } else if eq_lit(path, "char") {
                let n = s.as_str().unicode_len();
                if n > 0 {
                    let c = s.as_str().get_char(0);
                    Ok(Deserialized::Char(c))
                } else {
                    Err(ReadFailure::Panic)
                }
            } else {
                match &registration.info {
                    TypeInfo::Enum(vs) => match find_variant(vs, s.as_str()) {
                        None => Err(ReadFailure::Error(PropertyError::NoVariant { variant: s, type_path: path.clone() })),
                        Some(k) => match &vs[k] {
                            VariantInfo::Unit { .. } => Ok(Deserialized::UnitVariant { type_path: path.clone(), variant: s }),
                            _ => Err(ReadFailure::Error(PropertyError::NotUnitVariant { variant: s, type_path: path.clone() })),
                        },
                    },
                    _ => Err(ReadFailure::Error(PropertyError::Unsupported { type_path: path.clone(), value: PropertyValue::StringValue(s) })),
                }
            }
        },
        PropertyValue::FileValue(s) => {
            if eq_lit(path, "std::path::PathBuf") {
                Ok(Deserialized::Path(s))
            } else if starts_with(path.as_str(), "bevy_asset::handle::Handle") {
                if can_load {
                    Ok(Deserialized::Handle(s))
                } else {
                    Err(ReadFailure::Error(PropertyError::NoLoadContext))
                }
            } else {
                Err(ReadFailure::Error(PropertyError::Unsupported { type_path: path.clone(), value: PropertyValue::FileValue(s) }))
            }
        },
        PropertyValue::ObjectValue(o) => {
            if eq_lit(path, "bevy_ecs::entity::Entity") {
                if o == 0 {
                    Err(ReadFailure::Error(PropertyError::EmptyObjectReference))
                } else {
                    Ok(Deserialized::Entity(o))
                }
            } else if eq_lit(path, "core::option::Option<bevy_ecs::entity::Entity>") {
                Ok(Deserialized::OptionEntity(if o != 0 { Some(o) } else { None }))
            } else {
                Err(ReadFailure::Error(PropertyError::Unsupported { type_path: path.clone(), value: PropertyValue::ObjectValue(o) }))
            }
        },
        PropertyValue::ClassValue { property_type, properties } => {
            let d: Option<&ReflectValue> = match &registration.default_value {
                Some(x) => Some(x),
                None => default_value,
            };
            assert(deref_opt(d) == class_default(*registration, deref_opt(default_value)));
            match &registration.info {
                TypeInfo::Struct(fs) => {
                    let fv = deserialize_named_fields(properties, fs, path, registry, can_load, d)?;
                    Ok(Deserialized::Struct { type_path: path.clone(), fields: fv })
                },
                TypeInfo::TupleStruct(fs) => {
                    let fv = deserialize_unnamed_fields(properties, fs, path, registry, can_load, d)?;
                    Ok(Deserialized::TupleStruct { type_path: path.clone(), fields: fv })
                },
                TypeInfo::Tuple(fs) => {
                    let fv = deserialize_unnamed_fields(properties, fs, path, registry, can_load, d)?;
                    Ok(Deserialized::Tuple { type_path: path.clone(), fields: fv })
                },
                TypeInfo::Array { item, .. } => match registry.get_with_type_path(item.as_str()) {
                    Some(_) => Ok(Deserialized::Array { type_path: path.clone() }),
                    None => Err(ReadFailure::Error(PropertyError::NotRegistered { type_path: item.clone() })),
                },
                TypeInfo::Enum(vs) => {
                    let ghost ps = properties@;
                    let mut props = properties;
                    proof {
                        reveal_strlit(":variant");
                        lemma_take_size(ps, ":variant"@);
                    }
                    match take_property(&mut props, ":variant") {
                        Some(PropertyValue::StringValue(name)) => {
                            let ghost rest = props@;
                            proof {
                                lemma_take_size(rest, name@);
                            }
                            match take_property(&mut props, name.as_str()) {
                                Some(PropertyValue::ClassValue { property_type: _, properties: vps }) => {
                                    deserialize_variant(vs, name, vps, path, registry, can_load, d)
                                },
                                _ => enum_fallback_value(d, path),
                            }
                        },
                        _ => enum_fallback_value(d, path),
                    }
                },
                TypeInfo::List { .. } => Err(ReadFailure::Error(PropertyError::ListUnsupported)),
                TypeInfo::Dictionary { .. } => Err(ReadFailure::Error(PropertyError::MapUnsupported)),
                TypeInfo::SetOf { .. } => Err(ReadFailure::Error(PropertyError::SetUnsupported)),
                TypeInfo::Opaque => Err(ReadFailure::Error(PropertyError::Unsupported { type_path: path.clone(), value: PropertyValue::ClassValue { property_type, properties } })),
            }
        },
    }
}


/// The exec result `r` is the outcome `o`, which is not a panic.
pub open spec fn result_is(r: Result<Deserialized, PropertyError>, o: Outcome<DeserializedView>) -> bool {
    match (r, o) {
        (Ok(v), Outcome::Value(w)) => v@ == w,
        (Err(e), Outcome::Error(d)) => e@ == d,
        _ => false,
    }
}

/// Reads the Tiled property `property` into a value of the registered type
/// `registration`. `can_load` tells whether assets can be loaded here;
/// `default_value` is the value handed down by an enclosing default.
pub fn deserialize_property(
    property: PropertyValue,
    registration: &TypeRegistration,
    registry: &TypeRegistry,
    can_load: bool,
    default_value: Option<&ReflectValue>,
) -> (r: Result<Deserialized, PropertyError>)
    requires
        registry.paths_distinct(),
        !(spec_deserialize(registry.types@, property, *registration, can_load, deref_opt(default_value)) is Panic),
    ensures
        result_is(r, spec_deserialize(registry.types@, property, *registration, can_load, deref_opt(default_value))),
{
    match read_property(property, registration, registry, can_load, default_value) {
        Ok(v) => Ok(v),
        Err(ReadFailure::Error(e)) => Err(e),
        Err(ReadFailure::Panic) => {
            proof {
                assert(false);
            }
            Err(PropertyError::NoLoadContext)
        },
    }
}

/// A property kept for an entity: an asset to load from a path, or a value.
#[derive(Debug, PartialEq, Eq)]
pub enum LoadedProperty {
    Asset(String),
    Value(Deserialized),
}

/// Abstract view of [`LoadedProperty`].
pub enum LoadedView {
    Asset(Seq<char>),
    Value(DeserializedView),
}

/// Views of loaded properties.
pub open spec fn loaded_views(s: Seq<LoadedProperty>) -> Seq<LoadedView> {
    s.map_values(|p: LoadedProperty| match p {
        LoadedProperty::Asset(f) => LoadedView::Asset(f@),
        LoadedProperty::Value(v) => LoadedView::Value(v@),
    })
}

/// A registered type whose values can be put on an entity: a component or a
/// bundle, or a resource where resources are allowed.
pub open spec fn insertable(reg: TypeRegistration, resources_allowed: bool) -> bool {
    reg.is_component || reg.is_bundle || (reg.is_resource && resources_allowed)
}

/// What one property of an entity gives: a class value of an insertable
/// registered type gives the value read from it (nothing if reading fails),
/// a file value gives an asset to load, anything else nothing.
#[verifier::opaque]
pub open spec fn spec_load_one(types: Seq<TypeRegistration>, pv: PropertyValue, resources_allowed: bool) -> Seq<LoadedView> {
    match pv {
        PropertyValue::ClassValue { property_type, .. } =>
            if is_registered(types, property_type@) && insertable(lookup(types, property_type@), resources_allowed) {
                match spec_deserialize(types, pv, lookup(types, property_type@), true, None) {
                    Outcome::Value(v) => seq![LoadedView::Value(v)],
                    _ => Seq::empty(),
                }
            } else {
                Seq::empty()
            },
        PropertyValue::FileValue(f) => seq![LoadedView::Asset(f@)],
        _ => Seq::empty(),
    }
}

/// What the properties of an entity give, in their order.
pub open spec fn spec_load(types: Seq<TypeRegistration>, props: Seq<(String, PropertyValue)>, resources_allowed: bool) -> Seq<LoadedView>
    decreases props.len(),
{
    if props.len() == 0 {
        Seq::empty()
    } else {
        spec_load_one(types, props[0].1, resources_allowed) + spec_load(types, props.drop_first(), resources_allowed)
    }
}

/// Reading the property `pv` panics.
#[verifier::opaque]
pub open spec fn load_one_panics(types: Seq<TypeRegistration>, pv: PropertyValue, resources_allowed: bool) -> bool {
    match pv {
        PropertyValue::ClassValue { property_type, .. } =>
            is_registered(types, property_type@) && insertable(lookup(types, property_type@), resources_allowed)
                && spec_deserialize(types, pv, lookup(types, property_type@), true, None) is Panic,
        _ => false,
    }
}

fn load_one(pv: PropertyValue, registry: &TypeRegistry, resources_allowed: bool) -> (r: Option<Vec<LoadedProperty>>)
    requires
        registry.paths_distinct(),
    ensures
        match r {
            Some(v) => loaded_views(v@) == spec_load_one(registry.types@, pv, resources_allowed)
                && !load_one_panics(registry.types@, pv, resources_allowed),
            None => load_one_panics(registry.types@, pv, resources_allowed),
        },
{
    proof {
        reveal(spec_load_one);
        reveal(load_one_panics);
    }
    let ghost types = registry.types@;
    let ghost pv0 = pv;
    let mut out: Vec<LoadedProperty> = Vec::new();
    match pv {
        PropertyValue::ClassValue { property_type, properties: ps } => {
            let pv2 = PropertyValue::ClassValue { property_type: property_type.clone(), properties: ps };
            assert(pv2 == pv0);
            match registry.get_with_type_path(property_type.as_str()) {
                Some(reg) => {
                    if reg.is_component || reg.is_bundle || (reg.is_resource && resources_allowed) {
                        match read_property(pv2, reg, registry, true, None) {
                            Ok(v) => {
                                out.push(LoadedProperty::Value(v));
                            },
                            Err(ReadFailure::Error(_)) => {},
                            Err(ReadFailure::Panic) => {
                                return None;
                            },
                        }
                    }
                },
                None => {},
            }
        },
        PropertyValue::FileValue(f) => {
            out.push(LoadedProperty::Asset(f));
        },
        _ => {},
    }
    assert(loaded_views(out@) =~= spec_load_one(types, pv0, resources_allowed));
    Some(out)
}

/// Reads the properties of an entity (of the map itself when
/// `resources_allowed`): the values of its class properties of insertable
/// registered types, and the assets its file properties name, in order.
/// Properties that cannot be read are left out. `None` when reading one of
/// them panics.
pub fn load_properties(properties: Vec<(String, PropertyValue)>, registry: &TypeRegistry, resources_allowed: bool) -> (r: Option<Vec<LoadedProperty>>)
    requires
        registry.paths_distinct(),
    ensures
        match r {
            Some(v) => loaded_views(v@) == spec_load(registry.types@, properties@, resources_allowed)
                && forall|k: int| 0 <= k < properties@.len() ==> !load_one_panics(registry.types@, #[trigger] properties@[k].1, resources_allowed),
            None => exists|k: int| 0 <= k < properties@.len() && load_one_panics(registry.types@, #[trigger] properties@[k].1, resources_allowed),
        },
{
    let ghost types = registry.types@;
    let ghost orig = properties@;
    let mut props = properties;
    let mut out: Vec<LoadedProperty> = Vec::new();
    while props.len() > 0
        invariant
            registry.paths_distinct(),
            types == registry.types@,
            orig == properties@,
            props@.len() <= orig.len(),
            props@ == orig.subrange(orig.len() - props@.len(), orig.len() as int),
            forall|k: int| 0 <= k < orig.len() - props@.len() ==> !load_one_panics(types, #[trigger] orig[k].1, resources_allowed),
            spec_load(types, orig, resources_allowed) == loaded_views(out@) + spec_load(types, props@, resources_allowed),
        decreases props@.len(),
    {
        let ghost before = props@;
        let ghost at = orig.len() - before.len();
        let (_, pv) = props.remove(0);
        assert(props@ =~= before.drop_first());
        assert(before[0] == orig[at]);
        assert(props@ =~= orig.subrange(orig.len() - props@.len(), orig.len() as int));
        let ghost outv = loaded_views(out@);
        match load_one(pv, registry, resources_allowed) {
            Some(more) => {
                let ghost one = loaded_views(more@);
                let mut more = more;
                out.append(&mut more);
                assert(loaded_views(out@) =~= outv + one);
                assert(outv + one + spec_load(types, props@, resources_allowed) =~= loaded_views(out@) + spec_load(types, props@, resources_allowed));
            },
            None => {
                assert(load_one_panics(types, properties@[at].1, resources_allowed));
                return None;
            },
        }
    }
    assert(loaded_views(out@) + Seq::<LoadedView>::empty() =~= loaded_views(out@));
    Some(out)
}

proof fn lemma_named_fields_names(
    types: Seq<TypeRegistration>,
    ps: Seq<(String, PropertyValue)>,
    fs: Seq<NamedField>,
    owner: Seq<char>,
    can_load: bool,
    default: Option<ReflectValue>,
)
    ensures
        spec_named_fields(types, ps, fs, owner, can_load, default).0 matches Outcome::Value(vs) ==>
            vs.len() == fs.len() && forall|k: int| 0 <= k < fs.len() ==> #[trigger] vs[k].0 == fs[k].name@,
    decreases fs.len(),
{
    if fs.len() > 0 {
        let rest = take(ps, fs[0].name@).1;
        lemma_named_fields_names(types, rest, fs.drop_first(), owner, can_load, default);
        match spec_named_fields(types, ps, fs, owner, can_load, default).0 {
            Outcome::Value(vs) => {
                assert forall|k: int| 0 <= k < fs.len() implies #[trigger] vs[k].0 == fs[k].name@ by {
                    if k > 0 {
                        assert(fs.drop_first()[k - 1] == fs[k]);
                    }
                }
            },
            _ => {},
        }
    }
}

proof fn lemma_unnamed_fields_count(
    types: Seq<TypeRegistration>,
    ps: Seq<(String, PropertyValue)>,
    fs: Seq<UnnamedField>,
    index: nat,
    owner: Seq<char>,
    can_load: bool,
    default: Option<ReflectValue>,
)
    ensures
        spec_unnamed_fields(types, ps, fs, index, owner, can_load, default).0 matches Outcome::Value(vs) ==> vs.len() == fs.len(),
    decreases fs.len(),
{
    if fs.len() > 0 {
        let rest = take(ps, decimal(index)).1;
        lemma_unnamed_fields_count(types, rest, fs.drop_first(), index + 1, owner, can_load, default);
    }
}

/// A `bool` property read into `bool` keeps its truth value, and a `color`
/// property read into a color keeps its bytes.
pub proof fn lemma_plain_bool_color(types: Seq<TypeRegistration>, reg: TypeRegistration, can_load: bool, default: Option<ReflectValue>, b: bool, red: u8, green: u8, blue: u8, alpha: u8)
    ensures
        reg.type_path@ == "bool"@ ==> spec_deserialize(types, PropertyValue::BoolValue(b), reg, can_load, default)
            == Outcome::Value(DeserializedView::Bool(b)),
        reg.type_path@ == "bevy_color::color::Color"@ ==> spec_deserialize(types, PropertyValue::ColorValue { red, green, blue, alpha }, reg, can_load, default)
            == Outcome::Value(DeserializedView::Color { red, green, blue, alpha }),
{
}

/// An `int` property keeps its integer: read into `i32` always, into `u8`
/// when it fits (the conversion panics otherwise), and into `f32` as the
/// float nearest to it.
#[verifier::rlimit(40)]
pub proof fn lemma_plain_integers(types: Seq<TypeRegistration>, reg: TypeRegistration, can_load: bool, default: Option<ReflectValue>, i: i32)
    ensures
        reg.type_path@ == "i32"@ ==> spec_deserialize(types, PropertyValue::IntValue(i), reg, can_load, default)
            == Outcome::Value(DeserializedView::Integer(IntKind::I32, i as int)),
        reg.type_path@ == "u8"@ ==> spec_deserialize(types, PropertyValue::IntValue(i), reg, can_load, default)
            == if 0 <= i <= 255 { Outcome::Value(DeserializedView::Integer(IntKind::U8, i as int)) } else { Outcome::Panic },
        reg.type_path@ == "f32"@ ==> spec_deserialize(types, PropertyValue::IntValue(i), reg, can_load, default)
            == Outcome::Value(DeserializedView::Float(FloatValue::I32AsF32(i))),
{
    let p = reg.type_path@;
    if p == "i32"@ {
        reveal_strlit("i8");
        reveal_strlit("i16");
        reveal_strlit("i32");
        assert(p[1] != "i16"@[1]);
        assert(int_kind(p) == Some(IntKind::I32));
    }
    if p == "u8"@ {
        reveal_strlit("i8");
        reveal_strlit("i16");
        reveal_strlit("i32");
        reveal_strlit("i64");
        reveal_strlit("i128");
        reveal_strlit("u8");
        assert(p[0] != "i8"@[0]);
        assert(int_kind(p) == Some(IntKind::U8));
    }
    if p == "f32"@ {
        reveal_strlit("i8");
        reveal_strlit("i16");
        reveal_strlit("i32");
        reveal_strlit("i64");
        reveal_strlit("i128");
        reveal_strlit("u8");
        reveal_strlit("u16");
        reveal_strlit("u32");
        reveal_strlit("u64");
        reveal_strlit("u128");
        reveal_strlit("f32");
        assert(p[0] != "i8"@[0] && p[0] != "u8"@[0]);
        assert(p != "i8"@ && p != "i16"@ && p != "i32"@ && p != "i64"@ && p != "i128"@);
        assert(p != "u8"@ && p != "u16"@ && p != "u32"@ && p != "u64"@ && p != "u128"@);
        assert(int_kind(p) is None);
    }
}

/// A `float` property keeps its bits: as an `f32`, or widened to an `f64`.
pub proof fn lemma_plain_floats(types: Seq<TypeRegistration>, reg: TypeRegistration, can_load: bool, default: Option<ReflectValue>, f: u32)
    ensures
        reg.type_path@ == "f32"@ ==> spec_deserialize(types, PropertyValue::FloatValue(f), reg, can_load, default)
            == Outcome::Value(DeserializedView::Float(FloatValue::F32(f))),
        reg.type_path@ == "f64"@ ==> spec_deserialize(types, PropertyValue::FloatValue(f), reg, can_load, default)
            == Outcome::Value(DeserializedView::Float(FloatValue::F32AsF64(f))),
{
    reveal_strlit("f32");
    reveal_strlit("f64");
    assert("f32"@[1] != "f64"@[1]);
}

/// A `string` property read into `String` keeps its text, and into `char`
/// gives its first character (the reading panics on an empty string); a
/// `file` property read into a path keeps its path.
pub proof fn lemma_plain_text(types: Seq<TypeRegistration>, reg: TypeRegistration, can_load: bool, default: Option<ReflectValue>, s: String)
    ensures
        reg.type_path@ == "alloc::string::String"@ ==> spec_deserialize(types, PropertyValue::StringValue(s), reg, can_load, default)
            == Outcome::Value(DeserializedView::Str(s@)),
        reg.type_path@ == "char"@ ==> spec_deserialize(types, PropertyValue::StringValue(s), reg, can_load, default)
            == if s@.len() > 0 { Outcome::Value(DeserializedView::Char(s@[0])) } else { Outcome::Panic },
        reg.type_path@ == "std::path::PathBuf"@ ==> spec_deserialize(types, PropertyValue::FileValue(s), reg, can_load, default)
            == Outcome::Value(DeserializedView::Path(s@)),
{
    reveal_strlit("alloc::string::String");
    reveal_strlit("char");
}

/// An object property read into an `Entity` refers to the object it names,
/// and one naming no object (identifier 0) is refused; read into an
/// `Option<Entity>`, it refers to the object it names, and is `None` exactly
/// when it names no object.
pub proof fn lemma_object_references(types: Seq<TypeRegistration>, o: u32, reg: TypeRegistration, can_load: bool, default: Option<ReflectValue>)
    ensures
        reg.type_path@ == "bevy_ecs::entity::Entity"@ ==> spec_deserialize(types, PropertyValue::ObjectValue(o), reg, can_load, default) == (if o != 0 {
            Outcome::Value(DeserializedView::Entity(o))
        } else {
            Outcome::<DeserializedView>::Error(PropertyErrorView::EmptyObjectReference)
        }),
        reg.type_path@ == "core::option::Option<bevy_ecs::entity::Entity>"@ ==> {
            &&& o != 0 ==> spec_deserialize(types, PropertyValue::ObjectValue(o), reg, can_load, default) == Outcome::Value(DeserializedView::OptionEntity(Some(o)))
            &&& o == 0 ==> spec_deserialize(types, PropertyValue::ObjectValue(o), reg, can_load, default) == Outcome::Value(DeserializedView::OptionEntity(None))
        },
{
    reveal_strlit("bevy_ecs::entity::Entity");
    reveal_strlit("core::option::Option<bevy_ecs::entity::Entity>");
    assert("bevy_ecs::entity::Entity"@.len() != "core::option::Option<bevy_ecs::entity::Entity>"@.len());
}

/// A value read for a struct, tuple struct or tuple type has exactly the
/// type's fields, in the type's order; an integer always fits its type.
#[verifier::rlimit(80)]
pub proof fn lemma_read_value_shape(types: Seq<TypeRegistration>, pv: PropertyValue, reg: TypeRegistration, can_load: bool, default: Option<ReflectValue>)
    ensures
        spec_deserialize(types, pv, reg, can_load, default) matches Outcome::Value(v) ==> match (v, reg.info) {
            (DeserializedView::Struct { type_path, fields }, TypeInfo::Struct(fs)) =>
                type_path == reg.type_path@ && fields.len() == fs@.len()
                    && forall|k: int| 0 <= k < fs@.len() ==> #[trigger] fields[k].0 == fs@[k].name@,
            (DeserializedView::TupleStruct { fields, .. }, TypeInfo::TupleStruct(fs)) => fields.len() == fs@.len(),
            (DeserializedView::Tuple { fields, .. }, TypeInfo::Tuple(fs)) => fields.len() == fs@.len(),
            (DeserializedView::Integer(k, i), _) => int_fits(k, i) && int_kind(reg.type_path@) == Some(k),
            _ => true,
        },
{
    match pv {
        PropertyValue::ClassValue { properties, .. } => {
            let d = class_default(reg, default);
            match reg.info {
                TypeInfo::Struct(fs) => {
                    lemma_named_fields_names(types, properties@, fs@, reg.type_path@, can_load, d);
                },
                TypeInfo::TupleStruct(fs) => {
                    lemma_unnamed_fields_count(types, properties@, fs@, 0, reg.type_path@, can_load, d);
                },
                TypeInfo::Tuple(fs) => {
                    lemma_unnamed_fields_count(types, properties@, fs@, 0, reg.type_path@, can_load, d);
                },
                _ => {},
            }
        },
        _ => {},
    }
}

/// Reading the properties of an entity keeps at most one value per
/// property, and every file property gives an asset to load.
pub proof fn lemma_load_count(types: Seq<TypeRegistration>, props: Seq<(String, PropertyValue)>, resources_allowed: bool)
    ensures
        spec_load(types, props, resources_allowed).len() <= props.len(),
        (forall|k: int| 0 <= k < props.len() ==> #[trigger] props[k].1 is FileValue)
            ==> spec_load(types, props, resources_allowed).len() == props.len(),
    decreases props.len(),
{
    reveal(spec_load_one);
    if props.len() > 0 {
        lemma_load_count(types, props.drop_first(), resources_allowed);
        if forall|k: int| 0 <= k < props.len() ==> #[trigger] props[k].1 is FileValue {
            assert forall|k: int| 0 <= k < props.drop_first().len() implies #[trigger] props.drop_first()[k].1 is FileValue by {
                assert(props.drop_first()[k] == props[k + 1]);
            }
            assert(props[0].1 is FileValue);
        }
    }
}


/// The entity spawned for object `o`: the first one recorded for it.
pub open spec fn object_entity(objects: Seq<(u32, u64)>, o: u32) -> Option<u64> {
    if exists|k: int| 0 <= k < objects.len() && objects[k].0 == o {
        Some(objects[choose|k: int| 0 <= k < objects.len() && objects[k].0 == o
            && forall|j: int| 0 <= j < k ==> objects[j].0 != o].1)
    } else {
        None
    }
}

/// Every object that a default value refers to (not through an optional
/// entity) has a spawned entity.
pub open spec fn value_refs_known(v: ReflectValue, objects: Seq<(u32, u64)>) -> bool
    decreases v,
{
    match v.data {
        ReflectData::Entity(o) => object_entity(objects, o) is Some,
        ReflectData::Enum { fields, .. } => values_refs_known(fields@, objects),
        ReflectData::Struct(fs) => named_values_refs_known(fs@, objects),
        ReflectData::Tuple(fs) => values_refs_known(fs@, objects),
        ReflectData::List(fs) => values_refs_known(fs@, objects),
        _ => true,
    }
}

/// [`value_refs_known`] of every default value.
pub open spec fn values_refs_known(s: Seq<ReflectValue>, objects: Seq<(u32, u64)>) -> bool
    decreases s,
{
    s.len() > 0 ==> values_refs_known(s.drop_last(), objects) && value_refs_known(s.last(), objects)
}

/// [`value_refs_known`] of every named default value.
pub open spec fn named_values_refs_known(s: Seq<(String, ReflectValue)>, objects: Seq<(u32, u64)>) -> bool
    decreases s,
{
    s.len() > 0 ==> named_values_refs_known(s.drop_last(), objects) && value_refs_known(s.last().1, objects)
}

/// A default value with its entities resolved to the spawned entities: an
/// entity becomes the entity spawned for the object of its index, an
/// optional one that entity if there is one; everything else stays.
pub open spec fn spec_hydrate_value(v: ReflectValue, objects: Seq<(u32, u64)>) -> ReflectView
    decreases v,
{
    ReflectView {
        source: v.source,
        data: match v.data {
            ReflectData::Entity(o) => ReflectDataView::Spawned(object_entity(objects, o)->0),
            ReflectData::OptionEntity(o) => ReflectDataView::OptionSpawned(match o {
                Some(x) => object_entity(objects, x),
                None => None,
            }),
            ReflectData::Enum { variant, unit_only, fields } => ReflectDataView::Enum {
                variant: variant@,
                unit_only,
                fields: hydrate_values_view(fields@, objects),
            },
            ReflectData::Struct(fs) => ReflectDataView::Struct(hydrate_named_values_view(fs@, objects)),
            ReflectData::Tuple(fs) => ReflectDataView::Tuple(hydrate_values_view(fs@, objects)),
            ReflectData::List(fs) => ReflectDataView::List(hydrate_values_view(fs@, objects)),
            _ => rview(v).data,
        },
    }
}

/// [`spec_hydrate_value`] of every default value.
pub open spec fn hydrate_values_view(s: Seq<ReflectValue>, objects: Seq<(u32, u64)>) -> Seq<ReflectView>
    decreases s,
{
    if s.len() == 0 {
        Seq::empty()
    } else {
        hydrate_values_view(s.drop_last(), objects).push(spec_hydrate_value(s.last(), objects))
    }
}

/// [`spec_hydrate_value`] of every named default value.
pub open spec fn hydrate_named_values_view(s: Seq<(String, ReflectValue)>, objects: Seq<(u32, u64)>) -> Seq<(Seq<char>, ReflectView)>
    decreases s,
{
    if s.len() == 0 {
        Seq::empty()
    } else {
        hydrate_named_values_view(s.drop_last(), objects).push((s.last().0@, spec_hydrate_value(s.last().1, objects)))
    }
}

proof fn lemma_values_refs_known_at(s: Seq<ReflectValue>, objects: Seq<(u32, u64)>, k: int)
    requires
        values_refs_known(s, objects),
        0 <= k < s.len(),
    ensures
        value_refs_known(s[k], objects),
    decreases s.len(),
{
    if k < s.len() - 1 {
        lemma_values_refs_known_at(s.drop_last(), objects, k);
    }
}

proof fn lemma_named_values_refs_known_at(s: Seq<(String, ReflectValue)>, objects: Seq<(u32, u64)>, k: int)
    requires
        named_values_refs_known(s, objects),
        0 <= k < s.len(),
    ensures
        value_refs_known(s[k].1, objects),
    decreases s.len(),
{
    if k < s.len() - 1 {
        lemma_named_values_refs_known_at(s.drop_last(), objects, k);
    }
}

/// Resolving object references: a reference to an object, in a value read
/// from properties or in a copied default, becomes the entity recorded
/// first for that object; an optional reference becomes that entity, or
/// `None` when the object has no entity (or the reference names none).
pub proof fn lemma_hydrate_references(o: u32, e: u64, source: u64, objects: Seq<(u32, u64)>)
    ensures
        (exists|k: int| 0 <= k < objects.len() && objects[k] == (o, e) && forall|j: int| 0 <= j < k ==> objects[j].0 != o) ==> {
            &&& spec_hydrate(Deserialized::Entity(o), objects) == DeserializedView::Spawned(e)
            &&& spec_hydrate(Deserialized::OptionEntity(Some(o)), objects) == DeserializedView::OptionSpawned(Some(e))
            &&& spec_hydrate_value(ReflectValue { source, data: ReflectData::Entity(o) }, objects)
                == (ReflectView { source, data: ReflectDataView::Spawned(e) })
            &&& spec_hydrate_value(ReflectValue { source, data: ReflectData::OptionEntity(Some(o)) }, objects)
                == (ReflectView { source, data: ReflectDataView::OptionSpawned(Some(e)) })
        },
        (forall|k: int| 0 <= k < objects.len() ==> objects[k].0 != o) ==> {
            &&& spec_hydrate(Deserialized::OptionEntity(Some(o)), objects) == DeserializedView::OptionSpawned(None)
            &&& spec_hydrate_value(ReflectValue { source, data: ReflectData::OptionEntity(Some(o)) }, objects)
                == (ReflectView { source, data: ReflectDataView::OptionSpawned(None) })
        },
        spec_hydrate(Deserialized::OptionEntity(None), objects) == DeserializedView::OptionSpawned(None),
{
    if exists|k: int| 0 <= k < objects.len() && objects[k] == (o, e) && forall|j: int| 0 <= j < k ==> objects[j].0 != o {
        let k = choose|k: int| 0 <= k < objects.len() && objects[k] == (o, e) && forall|j: int| 0 <= j < k ==> objects[j].0 != o;
        assert(objects[k].0 == o);
        let c = choose|c: int| 0 <= c < objects.len() && objects[c].0 == o && forall|j: int| 0 <= j < c ==> objects[j].0 != o;
        assert(c == k) by {
            if c < k {
                assert(objects[c].0 != o);
            } else if c > k {
                assert(objects[k].0 != o);
            }
        }
        assert(object_entity(objects, o) == Some(e));
    }
}

/// A copy of a default value with its entities resolved (see
/// [`spec_hydrate_value`]).
fn hydrate_value(v: &ReflectValue, objects: &Vec<(u32, u64)>) -> (r: ReflectValue)
    requires
        value_refs_known(*v, objects@),
    ensures
        rview(r) == spec_hydrate_value(*v, objects@),
    decreases v,
{
    let data = match &v.data {
        ReflectData::Entity(o) => match find_object(objects, *o) {
            Some(e) => ReflectData::Spawned(e),
            None => {
                proof {
                    assert(false);
                }
                ReflectData::Entity(*o)
            },
        },
        ReflectData::OptionEntity(o) => match o {
            Some(x) => ReflectData::OptionSpawned(find_object(objects, *x)),
            None => ReflectData::OptionSpawned(None),
        },
        ReflectData::Enum { variant, unit_only, fields } => {
            proof {
                assert(decreases_to!(*v => v.data));
                assert(decreases_to!(v.data => v.data->Enum_fields));
            }
            ReflectData::Enum { variant: variant.clone(), unit_only: *unit_only, fields: hydrate_value_list(fields, objects) }
        },
        ReflectData::Struct(fs) => {
            proof {
                assert(decreases_to!(*v => v.data));
                assert(decreases_to!(v.data => v.data->Struct_0));
            }
            ReflectData::Struct(hydrate_named_value_list(fs, objects))
        },
        ReflectData::Tuple(fs) => {
            proof {
                assert(decreases_to!(*v => v.data));
                assert(decreases_to!(v.data => v.data->Tuple_0));
            }
            ReflectData::Tuple(hydrate_value_list(fs, objects))
        },
        ReflectData::List(fs) => {
            proof {
                assert(decreases_to!(*v => v.data));
                assert(decreases_to!(v.data => v.data->List_0));
            }
            ReflectData::List(hydrate_value_list(fs, objects))
        },
        _ => {
            let c = v.copy_value();
            c.data
        },
    };
    ReflectValue { source: v.source, data }
}

fn hydrate_value_list(fs: &Vec<ReflectValue>, objects: &Vec<(u32, u64)>) -> (r: Vec<ReflectValue>)
    requires
        values_refs_known(fs@, objects@),
    ensures
        rviews(r@) == hydrate_values_view(fs@, objects@),
    decreases fs, 1nat,
{
    let mut out: Vec<ReflectValue> = Vec::new();
    let mut i: usize = 0;
    assert(fs@.subrange(0, 0) =~= Seq::<ReflectValue>::empty());
    while i < fs.len()
        invariant
            i <= fs@.len(),
            values_refs_known(fs@, objects@),
            rviews(out@) == hydrate_values_view(fs@.subrange(0, i as int), objects@),
        decreases fs@.len() - i,
    {
        proof {
            assert(decreases_to!(*fs => fs@));
            assert(decreases_to!(fs@ => fs@[i as int]));
            lemma_values_refs_known_at(fs@, objects@, i as int);
        }
        let c = hydrate_value(&fs[i], objects);
        let ghost before = out@;
        out.push(c);
        proof {
            let t = fs@.subrange(0, i + 1);
            assert(t.drop_last() =~= fs@.subrange(0, i as int));
            assert(out@.drop_last() =~= before);
        }
        i = i + 1;
    }
    assert(fs@.subrange(0, fs@.len() as int) =~= fs@);
    out
}

fn hydrate_named_value_list(fs: &Vec<(String, ReflectValue)>, objects: &Vec<(u32, u64)>) -> (r: Vec<(String, ReflectValue)>)
    requires
        named_values_refs_known(fs@, objects@),
    ensures
        rviews_named(r@) == hydrate_named_values_view(fs@, objects@),
    decreases fs, 1nat,
{
    let mut out: Vec<(String, ReflectValue)> = Vec::new();
    let mut i: usize = 0;
    assert(fs@.subrange(0, 0) =~= Seq::<(String, ReflectValue)>::empty());
    while i < fs.len()
        invariant
            i <= fs@.len(),
            named_values_refs_known(fs@, objects@),
            rviews_named(out@) == hydrate_named_values_view(fs@.subrange(0, i as int), objects@),
        decreases fs@.len() - i,
    {
        proof {
            assert(decreases_to!(*fs => fs@));
            assert(decreases_to!(fs@ => fs@[i as int]));
            assert(decreases_to!(fs@[i as int] => fs@[i as int].1));
            lemma_named_values_refs_known_at(fs@, objects@, i as int);
        }
        let c = hydrate_value(&fs[i].1, objects);
        let ghost before = out@;
        out.push((fs[i].0.clone(), c));
        proof {
            let t = fs@.subrange(0, i + 1);
            assert(t.drop_last() =~= fs@.subrange(0, i as int));
            assert(out@.drop_last() =~= before);
        }
        i = i + 1;
    }
    assert(fs@.subrange(0, fs@.len() as int) =~= fs@);
    out
}

/// Every object that a value refers to (not through an optional reference),
/// also within copied defaults, has a spawned entity.
pub open spec fn refs_known(d: Deserialized, objects: Seq<(u32, u64)>) -> bool
    decreases d,
{
    match d {
        Deserialized::Entity(o) => object_entity(objects, o) is Some,
        Deserialized::Default(v) => value_refs_known(v, objects),
        Deserialized::Struct { fields, .. } => named_refs_known(fields@, objects),
        Deserialized::TupleStruct { fields, .. } => refs_known_all(fields@, objects),
        Deserialized::Tuple { fields, .. } => refs_known_all(fields@, objects),
        Deserialized::Enum { value, .. } => match value {
            VariantValue::Unit => true,
            VariantValue::Tuple(fs) => refs_known_all(fs@, objects),
            VariantValue::Struct(fs) => named_refs_known(fs@, objects),
        },
        _ => true,
    }
}

/// [`refs_known`] of every value.
pub open spec fn refs_known_all(s: Seq<Deserialized>, objects: Seq<(u32, u64)>) -> bool
    decreases s,
{
    s.len() > 0 ==> refs_known_all(s.drop_last(), objects) && refs_known(s.last(), objects)
}

/// [`refs_known`] of every named value.
pub open spec fn named_refs_known(s: Seq<(String, Deserialized)>, objects: Seq<(u32, u64)>) -> bool
    decreases s,
{
    s.len() > 0 ==> named_refs_known(s.drop_last(), objects) && refs_known(s.last().1, objects)
}

/// A value with its object references resolved to the spawned entities: a
/// reference becomes its entity, an optional one its entity if there is one,
/// and the entities of copied defaults are resolved alike.
pub open spec fn spec_hydrate(d: Deserialized, objects: Seq<(u32, u64)>) -> DeserializedView
    decreases d,
{
    match d {
        Deserialized::Entity(o) => DeserializedView::Spawned(object_entity(objects, o)->0),
        Deserialized::OptionEntity(o) => DeserializedView::OptionSpawned(match o {
            Some(x) => object_entity(objects, x),
            None => None,
        }),
        Deserialized::Struct { type_path, fields } => DeserializedView::Struct {
            type_path: type_path@,
            fields: hydrate_named(fields@, objects),
        },
        Deserialized::TupleStruct { type_path, fields } => DeserializedView::TupleStruct {
            type_path: type_path@,
            fields: hydrate_all(fields@, objects),
        },
        Deserialized::Tuple { type_path, fields } => DeserializedView::Tuple {
            type_path: type_path@,
            fields: hydrate_all(fields@, objects),
        },
        Deserialized::Enum { type_path, variant, index, value } => DeserializedView::Enum {
            type_path: type_path@,
            variant: variant@,
            index: index as int,
            value: match value {
                VariantValue::Unit => VariantValueView::Unit,
                VariantValue::Tuple(fs) => VariantValueView::Tuple(hydrate_all(fs@, objects)),
                VariantValue::Struct(fs) => VariantValueView::Struct(hydrate_named(fs@, objects)),
            },
        },
        Deserialized::Default(v) => DeserializedView::Default(spec_hydrate_value(v, objects)),
        _ => dview(d),
    }
}

/// [`spec_hydrate`] of every value.
pub open spec fn hydrate_all(s: Seq<Deserialized>, objects: Seq<(u32, u64)>) -> Seq<DeserializedView>
    decreases s,
{
    if s.len() == 0 {
        Seq::empty()
    } else {
        hydrate_all(s.drop_last(), objects).push(spec_hydrate(s.last(), objects))
    }
}

/// [`spec_hydrate`] of every named value.
pub open spec fn hydrate_named(s: Seq<(String, Deserialized)>, objects: Seq<(u32, u64)>) -> Seq<(Seq<char>, DeserializedView)>
    decreases s,
{
    if s.len() == 0 {
        Seq::empty()
    } else {
        hydrate_named(s.drop_last(), objects).push((s.last().0@, spec_hydrate(s.last().1, objects)))
    }
}

fn find_object(objects: &Vec<(u32, u64)>, o: u32) -> (r: Option<u64>)
    ensures
        r == object_entity(objects@, o),
{
    let mut i: usize = 0;
    while i < objects.len()
        invariant
            i <= objects@.len(),
            forall|j: int| 0 <= j < i ==> objects@[j].0 != o,
        decreases objects@.len() - i,
    {
        if objects[i].0 == o {
            proof {
                let k = choose|k: int| 0 <= k < objects@.len() && objects@[k].0 == o
                    && forall|j: int| 0 <= j < k ==> objects@[j].0 != o;
                assert(0 <= i < objects@.len() && objects@[i as int].0 == o
                    && forall|j: int| 0 <= j < i ==> objects@[j].0 != o);
                assert(k == i) by {
                    if k < i {
                    } else if k > i {
                    }
                }
            }
            return Some(objects[i].1);
        }
        i = i + 1;
    }
    None
}

fn hydrate_values(fields_in: Vec<Deserialized>, objects: &Vec<(u32, u64)>) -> (r: Vec<Deserialized>)
    requires
        refs_known_all(fields_in@, objects@),
    ensures
        dviews(r@) == hydrate_all(fields_in@, objects@),
    decreases fields_in@, 0nat,
{
    let ghost orig = fields_in@;
    let mut fields = fields_in;
    let mut out: Vec<Deserialized> = Vec::new();
    let mut rest: Vec<Deserialized> = Vec::new();
    // Take the values out from the back, then hydrate them from the front.
    while fields.len() > 0
        invariant
            fields@ + rest@.reverse() == orig,
        decreases fields@.len(),
    {
        let ghost before = fields@;
        let x = fields.pop().unwrap();
        rest.push(x);
        proof {
            assert(fields@ =~= before.drop_last());
            assert(rest@.reverse() =~= seq![x] + rest@.drop_last().reverse());
            assert(fields@ + rest@.reverse() =~= before.drop_last() + (seq![x] + rest@.drop_last().reverse()));
            assert(before =~= before.drop_last().push(x));
        }
    }
    assert(rest@.reverse() =~= orig);
    let ghost n = orig.len();
    while rest.len() > 0
        invariant
            orig.len() == n,
            rest@.len() + out@.len() == n,
            rest@.reverse() == orig.subrange(out@.len() as int, n as int),
            dviews(out@) == hydrate_all(orig.subrange(0, out@.len() as int), objects@),
            refs_known_all(orig, objects@),
            orig == fields_in@,
        decreases rest@.len(),
    {
        let ghost k: int = out@.len() as int;
        let ghost before = rest@;
        let x = rest.pop().unwrap();
        proof {
            assert(before.reverse()[0] == x);
            assert(orig[k] == x);
            lemma_refs_known_at(orig, objects@, k);
            assert(decreases_to!(orig => orig[k]));
        }
        let h = hydrate(x, objects);
        let ghost outv = out@;
        out.push(h);
        proof {
            assert(out@.drop_last() =~= outv);
            let t = orig.subrange(0, k + 1);
            assert(t.drop_last() =~= orig.subrange(0, k));
            assert(rest@.reverse() =~= orig.subrange(k + 1, n as int)) by {
                assert(rest@ =~= before.drop_last());
                assert forall|j: int| 0 <= j < rest@.len() implies rest@.reverse()[j] == orig.subrange(k + 1, n as int)[j] by {
                    assert(rest@.reverse()[j] == before.reverse()[j + 1]);
                }
            }
        }
    }
    assert(orig.subrange(0, n as int) =~= orig);
    out
}

proof fn lemma_refs_known_at(s: Seq<Deserialized>, objects: Seq<(u32, u64)>, k: int)
    requires
        refs_known_all(s, objects),
        0 <= k < s.len(),
    ensures
        refs_known(s[k], objects),
    decreases s.len(),
{
    if k < s.len() - 1 {
        lemma_refs_known_at(s.drop_last(), objects, k);
    }
}

proof fn lemma_named_refs_known_at(s: Seq<(String, Deserialized)>, objects: Seq<(u32, u64)>, k: int)
    requires
        named_refs_known(s, objects),
        0 <= k < s.len(),
    ensures
        refs_known(s[k].1, objects),
    decreases s.len(),
{
    if k < s.len() - 1 {
        lemma_named_refs_known_at(s.drop_last(), objects, k);
    }
}


fn hydrate_named_values(fields_in: Vec<(String, Deserialized)>, objects: &Vec<(u32, u64)>) -> (r: Vec<(String, Deserialized)>)
    requires
        named_refs_known(fields_in@, objects@),
    ensures
        named_dviews(r@) == hydrate_named(fields_in@, objects@),
    decreases fields_in@, 0nat,
{
    let ghost orig = fields_in@;
    let mut fields = fields_in;
    let mut out: Vec<(String, Deserialized)> = Vec::new();
    let mut rest: Vec<(String, Deserialized)> = Vec::new();
    while fields.len() > 0
        invariant
            fields@ + rest@.reverse() == orig,
        decreases fields@.len(),
    {
        let ghost before = fields@;
        let x = fields.pop().unwrap();
        rest.push(x);
        proof {
            assert(fields@ =~= before.drop_last());
            assert(rest@.reverse() =~= seq![x] + rest@.drop_last().reverse());
            assert(fields@ + rest@.reverse() =~= before.drop_last() + (seq![x] + rest@.drop_last().reverse()));
            assert(before =~= before.drop_last().push(x));
        }
    }
    assert(rest@.reverse() =~= orig);
    let ghost n = orig.len();
    while rest.len() > 0
        invariant
            orig.len() == n,
            rest@.len() + out@.len() == n,
            rest@.reverse() == orig.subrange(out@.len() as int, n as int),
            named_dviews(out@) == hydrate_named(orig.subrange(0, out@.len() as int), objects@),
            named_refs_known(orig, objects@),
            orig == fields_in@,
        decreases rest@.len(),
    {
        let ghost k: int = out@.len() as int;
        let ghost before = rest@;
        let (name, x) = rest.pop().unwrap();
        proof {
            assert(before.reverse()[0] == (name, x));
            assert(orig[k] == (name, x));
            lemma_named_refs_known_at(orig, objects@, k);
            assert(decreases_to!(orig => orig[k]));
            assert(decreases_to!(orig[k] => orig[k].1));
        }
        let h = hydrate(x, objects);
        let ghost outv = out@;
        out.push((name, h));
        proof {
            assert(out@.drop_last() =~= outv);
            let t = orig.subrange(0, k + 1);
            assert(t.drop_last() =~= orig.subrange(0, k));
            assert(rest@.reverse() =~= orig.subrange(k + 1, n as int)) by {
                assert(rest@ =~= before.drop_last());
                assert forall|j: int| 0 <= j < rest@.len() implies rest@.reverse()[j] == orig.subrange(k + 1, n as int)[j] by {
                    assert(rest@.reverse()[j] == before.reverse()[j + 1]);
                }
            }
        }
    }
    assert(orig.subrange(0, n as int) =~= orig);
    out
}

/// Resolves the object references of a value read from properties to the
/// entities spawned for those objects (`objects` pairs object identifiers
/// with entity bits). A reference to an object with no entity is not
/// accepted; an optional one becomes `None`. The entities held by copied
/// defaults are resolved the same way.
pub fn hydrate(d: Deserialized, objects: &Vec<(u32, u64)>) -> (r: Deserialized)
    requires
        refs_known(d, objects@),
    ensures
        r@ == spec_hydrate(d, objects@),
    decreases d, 1nat,
{
    match d {
        Deserialized::Entity(o) => match find_object(objects, o) {
            Some(e) => Deserialized::Spawned(e),
            None => {
                proof {
                    assert(false);
                }
                Deserialized::Entity(o)
            },
        },
        Deserialized::OptionEntity(o) => match o {
            Some(x) => Deserialized::OptionSpawned(find_object(objects, x)),
            None => Deserialized::OptionSpawned(None),
        },
        Deserialized::Struct { type_path, fields } => {
            let fv = hydrate_named_values(fields, objects);
            Deserialized::Struct { type_path, fields: fv }
        },
        Deserialized::TupleStruct { type_path, fields } => {
            let fv = hydrate_values(fields, objects);
            Deserialized::TupleStruct { type_path, fields: fv }
        },
        Deserialized::Tuple { type_path, fields } => {
            let fv = hydrate_values(fields, objects);
            Deserialized::Tuple { type_path, fields: fv }
        },
        Deserialized::Enum { type_path, variant, index, value } => {
            let v = match value {
                VariantValue::Unit => VariantValue::Unit,
                VariantValue::Tuple(fs) => VariantValue::Tuple(hydrate_values(fs, objects)),
                VariantValue::Struct(fs) => VariantValue::Struct(hydrate_named_values(fs, objects)),
            };
            Deserialized::Enum { type_path, variant, index, value: v }
        },
        Deserialized::Default(v) => Deserialized::Default(hydrate_value(&v, objects)),
        other => other,
    }
}

} // verus!
