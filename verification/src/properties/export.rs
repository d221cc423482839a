//! Export of reflected component, bundle and resource types as Tiled custom
//! property types (classes and enums).
use vstd::prelude::*;
use crate::properties::import::{
    imports_view, Class, ClassView, Enum, EnumView, FieldType, Member, MemberView,
    StorageType, TypeData, TypeDataView, TypeImport, TypeImportView, UseAs,
};
use crate::properties::reflect::{
    field_type_paths, is_registered, lookup, registered_at, NamedField, TypeInfo,
    TypeRegistration, TypeRegistry, UnnamedField, VariantInfo,
};
use crate::text::{
    decimal, eq_lit, has_prefix, lemma_lex_total, lemma_lex_trans, lex_le,
    lex_le_str, starts_with, usize_to_decimal,
};
use crate::properties::value::{
    deref_opt, named_field_json, named_field_json_value, unnamed_field_json,
    unnamed_field_json_value, JsonValue, JsonView, ReflectValue,
};

verus! {

/// Why a type cannot be exported.
#[derive(Debug, Clone, PartialEq, Eq)]
pub enum ExportConversionError {
    ListUnsupported,
    MapUnsupported,
    UnsupportedValue(String),
    SetUnsupported,
    DependencyError,
}

/// Abstract view of [`ExportConversionError`].
pub enum ExportErrorView {
    ListUnsupported,
    MapUnsupported,
    UnsupportedValue(Seq<char>),
    SetUnsupported,
    DependencyError,
}

impl View for ExportConversionError {
    type V = ExportErrorView;

    open spec fn view(&self) -> ExportErrorView {
        match self {
            ExportConversionError::ListUnsupported => ExportErrorView::ListUnsupported,
            ExportConversionError::MapUnsupported => ExportErrorView::MapUnsupported,
            ExportConversionError::UnsupportedValue(p) => ExportErrorView::UnsupportedValue(p@),
            ExportConversionError::SetUnsupported => ExportErrorView::SetUnsupported,
            ExportConversionError::DependencyError => ExportErrorView::DependencyError,
        }
    }
}

/// Every variant is a unit variant.
pub open spec fn all_unit(vs: Seq<VariantInfo>) -> bool {
    forall|k: int| 0 <= k < vs.len() ==> vs[k] is Unit
}

/// The type is an enum whose variants all are unit variants.
pub open spec fn spec_is_enum_and_simple(info: TypeInfo) -> bool {
    match info {
        TypeInfo::Enum(vs) => all_unit(vs@),
        _ => false,
    }
}

/// Names of the primitive integer types.
pub open spec fn is_int_type_path(p: Seq<char>) -> bool {
    p == "isize"@ || p == "i8"@ || p == "i16"@ || p == "i32"@ || p == "i64"@ || p == "i128"@
        || p == "usize"@ || p == "u8"@ || p == "u16"@ || p == "u32"@ || p == "u64"@ || p == "u128"@
}

/// The Tiled member type of a field of the given type, and the custom type
/// it refers to (for enums and classes).
pub open spec fn spec_type_to_field(t: TypeRegistration) -> Result<(FieldType, Option<Seq<char>>), ExportErrorView> {
    let p = t.type_path@;
    if t.info is List {
        Err(ExportErrorView::ListUnsupported)
    } else if t.info is Dictionary {
        Err(ExportErrorView::MapUnsupported)
    } else if p == "bool"@ {
        Ok((FieldType::Bool, None))
    } else if p == "f32"@ || p == "f64"@ {
        Ok((FieldType::Float, None))
    } else if is_int_type_path(p) {
        Ok((FieldType::Int, None))
    } else if p == "bevy_ecs::entity::Entity"@ || p == "core::option::Option<bevy_ecs::entity::Entity>"@ {
        Ok((FieldType::Object, None))
    } else if p == "alloc::borrow::Cow<str>"@ || p == "alloc::string::String"@ || p == "char"@ {
        Ok((FieldType::String, None))
    } else if p == "bevy_color::color::Color"@ {
        Ok((FieldType::Color, None))
    } else if p == "std::path::PathBuf"@ {
        Ok((FieldType::File, None))
    } else if has_prefix(p, "bevy_asset::handle::Handle"@) {
        Ok((FieldType::File, None))
    } else if t.info is Opaque {
        Err(ExportErrorView::UnsupportedValue(p))
    } else if spec_is_enum_and_simple(t.info) {
        Ok((FieldType::String, Some(p)))
    } else {
        Ok((FieldType::Class, Some(p)))
    }
}

/// The type is an enum whose variants all are unit variants.
pub fn is_enum_and_simple(t: &TypeRegistration) -> (r: bool)
    ensures
        r == spec_is_enum_and_simple(t.info),
{
    match &t.info {
        TypeInfo::Enum(vs) => {
            let mut i: usize = 0;
            while i < vs.len()
                invariant
                    i <= vs@.len(),
                    forall|k: int| 0 <= k < i ==> vs@[k] is Unit,
                    spec_is_enum_and_simple(t.info) == all_unit(vs@),
                decreases vs@.len() - i,
            {
                match &vs[i] {
                    VariantInfo::Unit { .. } => {},
                    _ => {
                        assert(!(vs@[i as int] is Unit));
                        assert(!all_unit(vs@));
                        return false;
                    },
                }
                i = i + 1;
            }
            true
        },
        _ => false,
    }
}

fn is_int_type(p: &String) -> (r: bool)
    ensures
        r == is_int_type_path(p@),
{
    eq_lit(p, "isize") || eq_lit(p, "i8") || eq_lit(p, "i16") || eq_lit(p, "i32") || eq_lit(p, "i64")
        || eq_lit(p, "i128") || eq_lit(p, "usize") || eq_lit(p, "u8") || eq_lit(p, "u16")
        || eq_lit(p, "u32") || eq_lit(p, "u64") || eq_lit(p, "u128")
}

/// The Tiled member type of a field of type `t`, and the custom type it
/// refers to.
pub fn type_to_field(t: &TypeRegistration) -> (r: Result<(FieldType, Option<String>), ExportConversionError>)
    ensures
        match (r, spec_type_to_field(*t)) {
            (Ok((f, None)), Ok((g, None))) => f == g,
            (Ok((f, Some(s))), Ok((g, Some(q)))) => f == g && s@ == q,
            (Err(e), Err(d)) => e@ == d,
            _ => false,
        },
{
    let p = &t.type_path;
    match &t.info {
        TypeInfo::List { .. } => {
            return Err(ExportConversionError::ListUnsupported);
        },
        TypeInfo::Dictionary { .. } => {
            return Err(ExportConversionError::MapUnsupported);
        },
        _ => {},
    }
    let is_opaque = match &t.info {
        TypeInfo::Opaque => true,
        _ => false,
    };
    if eq_lit(p, "bool") {
        Ok((FieldType::Bool, None))
    } else if eq_lit(p, "f32") || eq_lit(p, "f64") {
        Ok((FieldType::Float, None))
    } else if is_int_type(p) {
        Ok((FieldType::Int, None))
    } else if eq_lit(p, "bevy_ecs::entity::Entity") || eq_lit(p, "core::option::Option<bevy_ecs::entity::Entity>") {
        Ok((FieldType::Object, None))
    } else if eq_lit(p, "alloc::borrow::Cow<str>") || eq_lit(p, "alloc::string::String") || eq_lit(p, "char") {
        Ok((FieldType::String, None))
    } else if eq_lit(p, "bevy_color::color::Color") {
        Ok((FieldType::Color, None))
    } else if eq_lit(p, "std::path::PathBuf") {
        Ok((FieldType::File, None))
    } else if starts_with(p.as_str(), "bevy_asset::handle::Handle") {
        Ok((FieldType::File, None))
    } else if is_opaque {
        Err(ExportConversionError::UnsupportedValue(p.clone()))
    } else if is_enum_and_simple(t) {
        Ok((FieldType::String, Some(p.clone())))
    } else {
        Ok((FieldType::Class, Some(p.clone())))
    }
}


/// View of an optional string.
pub open spec fn opt_view(o: Option<String>) -> Option<Seq<char>> {
    match o {
        Some(p) => Some(p@),
        None => None,
    }
}

/// The member built for a field named `name` whose type maps to `field`.
pub open spec fn member_view(name: Seq<char>, field: (FieldType, Option<Seq<char>>), value: JsonView) -> MemberView {
    MemberView { name, property_type: field.1, type_field: field.0, value }
}

/// The JSON null value.
pub open spec fn null_json() -> JsonView {
    JsonView::Null
}

/// Views of members.
pub open spec fn members_view(ms: Seq<Member>) -> Seq<MemberView> {
    ms.map_values(|m: Member| m@)
}

/// The exec result `r` is the spec result `s`.
pub open spec fn members_match(r: Result<Vec<Member>, ExportConversionError>, s: Result<Seq<MemberView>, ExportErrorView>) -> bool {
    match (r, s) {
        (Ok(ms), Ok(v)) => members_view(ms@) == v,
        (Err(e), Err(d)) => e@ == d,
        _ => false,
    }
}

/// Members for named fields: each one is named after its field, typed after
/// the field's type, and holds the field's value in `default` (JSON `null`
/// where there is none). The first field whose type cannot be exported makes
/// the whole list fail.
pub open spec fn spec_named_members(types: Seq<TypeRegistration>, fs: Seq<NamedField>, default: Option<ReflectValue>) -> Result<Seq<MemberView>, ExportErrorView>
    decreases fs.len(),
{
    if fs.len() == 0 {
        Ok(Seq::empty())
    } else {
        match spec_named_members(types, fs.drop_last(), default) {
            Err(e) => Err(e),
            Ok(ms) => match spec_type_to_field(lookup(types, fs.last().type_path@)) {
                Err(e) => Err(e),
                Ok(f) => Ok(ms.push(member_view(
                    fs.last().name@,
                    f,
                    named_field_json(default, fs.last().name@),
                ))),
            },
        }
    }
}

/// Members for positional fields, named by their decimal position.
pub open spec fn spec_unnamed_members(types: Seq<TypeRegistration>, fs: Seq<UnnamedField>, default: Option<ReflectValue>) -> Result<Seq<MemberView>, ExportErrorView>
    decreases fs.len(),
{
    if fs.len() == 0 {
        Ok(Seq::empty())
    } else {
        match spec_unnamed_members(types, fs.drop_last(), default) {
            Err(e) => Err(e),
            Ok(ms) => match spec_type_to_field(lookup(types, fs.last().type_path@)) {
                Err(e) => Err(e),
                Ok(f) => Ok(ms.push(member_view(
                    decimal((fs.len() - 1) as nat),
                    f,
                    unnamed_field_json(default, fs.len() - 1),
                ))),
            },
        }
    }
}

/// All the field types are registered.
pub open spec fn named_fields_registered(types: Seq<TypeRegistration>, fs: Seq<NamedField>) -> bool {
    forall|k: int| 0 <= k < fs.len() ==> is_registered(types, #[trigger] fs[k].type_path@)
}

/// All the field types are registered.
pub open spec fn unnamed_fields_registered(types: Seq<TypeRegistration>, fs: Seq<UnnamedField>) -> bool {
    forall|k: int| 0 <= k < fs.len() ==> is_registered(types, #[trigger] fs[k].type_path@)
}

fn field_of(registry: &TypeRegistry, path: &String) -> (r: Result<(FieldType, Option<String>), ExportConversionError>)
    requires
        registry.wf(),
        is_registered(registry.types@, path@),
    ensures
        match (r, spec_type_to_field(lookup(registry.types@, path@))) {
            (Ok((f, None)), Ok((g, None))) => f == g,
            (Ok((f, Some(s))), Ok((g, Some(q)))) => f == g && s@ == q,
            (Err(e), Err(d)) => e@ == d,
            _ => false,
        },
{
    match registry.get_with_type_path(path.as_str()) {
        Some(t) => type_to_field(t),
        None => {
            proof {
                assert(false);
            }
            Err(ExportConversionError::DependencyError)
        },
    }
}

fn make_member(name: String, f: (FieldType, Option<String>), value: JsonValue) -> (m: Member)
    ensures
        m@ == member_view(name@, (f.0, match f.1 { Some(p) => Some(p@), None => None }), value@),
{
    Member { name, property_type: f.1, type_field: f.0, value }
}

/// Builds the members of a struct-like list of fields.
pub fn named_members(registry: &TypeRegistry, fields: &Vec<NamedField>, default: Option<&ReflectValue>) -> (r: Result<Vec<Member>, ExportConversionError>)
    requires
        registry.wf(),
        named_fields_registered(registry.types@, fields@),
    ensures
        members_match(r, spec_named_members(registry.types@, fields@, deref_opt(default))),
{
    let mut out: Vec<Member> = Vec::new();
    let mut i: usize = 0;
    assert(members_view(out@) =~= Seq::<MemberView>::empty());
    assert(fields@.subrange(0, 0) =~= Seq::<NamedField>::empty());
    while i < fields.len()
        invariant
            registry.wf(),
            named_fields_registered(registry.types@, fields@),
            i <= fields@.len(),
            spec_named_members(registry.types@, fields@.subrange(0, i as int), deref_opt(default)) == Ok::<Seq<MemberView>, ExportErrorView>(members_view(out@)),
        decreases fields@.len() - i,
    {
        let ghost pre = fields@.subrange(0, i as int);
        let ghost next = fields@.subrange(0, i + 1);
        assert(next.drop_last() =~= pre);
        assert(next.last() == fields@[i as int]);
        let f = &fields[i];
        let r = field_of(registry, &f.type_path);
        match r {
            Err(e) => {
                assert(spec_named_members(registry.types@, next, deref_opt(default)) == Err::<Seq<MemberView>, ExportErrorView>(e@));
                proof {
                    lemma_named_members_err_prefix(registry.types@, fields@, deref_opt(default), i as int + 1);
                }
                return Err(e);
            },
            Ok(ft) => {
                let value = named_field_json_value(default, f.name.as_str());
                let m = make_member(f.name.clone(), ft, value);
                let ghost before = out@;
                out.push(m);
                assert(members_view(out@) =~= members_view(before).push(m@));
            },
        }
        i = i + 1;
    }
    assert(fields@.subrange(0, fields@.len() as int) =~= fields@);
    Ok(out)
}

proof fn lemma_named_members_err_prefix(types: Seq<TypeRegistration>, fs: Seq<NamedField>, wd: Option<ReflectValue>, n: int)
    requires
        0 <= n <= fs.len(),
        spec_named_members(types, fs.subrange(0, n), wd) is Err,
    ensures
        spec_named_members(types, fs, wd) == spec_named_members(types, fs.subrange(0, n), wd),
    decreases fs.len() - n,
{
    if n < fs.len() {
        let next = fs.subrange(0, n + 1);
        assert(next.drop_last() =~= fs.subrange(0, n));
        lemma_named_members_err_prefix(types, fs, wd, n + 1);
    } else {
        assert(fs.subrange(0, n) =~= fs);
    }
}

/// Builds the members of a tuple-like list of fields.
pub fn unnamed_members(registry: &TypeRegistry, fields: &Vec<UnnamedField>, default: Option<&ReflectValue>) -> (r: Result<Vec<Member>, ExportConversionError>)
    requires
        registry.wf(),
        unnamed_fields_registered(registry.types@, fields@),
    ensures
        members_match(r, spec_unnamed_members(registry.types@, fields@, deref_opt(default))),
{
    let mut out: Vec<Member> = Vec::new();
    let mut i: usize = 0;
    assert(members_view(out@) =~= Seq::<MemberView>::empty());
    assert(fields@.subrange(0, 0) =~= Seq::<UnnamedField>::empty());
    while i < fields.len()
        invariant
            registry.wf(),
            unnamed_fields_registered(registry.types@, fields@),
            i <= fields@.len(),
            spec_unnamed_members(registry.types@, fields@.subrange(0, i as int), deref_opt(default)) == Ok::<Seq<MemberView>, ExportErrorView>(members_view(out@)),
        decreases fields@.len() - i,
    {
        let ghost pre = fields@.subrange(0, i as int);
        let ghost next = fields@.subrange(0, i + 1);
        assert(next.drop_last() =~= pre);
        assert(next.last() == fields@[i as int]);
        let f = &fields[i];
        let r = field_of(registry, &f.type_path);
        match r {
            Err(e) => {
                assert(spec_unnamed_members(registry.types@, next, deref_opt(default)) == Err::<Seq<MemberView>, ExportErrorView>(e@));
                proof {
                    lemma_unnamed_members_err_prefix(registry.types@, fields@, deref_opt(default), i as int + 1);
                }
                return Err(e);
            },
            Ok(ft) => {
                let value = unnamed_field_json_value(default, i);
                let m = make_member(usize_to_decimal(i), ft, value);
                let ghost before = out@;
                out.push(m);
                assert(members_view(out@) =~= members_view(before).push(m@));
            },
        }
        i = i + 1;
    }
    assert(fields@.subrange(0, fields@.len() as int) =~= fields@);
    Ok(out)
}

proof fn lemma_unnamed_members_err_prefix(types: Seq<TypeRegistration>, fs: Seq<UnnamedField>, wd: Option<ReflectValue>, n: int)
    requires
        0 <= n <= fs.len(),
        spec_unnamed_members(types, fs.subrange(0, n), wd) is Err,
    ensures
        spec_unnamed_members(types, fs, wd) == spec_unnamed_members(types, fs.subrange(0, n), wd),
    decreases fs.len() - n,
{
    if n < fs.len() {
        let next = fs.subrange(0, n + 1);
        assert(next.drop_last() =~= fs.subrange(0, n));
        lemma_unnamed_members_err_prefix(types, fs, wd, n + 1);
    } else {
        assert(fs.subrange(0, n) =~= fs);
    }
}


/// The color given to exported classes.
pub open spec fn default_color() -> Seq<char> {
    "#000000"@
}

/// An exported class.
pub open spec fn class_view(id: int, name: Seq<char>, use_as: Seq<UseAs>, members: Seq<MemberView>) -> TypeImportView {
    TypeImportView {
        id,
        name,
        type_data: TypeDataView::Class(ClassView { use_as, color: default_color(), draw_fill: true, members }),
    }
}

/// An exported enum, stored as strings.
pub open spec fn enum_view(id: int, name: Seq<char>, values: Seq<Seq<char>>) -> TypeImportView {
    TypeImportView {
        id,
        name,
        type_data: TypeDataView::Enum(EnumView { storage_type: StorageType::String, values, values_as_flags: false }),
    }
}

/// The `useAs` list of nested classes.
pub open spec fn use_as_property() -> Seq<UseAs> {
    seq![UseAs::Property]
}

/// The exec result `r` is the spec result `s`.
pub open spec fn exports_match(r: Result<Vec<TypeImport>, ExportConversionError>, s: Result<Seq<TypeImportView>, ExportErrorView>) -> bool {
    match (r, s) {
        (Ok(v), Ok(w)) => imports_view(v@) == w,
        (Err(e), Err(d)) => e@ == d,
        _ => false,
    }
}

/// Export of a struct: one class, members with the struct's defaults.
pub open spec fn spec_struct_export(types: Seq<TypeRegistration>, id: int, path: Seq<char>, fs: Seq<NamedField>, default: Option<ReflectValue>, use_as: Seq<UseAs>) -> Result<Seq<TypeImportView>, ExportErrorView> {
    match spec_named_members(types, fs, default) {
        Ok(ms) => Ok(seq![class_view(id + 1, path, use_as, ms)]),
        Err(e) => Err(e),
    }
}

/// Export of a tuple struct: one class usable as a property.
pub open spec fn spec_tuple_struct_export(types: Seq<TypeRegistration>, id: int, path: Seq<char>, fs: Seq<UnnamedField>, default: Option<ReflectValue>) -> Result<Seq<TypeImportView>, ExportErrorView> {
    match spec_unnamed_members(types, fs, default) {
        Ok(ms) => Ok(seq![class_view(id + 1, path, use_as_property(), ms)]),
        Err(e) => Err(e),
    }
}

/// Export of a tuple: one class.
pub open spec fn spec_tuple_export(types: Seq<TypeRegistration>, id: int, path: Seq<char>, fs: Seq<UnnamedField>, default: Option<ReflectValue>, use_as: Seq<UseAs>) -> Result<Seq<TypeImportView>, ExportErrorView> {
    match spec_unnamed_members(types, fs, default) {
        Ok(ms) => Ok(seq![class_view(id + 1, path, use_as, ms)]),
        Err(e) => Err(e),
    }
}

/// Name of the member for array slot `i`: `[i]`.
pub open spec fn array_slot_name(i: int) -> Seq<char> {
    seq!['['] + decimal(i as nat) + seq![']']
}

/// Export of an array: one class with a member per slot.
pub open spec fn spec_array_export(types: Seq<TypeRegistration>, id: int, path: Seq<char>, item: Seq<char>, capacity: nat, use_as: Seq<UseAs>) -> Result<Seq<TypeImportView>, ExportErrorView> {
    match spec_type_to_field(lookup(types, item)) {
        Ok(f) => Ok(seq![class_view(id + 1, path, use_as,
            Seq::new(capacity, |i: int| member_view(array_slot_name(i), f, null_json())))]),
        Err(e) => Err(e),
    }
}


/// Names of the variants, in order.
pub open spec fn variant_names(vs: Seq<VariantInfo>) -> Seq<Seq<char>> {
    vs.map_values(|v: VariantInfo| v.spec_name())
}

/// The fields of every variant have registered types.
pub open spec fn variant_fields_registered(types: Seq<TypeRegistration>, v: VariantInfo) -> bool {
    match v {
        VariantInfo::Struct { fields, .. } => named_fields_registered(types, fields@),
        VariantInfo::Tuple { fields, .. } => unnamed_fields_registered(types, fields@),
        VariantInfo::Unit { .. } => true,
    }
}

/// The fields of all variants have registered types.
pub open spec fn variants_registered(types: Seq<TypeRegistration>, vs: Seq<VariantInfo>) -> bool {
    forall|k: int| 0 <= k < vs.len() ==> variant_fields_registered(types, #[trigger] vs[k])
}

/// Name of the class holding the fields of variant `name` of enum `path`.
pub open spec fn variant_class_name(path: Seq<char>, name: Seq<char>) -> Seq<char> {
    path + "::"@ + name
}

/// Name of the enum listing the variants of enum `path`.
pub open spec fn variants_enum_name(path: Seq<char>) -> Seq<char> {
    path + ":::Variant"@
}

/// The classes made for the non-unit variants (each one taking the next
/// identifier) and the matching members of the enum's root class; the
/// identifier reached comes first.
pub open spec fn spec_variant_exports(types: Seq<TypeRegistration>, id: int, path: Seq<char>, vs: Seq<VariantInfo>) -> (int, Result<(Seq<TypeImportView>, Seq<MemberView>), ExportErrorView>)
    decreases vs.len(),
{
    if vs.len() == 0 {
        (id, Ok((Seq::empty(), Seq::empty())))
    } else {
        let (id1, r) = spec_variant_exports(types, id, path, vs.drop_last());
        match r {
            Err(e) => (id1, Err(e)),
            Ok((cs, ms)) => match vs.last() {
                VariantInfo::Struct { name, fields } => {
                    let cname = variant_class_name(path, name@);
                    match spec_named_members(types, fields@, None) {
                        Err(e) => (id1 + 1, Err(e)),
                        Ok(fm) => (id1 + 1, Ok((
                            cs.push(class_view(id1 + 1, cname, use_as_property(), fm)),
                            ms.push(member_view(name@, (FieldType::Class, Some(cname)), null_json())),
                        ))),
                    }
                },
                VariantInfo::Tuple { name, fields } => {
                    let cname = variant_class_name(path, name@);
                    match spec_unnamed_members(types, fields@, None) {
                        Err(e) => (id1 + 1, Err(e)),
                        Ok(fm) => (id1 + 1, Ok((
                            cs.push(class_view(id1 + 1, cname, use_as_property(), fm)),
                            ms.push(member_view(name@, (FieldType::Class, Some(cname)), null_json())),
                        ))),
                    }
                },
                VariantInfo::Unit { .. } => (id1, Ok((cs, ms))),
            },
        }
    }
}

/// The first member of a non-simple enum's root class: which variant is set.
pub open spec fn variant_selector_member(path: Seq<char>, vs: Seq<VariantInfo>) -> MemberView {
    member_view(
        ":variant"@,
        (FieldType::Class, Some(variants_enum_name(path))),
        if vs.len() > 0 { JsonView::Str(vs[0].spec_name()) } else { null_json() },
    )
}

/// Export of an enum. An enum of unit variants becomes a string enum; any
/// other becomes an enum of its variant names, a class per non-unit variant,
/// and a root class with a member selecting the variant and a member per
/// non-unit variant. The identifier reached comes first.
pub open spec fn spec_enum_export(types: Seq<TypeRegistration>, id: int, path: Seq<char>, vs: Seq<VariantInfo>) -> (int, Result<Seq<TypeImportView>, ExportErrorView>) {
    if all_unit(vs) {
        (id + 1, Ok(seq![enum_view(id + 1, path, variant_names(vs))]))
    } else {
        let first = enum_view(id + 1, variants_enum_name(path), variant_names(vs));
        let (id2, r) = spec_variant_exports(types, id + 1, path, vs);
        match r {
            Err(e) => (id2, Err(e)),
            Ok((cs, ms)) => (id2 + 1, Ok(seq![first] + cs + seq![class_view(
                id2 + 1,
                path,
                use_as_property(),
                seq![variant_selector_member(path, vs)] + ms,
            )])),
        }
    }
}

proof fn lemma_variant_exports_ids(types: Seq<TypeRegistration>, id: int, path: Seq<char>, vs: Seq<VariantInfo>)
    ensures
        id <= spec_variant_exports(types, id, path, vs).0 <= id + vs.len(),
    decreases vs.len(),
{
    if vs.len() > 0 {
        lemma_variant_exports_ids(types, id, path, vs.drop_last());
    }
}

proof fn lemma_variant_exports_mono(types: Seq<TypeRegistration>, id: int, path: Seq<char>, vs: Seq<VariantInfo>, n: int)
    requires
        0 <= n <= vs.len(),
    ensures
        spec_variant_exports(types, id, path, vs.subrange(0, n)).0 <= spec_variant_exports(types, id, path, vs).0,
    decreases vs.len() - n,
{
    if n < vs.len() {
        let next = vs.subrange(0, n + 1);
        assert(next.drop_last() =~= vs.subrange(0, n));
        lemma_variant_exports_mono(types, id, path, vs, n + 1);
    } else {
        assert(vs.subrange(0, n) =~= vs);
    }
}

proof fn lemma_variant_exports_err_prefix(types: Seq<TypeRegistration>, id: int, path: Seq<char>, vs: Seq<VariantInfo>, n: int)
    requires
        0 <= n <= vs.len(),
        spec_variant_exports(types, id, path, vs.subrange(0, n)).1 is Err,
    ensures
        spec_variant_exports(types, id, path, vs) == spec_variant_exports(types, id, path, vs.subrange(0, n)),
    decreases vs.len() - n,
{
    if n < vs.len() {
        let next = vs.subrange(0, n + 1);
        assert(next.drop_last() =~= vs.subrange(0, n));
        lemma_variant_exports_err_prefix(types, id, path, vs, n + 1);
    } else {
        assert(vs.subrange(0, n) =~= vs);
    }
}


fn variant_name_list(vs: &Vec<VariantInfo>) -> (r: Vec<String>)
    ensures
        r@.map_values(|v: String| v@) == variant_names(vs@),
{
    let mut out: Vec<String> = Vec::new();
    let mut i: usize = 0;
    while i < vs.len()
        invariant
            i <= vs@.len(),
            out@.map_values(|v: String| v@) == variant_names(vs@.subrange(0, i as int)),
        decreases vs@.len() - i,
    {
        let n = vs[i].name().clone();
        let ghost before = out@;
        out.push(n);
        assert(out@ =~= before.push(n));
        assert(out@.map_values(|v: String| v@) =~= before.map_values(|v: String| v@).push(n@));
        assert(vs@.subrange(0, i + 1) =~= vs@.subrange(0, i as int).push(vs@[i as int]));
        assert(variant_names(vs@.subrange(0, i + 1)) =~= variant_names(vs@.subrange(0, i as int)).push(vs@[i as int].spec_name()));
        i = i + 1;
    }
    assert(vs@.subrange(0, vs@.len() as int) =~= vs@);
    out
}

fn all_unit_variants(vs: &Vec<VariantInfo>) -> (r: bool)
    ensures
        r == all_unit(vs@),
{
    let mut i: usize = 0;
    while i < vs.len()
        invariant
            i <= vs@.len(),
            forall|k: int| 0 <= k < i ==> vs@[k] is Unit,
        decreases vs@.len() - i,
    {
        match &vs[i] {
            VariantInfo::Unit { .. } => {},
            _ => {
                assert(!(vs@[i as int] is Unit));
                return false;
            },
        }
        i = i + 1;
    }
    true
}


/// The type paths of a variant's fields.
pub open spec fn variant_field_paths(v: VariantInfo) -> Seq<Seq<char>> {
    match v {
        VariantInfo::Struct { fields, .. } => fields@.map_values(|f: NamedField| f.type_path@),
        VariantInfo::Tuple { fields, .. } => fields@.map_values(|f: UnnamedField| f.type_path@),
        VariantInfo::Unit { .. } => Seq::empty(),
    }
}

/// The types a type directly depends on, in declaration order.
pub open spec fn direct_deps(info: TypeInfo) -> Seq<Seq<char>> {
    match info {
        TypeInfo::Struct(fs) => fs@.map_values(|f: NamedField| f.type_path@),
        TypeInfo::TupleStruct(fs) => fs@.map_values(|f: UnnamedField| f.type_path@),
        TypeInfo::Tuple(fs) => fs@.map_values(|f: UnnamedField| f.type_path@),
        TypeInfo::List { item } => seq![item@],
        TypeInfo::Array { item, .. } => seq![item@],
        TypeInfo::Dictionary { key, value } => seq![key@, value@],
        TypeInfo::Enum(vs) => vs@.map_values(|v: VariantInfo| variant_field_paths(v)).flatten(),
        TypeInfo::SetOf { value } => seq![value@],
        TypeInfo::Opaque => Seq::empty(),
    }
}

/// All the dependencies of a type: its direct dependencies, then, for each
/// of them that is registered, its own dependencies, following the nesting
/// at most `fuel` levels deep.
pub open spec fn all_deps(types: Seq<TypeRegistration>, info: TypeInfo, fuel: nat) -> Seq<Seq<char>>
    decreases fuel, 1nat, 0nat,
{
    direct_deps(info) + deps_of_each(types, direct_deps(info), fuel)
}

/// The dependencies of each registered type of `ds`, concatenated.
pub open spec fn deps_of_each(types: Seq<TypeRegistration>, ds: Seq<Seq<char>>, fuel: nat) -> Seq<Seq<char>>
    decreases fuel, 0nat, ds.len(),
{
    if ds.len() == 0 {
        Seq::empty()
    } else {
        deps_of_each(types, ds.drop_last(), fuel) + if fuel > 0 && is_registered(types, ds.last()) {
            all_deps(types, lookup(types, ds.last()).info, (fuel - 1) as nat)
        } else {
            Seq::empty()
        }
    }
}


fn push_all(out: &mut Vec<String>, more: Vec<String>)
    ensures
        final(out)@.map_values(|v: String| v@) == old(out)@.map_values(|v: String| v@) + more@.map_values(|v: String| v@),
{
    let ghost start = out@;
    let mut i: usize = 0;
    while i < more.len()
        invariant
            i <= more@.len(),
            out@.map_values(|v: String| v@) == start.map_values(|v: String| v@) + more@.subrange(0, i as int).map_values(|v: String| v@),
        decreases more@.len() - i,
    {
        let ghost before = out@;
        out.push(more[i].clone());
        assert(out@.map_values(|v: String| v@) =~= before.map_values(|v: String| v@).push(more@[i as int]@));
        assert(more@.subrange(0, i + 1).map_values(|v: String| v@) =~= more@.subrange(0, i as int).map_values(|v: String| v@).push(more@[i as int]@));
        i = i + 1;
    }
    assert(more@.subrange(0, more@.len() as int) =~= more@);
}

/// Views of strings.
pub open spec fn strings_view(v: Seq<String>) -> Seq<Seq<char>> {
    v.map_values(|s: String| s@)
}

fn direct_dependencies(info: &TypeInfo) -> (r: Vec<String>)
    ensures
        strings_view(r@) == direct_deps(*info),
{
    let mut out: Vec<String> = Vec::new();
    match info {
        TypeInfo::Struct(fs) => {
            let mut i: usize = 0;
            while i < fs.len()
                invariant
                    i <= fs@.len(),
                    strings_view(out@) == fs@.subrange(0, i as int).map_values(|f: NamedField| f.type_path@),
                decreases fs@.len() - i,
            {
                let ghost before = out@;
                out.push(fs[i].type_path.clone());
                assert(strings_view(out@) =~= strings_view(before).push(fs@[i as int].type_path@));
                assert(fs@.subrange(0, i + 1).map_values(|f: NamedField| f.type_path@) =~= fs@.subrange(0, i as int).map_values(|f: NamedField| f.type_path@).push(fs@[i as int].type_path@));
                i = i + 1;
            }
            assert(fs@.subrange(0, fs@.len() as int) =~= fs@);
        },
        TypeInfo::TupleStruct(fs) | TypeInfo::Tuple(fs) => {
            let mut i: usize = 0;
            while i < fs.len()
                invariant
                    i <= fs@.len(),
                    strings_view(out@) == fs@.subrange(0, i as int).map_values(|f: UnnamedField| f.type_path@),
                decreases fs@.len() - i,
            {
                let ghost before = out@;
                out.push(fs[i].type_path.clone());
                assert(strings_view(out@) =~= strings_view(before).push(fs@[i as int].type_path@));
                assert(fs@.subrange(0, i + 1).map_values(|f: UnnamedField| f.type_path@) =~= fs@.subrange(0, i as int).map_values(|f: UnnamedField| f.type_path@).push(fs@[i as int].type_path@));
                i = i + 1;
            }
            assert(fs@.subrange(0, fs@.len() as int) =~= fs@);
        },
        TypeInfo::List { item } => {
            out.push(item.clone());
        },
        TypeInfo::Array { item, .. } => {
            out.push(item.clone());
        },
        TypeInfo::Dictionary { key, value } => {
            out.push(key.clone());
            out.push(value.clone());
        },
        TypeInfo::Enum(vs) => {
            let mut i: usize = 0;
            while i < vs.len()
                invariant
                    i <= vs@.len(),
                    strings_view(out@) == vs@.subrange(0, i as int).map_values(|v: VariantInfo| variant_field_paths(v)).flatten(),
                decreases vs@.len() - i,
            {
                let ghost before = out@;
                let fp = variant_field_type_paths(&vs[i]);
                push_all(&mut out, fp);
                proof {
                    let pre = vs@.subrange(0, i as int).map_values(|v: VariantInfo| variant_field_paths(v));
                    let nxt = vs@.subrange(0, i + 1).map_values(|v: VariantInfo| variant_field_paths(v));
                    assert(nxt =~= pre.push(variant_field_paths(vs@[i as int])));
                    pre.lemma_flatten_push(variant_field_paths(vs@[i as int]));
                }
                i = i + 1;
            }
            assert(vs@.subrange(0, vs@.len() as int) =~= vs@);
        },
        TypeInfo::SetOf { value } => {
            out.push(value.clone());
        },
        TypeInfo::Opaque => {},
    }
    assert(strings_view(out@) =~= direct_deps(*info));
    out
}

fn variant_field_type_paths(v: &VariantInfo) -> (r: Vec<String>)
    ensures
        strings_view(r@) == variant_field_paths(*v),
{
    let mut out: Vec<String> = Vec::new();
    match v {
        VariantInfo::Struct { fields: fs, .. } => {
            let mut i: usize = 0;
            while i < fs.len()
                invariant
                    i <= fs@.len(),
                    strings_view(out@) == fs@.subrange(0, i as int).map_values(|f: NamedField| f.type_path@),
                decreases fs@.len() - i,
            {
                let ghost before = out@;
                out.push(fs[i].type_path.clone());
                assert(strings_view(out@) =~= strings_view(before).push(fs@[i as int].type_path@));
                assert(fs@.subrange(0, i + 1).map_values(|f: NamedField| f.type_path@) =~= fs@.subrange(0, i as int).map_values(|f: NamedField| f.type_path@).push(fs@[i as int].type_path@));
                i = i + 1;
            }
            assert(fs@.subrange(0, fs@.len() as int) =~= fs@);
        },
        VariantInfo::Tuple { fields: fs, .. } => {
            let mut i: usize = 0;
            while i < fs.len()
                invariant
                    i <= fs@.len(),
                    strings_view(out@) == fs@.subrange(0, i as int).map_values(|f: UnnamedField| f.type_path@),
                decreases fs@.len() - i,
            {
                let ghost before = out@;
                out.push(fs[i].type_path.clone());
                assert(strings_view(out@) =~= strings_view(before).push(fs@[i as int].type_path@));
                assert(fs@.subrange(0, i + 1).map_values(|f: UnnamedField| f.type_path@) =~= fs@.subrange(0, i as int).map_values(|f: UnnamedField| f.type_path@).push(fs@[i as int].type_path@));
                i = i + 1;
            }
            assert(fs@.subrange(0, fs@.len() as int) =~= fs@);
        },
        VariantInfo::Unit { .. } => {},
    }
    assert(strings_view(out@) =~= variant_field_paths(*v));
    out
}

/// All the dependencies of type `t`, following nested types at most `fuel`
/// levels deep.
pub fn dependencies(registry: &TypeRegistry, t: &TypeRegistration, fuel: usize) -> (r: Vec<String>)
    requires
        registry.wf(),
    ensures
        strings_view(r@) == all_deps(registry.types@, t.info, fuel as nat),
    decreases fuel,
{
    let direct = direct_dependencies(&t.info);
    let mut out: Vec<String> = Vec::new();
    push_all(&mut out, clone_strings(&direct));
    let mut i: usize = 0;
    assert(direct@.subrange(0, 0) =~= Seq::<String>::empty());
    assert(strings_view(out@) =~= strings_view(direct@) + deps_of_each(registry.types@, strings_view(direct@.subrange(0, 0)), fuel as nat));
    while i < direct.len()
        invariant
            registry.wf(),
            i <= direct@.len(),
            strings_view(out@) == strings_view(direct@) + deps_of_each(registry.types@, strings_view(direct@.subrange(0, i as int)), fuel as nat),
        decreases direct@.len() - i,
    {
        let ghost ds = strings_view(direct@.subrange(0, i + 1));
        assert(ds.drop_last() =~= strings_view(direct@.subrange(0, i as int)));
        assert(ds.last() == direct@[i as int]@);
        if fuel > 0 {
            match registry.get_with_type_path(direct[i].as_str()) {
                Some(dt) => {
                    let more = dependencies(registry, dt, fuel - 1);
                    let ghost before = out@;
                    push_all(&mut out, more);
                },
                None => {},
            }
        }
        i = i + 1;
    }
    assert(direct@.subrange(0, direct@.len() as int) =~= direct@);
    out
}

fn clone_strings(v: &Vec<String>) -> (r: Vec<String>)
    ensures
        strings_view(r@) == strings_view(v@),
{
    let mut out: Vec<String> = Vec::new();
    let mut i: usize = 0;
    while i < v.len()
        invariant
            i <= v@.len(),
            strings_view(out@) == strings_view(v@.subrange(0, i as int)),
        decreases v@.len() - i,
    {
        let ghost before = out@;
        out.push(v[i].clone());
        assert(strings_view(out@) =~= strings_view(before).push(v@[i as int]@));
        assert(strings_view(v@.subrange(0, i + 1)) =~= strings_view(v@.subrange(0, i as int)).push(v@[i as int]@));
        i = i + 1;
    }
    assert(v@.subrange(0, v@.len() as int) =~= v@);
    out
}


/// Every field (or item) type of `info` is registered.
pub open spec fn fields_closed(types: Seq<TypeRegistration>, info: TypeInfo) -> bool {
    forall|p: Seq<char>| #[trigger] field_type_paths(info).contains(p) ==> is_registered(types, p)
}

/// The type kinds that can take part in an export.
pub open spec fn spec_is_supported(info: TypeInfo) -> bool {
    match info {
        TypeInfo::TupleStruct(_) | TypeInfo::Struct(_) | TypeInfo::Tuple(_) | TypeInfo::Array { .. }
        | TypeInfo::Enum(_) | TypeInfo::Opaque => true,
        _ => false,
    }
}

/// The custom types generated for type `t` on their own; the identifier
/// reached comes first. Lists, maps and sets are refused, opaque types
/// produce nothing.
pub open spec fn spec_raw_export(types: Seq<TypeRegistration>, id: int, t: TypeRegistration, use_as: Seq<UseAs>) -> (int, Result<Seq<TypeImportView>, ExportErrorView>) {
    let path = t.type_path@;
    match t.info {
        TypeInfo::TupleStruct(fs) => (id + 1, spec_tuple_struct_export(types, id, path, fs@, t.default_value)),
        TypeInfo::Struct(fs) => (id + 1, spec_struct_export(types, id, path, fs@, t.default_value, use_as)),
        TypeInfo::Tuple(fs) => (id + 1, spec_tuple_export(types, id, path, fs@, t.default_value, use_as)),
        TypeInfo::List { .. } => (id, Err(ExportErrorView::ListUnsupported)),
        TypeInfo::Array { item, capacity } => {
            let r = spec_array_export(types, id, path, item@, capacity as nat, use_as);
            (if r is Ok { id + 1 } else { id }, r)
        },
        TypeInfo::Dictionary { .. } => (id, Err(ExportErrorView::MapUnsupported)),
        TypeInfo::Enum(vs) => spec_enum_export(types, id, path, vs@),
        TypeInfo::Opaque => (id, Ok(Seq::empty())),
        TypeInfo::SetOf { .. } => (id, Err(ExportErrorView::SetUnsupported)),
    }
}

/// Every dependency is registered and of a supported kind.
pub open spec fn deps_supported(types: Seq<TypeRegistration>, ds: Seq<Seq<char>>) -> bool {
    forall|k: int| 0 <= k < ds.len() ==> is_registered(types, #[trigger] ds[k]) && spec_is_supported(lookup(types, ds[k]).info)
}

/// The dependencies of `t` followed as deep as the registry is large.
pub open spec fn export_deps(types: Seq<TypeRegistration>, t: TypeRegistration) -> Seq<Seq<char>> {
    all_deps(types, t.info, types.len())
}

/// The export of `t` with its dependency check: the generated types and the
/// dependencies to export next, or an error (a type with an unsupported
/// dependency is refused). The identifier reached comes first.
pub open spec fn spec_generate_export(types: Seq<TypeRegistration>, id: int, t: TypeRegistration, use_as: Seq<UseAs>) -> (int, Result<(Seq<TypeImportView>, Seq<Seq<char>>), ExportErrorView>) {
    let (id1, r) = spec_raw_export(types, id, t, use_as);
    match r {
        Err(e) => (id1, Err(e)),
        Ok(ex) => if deps_supported(types, export_deps(types, t)) {
            (id1, Ok((ex, export_deps(types, t))))
        } else {
            (id1, Err(ExportErrorView::DependencyError))
        },
    }
}

proof fn lemma_closed_named(types: Seq<TypeRegistration>, info: TypeInfo, fs: Vec<NamedField>)
    requires
        fields_closed(types, info),
        info == TypeInfo::Struct(fs),
    ensures
        named_fields_registered(types, fs@),
{
    assert forall|k: int| 0 <= k < fs@.len() implies is_registered(types, #[trigger] fs@[k].type_path@) by {
        assert(field_type_paths(info).contains(fs@[k].type_path@));
    }
}

proof fn lemma_closed_unnamed(types: Seq<TypeRegistration>, info: TypeInfo, fs: Vec<UnnamedField>)
    requires
        fields_closed(types, info),
        info == TypeInfo::TupleStruct(fs) || info == TypeInfo::Tuple(fs),
    ensures
        unnamed_fields_registered(types, fs@),
{
    assert forall|k: int| 0 <= k < fs@.len() implies is_registered(types, #[trigger] fs@[k].type_path@) by {
        assert(field_type_paths(info).contains(fs@[k].type_path@));
    }
}

proof fn lemma_closed_variants(types: Seq<TypeRegistration>, info: TypeInfo, vs: Vec<VariantInfo>)
    requires
        fields_closed(types, info),
        info == TypeInfo::Enum(vs),
    ensures
        variants_registered(types, vs@),
{
    assert forall|k: int| 0 <= k < vs@.len() implies variant_fields_registered(types, #[trigger] vs@[k]) by {
        match vs@[k] {
            VariantInfo::Struct { fields, .. } => {
                assert forall|j: int| 0 <= j < fields@.len() implies is_registered(types, #[trigger] fields@[j].type_path@) by {
                    assert(crate::properties::reflect::variant_has_field_type(vs@[k], fields@[j].type_path@));
                    assert(field_type_paths(info).contains(fields@[j].type_path@));
                }
            },
            VariantInfo::Tuple { fields, .. } => {
                assert forall|j: int| 0 <= j < fields@.len() implies is_registered(types, #[trigger] fields@[j].type_path@) by {
                    assert(crate::properties::reflect::variant_has_field_type(vs@[k], fields@[j].type_path@));
                    assert(field_type_paths(info).contains(fields@[j].type_path@));
                }
            },
            VariantInfo::Unit { .. } => {},
        }
    }
}


/// The type is of a kind that can take part in an export.
pub fn is_supported(t: &TypeRegistration) -> (r: bool)
    ensures
        r == spec_is_supported(t.info),
{
    match &t.info {
        TypeInfo::TupleStruct(_) | TypeInfo::Struct(_) | TypeInfo::Tuple(_) | TypeInfo::Array { .. }
        | TypeInfo::Enum(_) | TypeInfo::Opaque => true,
        _ => false,
    }
}

fn all_deps_supported(registry: &TypeRegistry, ds: &Vec<String>) -> (r: bool)
    requires
        registry.wf(),
    ensures
        r == deps_supported(registry.types@, strings_view(ds@)),
{
    let mut i: usize = 0;
    while i < ds.len()
        invariant
            registry.wf(),
            i <= ds@.len(),
            forall|k: int| 0 <= k < i ==> is_registered(registry.types@, #[trigger] strings_view(ds@)[k])
                && spec_is_supported(lookup(registry.types@, strings_view(ds@)[k]).info),
        decreases ds@.len() - i,
    {
        match registry.get_with_type_path(ds[i].as_str()) {
            Some(t) => {
                if !is_supported(t) {
                    assert(!(is_registered(registry.types@, strings_view(ds@)[i as int])
                        && spec_is_supported(lookup(registry.types@, strings_view(ds@)[i as int]).info)));
                    return false;
                }
            },
            None => {
                assert(!is_registered(registry.types@, strings_view(ds@)[i as int]));
                return false;
            },
        }
        i = i + 1;
    }
    true
}



/// The members of the named fields can all be made.
fn named_members_ok(registry: &TypeRegistry, fields: &Vec<NamedField>) -> (r: bool)
    requires
        registry.wf(),
        named_fields_registered(registry.types@, fields@),
    ensures
        r == (spec_named_members(registry.types@, fields@, None) is Ok),
{
    let mut i: usize = 0;
    assert(fields@.subrange(0, 0) =~= Seq::<NamedField>::empty());
    while i < fields.len()
        invariant
            registry.wf(),
            named_fields_registered(registry.types@, fields@),
            i <= fields@.len(),
            spec_named_members(registry.types@, fields@.subrange(0, i as int), None) is Ok,
        decreases fields@.len() - i,
    {
        let ghost next = fields@.subrange(0, i + 1);
        assert(next.drop_last() =~= fields@.subrange(0, i as int));
        assert(next.last() == fields@[i as int]);
        match field_of(registry, &fields[i].type_path) {
            Err(_) => {
                proof {
                    lemma_named_members_err_prefix(registry.types@, fields@, None, i as int + 1);
                }
                return false;
            },
            Ok(_) => {},
        }
        i = i + 1;
    }
    assert(fields@.subrange(0, fields@.len() as int) =~= fields@);
    true
}

/// The members of the positional fields can all be made.
fn unnamed_members_ok(registry: &TypeRegistry, fields: &Vec<UnnamedField>) -> (r: bool)
    requires
        registry.wf(),
        unnamed_fields_registered(registry.types@, fields@),
    ensures
        r == (spec_unnamed_members(registry.types@, fields@, None) is Ok),
{
    let mut i: usize = 0;
    assert(fields@.subrange(0, 0) =~= Seq::<UnnamedField>::empty());
    while i < fields.len()
        invariant
            registry.wf(),
            unnamed_fields_registered(registry.types@, fields@),
            i <= fields@.len(),
            spec_unnamed_members(registry.types@, fields@.subrange(0, i as int), None) is Ok,
        decreases fields@.len() - i,
    {
        let ghost next = fields@.subrange(0, i + 1);
        assert(next.drop_last() =~= fields@.subrange(0, i as int));
        assert(next.last() == fields@[i as int]);
        match field_of(registry, &fields[i].type_path) {
            Err(_) => {
                proof {
                    lemma_unnamed_members_err_prefix(registry.types@, fields@, None, i as int + 1);
                }
                return false;
            },
            Ok(_) => {},
        }
        i = i + 1;
    }
    assert(fields@.subrange(0, fields@.len() as int) =~= fields@);
    true
}

/// `r` stands for the identifier `spec`: equal when it fits in a `u32`,
/// and beyond that range exactly when `spec` is.
pub open spec fn id_matches(r: u64, spec: int) -> bool {
    (r <= u32::MAX) == (spec <= u32::MAX) && (r <= u32::MAX ==> r == spec)
}

/// The identifier the export of an enum reaches.
fn enum_export_id(registry: &TypeRegistry, path: &String, vs: &Vec<VariantInfo>, id: u32) -> (r: u64)
    requires
        registry.wf(),
        variants_registered(registry.types@, vs@),
    ensures
        id_matches(r, spec_enum_export(registry.types@, id as int, path@, vs@).0),
{
    let ghost types = registry.types@;
    if all_unit_variants(vs) {
        return id as u64 + 1;
    }
    let ghost start = id as int + 1;
    proof {
        lemma_variant_exports_mono(types, start, path@, vs@, 0);
        lemma_variant_exports_ids(types, start, path@, vs@);
    }
    let mut cur: u64 = id as u64 + 1;
    let mut i: usize = 0;
    assert(vs@.subrange(0, 0) =~= Seq::<VariantInfo>::empty());
    while i < vs.len()
        invariant
            registry.wf(),
            types == registry.types@,
            variants_registered(types, vs@),
            !all_unit(vs@),
            start == id as int + 1,
            i <= vs@.len(),
            cur <= u32::MAX + 1,
            spec_variant_exports(types, start, path@, vs@.subrange(0, i as int)).0 == cur as int,
            spec_variant_exports(types, start, path@, vs@.subrange(0, i as int)).1 is Ok,
        decreases vs@.len() - i,
    {
        let ghost pre = vs@.subrange(0, i as int);
        let ghost next = vs@.subrange(0, i + 1);
        assert(next.drop_last() =~= pre);
        assert(next.last() == vs@[i as int]);
        assert(variant_fields_registered(types, vs@[i as int]));
        match &vs[i] {
            VariantInfo::Struct { fields, .. } => {
                cur = cur + 1;
                if !named_members_ok(registry, fields) {
                    proof {
                        lemma_variant_exports_err_prefix(types, start, path@, vs@, i as int + 1);
                    }
                    return cur;
                }
            },
            VariantInfo::Tuple { fields, .. } => {
                cur = cur + 1;
                if !unnamed_members_ok(registry, fields) {
                    proof {
                        lemma_variant_exports_err_prefix(types, start, path@, vs@, i as int + 1);
                    }
                    return cur;
                }
            },
            VariantInfo::Unit { .. } => {},
        }
        if cur > 0xffff_ffff {
            proof {
                lemma_variant_exports_mono(types, start, path@, vs@, i as int + 1);
            }
            return cur;
        }
        i = i + 1;
    }
    assert(vs@.subrange(0, vs@.len() as int) =~= vs@);
    cur + 1
}

/// The identifier the export of `t` on its own reaches.
fn raw_export_id(registry: &TypeRegistry, t: &TypeRegistration, id: u32) -> (r: u64)
    requires
        registry.wf(),
        fields_closed(registry.types@, t.info),
    ensures
        id_matches(r, spec_raw_export(registry.types@, id as int, *t, use_as_property()).0),
{
    match &t.info {
        TypeInfo::TupleStruct(_) | TypeInfo::Struct(_) | TypeInfo::Tuple(_) => id as u64 + 1,
        TypeInfo::Array { item, .. } => {
            assert(field_type_paths(t.info).contains(item@));
            match field_of(registry, item) {
                Ok(_) => id as u64 + 1,
                Err(_) => id as u64,
            }
        },
        TypeInfo::Enum(vs) => {
            proof {
                lemma_closed_variants(registry.types@, t.info, *vs);
            }
            enum_export_id(registry, &t.type_path, vs, id)
        },
        _ => id as u64,
    }
}

/// An export entry's view: the reflected type path and its custom types.
pub type EntryView = (Seq<char>, Seq<TypeImportView>);

/// The custom type is a class with a member of custom type `p`.
pub open spec fn class_references(t: TypeImportView, p: Seq<char>) -> bool {
    match t.type_data {
        TypeDataView::Class(c) => exists|k: int| 0 <= k < c.members.len() && #[trigger] c.members[k].property_type == Some(p),
        TypeDataView::Enum(_) => false,
    }
}

/// Index of the first custom type from position `j` on that refers to `p`.
pub open spec fn first_ref_from(ex: Seq<TypeImportView>, p: Seq<char>, j: int) -> Option<int>
    decreases ex.len() - j,
{
    if j < 0 || j >= ex.len() {
        None
    } else if class_references(ex[j], p) {
        Some(j)
    } else {
        first_ref_from(ex, p, j + 1)
    }
}

/// One sweep over the entries for the removed path `p`: the entries kept
/// (those none of whose custom types refers to `p`), and, for each entry
/// dropped, the name of its first custom type that refers to `p`.
pub open spec fn retain_pass(entries: Seq<EntryView>, p: Seq<char>) -> (Seq<EntryView>, Seq<Seq<char>>)
    decreases entries.len(),
{
    if entries.len() == 0 {
        (Seq::empty(), Seq::empty())
    } else {
        let (kept, pushed) = retain_pass(entries.drop_last(), p);
        let e = entries.last();
        match first_ref_from(e.1, p, 0) {
            Some(j) => (kept, pushed.push(e.1[j].name)),
            None => (kept.push(e), pushed),
        }
    }
}

/// One pass of the removal keeps or sets aside each entry: together they
/// are as many as the entries.
pub proof fn lemma_retain_pass_len(entries: Seq<EntryView>, p: Seq<char>)
    ensures
        retain_pass(entries, p).0.len() + retain_pass(entries, p).1.len() == entries.len(),
    decreases entries.len(),
{
    if entries.len() > 0 {
        lemma_retain_pass_len(entries.drop_last(), p);
    }
}

/// Removal of every entry that refers, directly or through removed entries,
/// to a path of the work stack `stack` (taken from its end).
pub open spec fn spec_remove_closure(entries: Seq<EntryView>, stack: Seq<Seq<char>>) -> Seq<EntryView>
    decreases 2 * entries.len() + stack.len(),
{
    if stack.len() == 0 {
        entries
    } else {
        let (kept, pushed) = retain_pass(entries, stack.last());
        proof {
            lemma_retain_pass_len(entries, stack.last());
        }
        spec_remove_closure(kept, stack.drop_last() + pushed)
    }
}


fn class_refers_to(t: &TypeImport, p: &String) -> (r: bool)
    ensures
        r == class_references(t@, p@),
{
    match &t.type_data {
        TypeData::Enum(_) => false,
        TypeData::Class(c) => {
            let mut k: usize = 0;
            while k < c.members.len()
                invariant
                    k <= c.members@.len(),
                    t.type_data == TypeData::Class(*c),
                    forall|q: int| 0 <= q < k ==> members_view(c.members@)[q].property_type != Some(p@),
                decreases c.members@.len() - k,
            {
                let hit = match &c.members[k].property_type {
                    Some(s) => s.eq(p),
                    None => false,
                };
                if hit {
                    assert(members_view(c.members@)[k as int].property_type == Some(p@));
                    return true;
                }
                k = k + 1;
            }
            assert(!class_references(t@, p@)) by {
                if class_references(t@, p@) {
                    let q = choose|q: int| 0 <= q < members_view(c.members@).len() && #[trigger] members_view(c.members@)[q].property_type == Some(p@);
                    assert(members_view(c.members@)[q].property_type != Some(p@));
                }
            }
            false
        },
    }
}

proof fn lemma_first_ref_from(ex: Seq<TypeImportView>, p: Seq<char>, k: int)
    requires
        0 <= k,
    ensures
        match first_ref_from(ex, p, k) {
            Some(j) => k <= j < ex.len() && class_references(ex[j], p)
                && forall|q: int| k <= q < j ==> !class_references(#[trigger] ex[q], p),
            None => forall|q: int| k <= q < ex.len() ==> !class_references(#[trigger] ex[q], p),
        },
    decreases ex.len() - k,
{
    if k < ex.len() {
        lemma_first_ref_from(ex, p, k + 1);
    }
}

fn first_referencing(ex: &Vec<TypeImport>, p: &String) -> (r: Option<usize>)
    ensures
        match r {
            Some(j) => first_ref_from(imports_view(ex@), p@, 0) == Some(j as int) && j < ex@.len(),
            None => first_ref_from(imports_view(ex@), p@, 0) is None,
        },
{
    let mut j: usize = 0;
    while j < ex.len()
        invariant
            j <= ex@.len(),
            first_ref_from(imports_view(ex@), p@, 0) == first_ref_from(imports_view(ex@), p@, j as int),
        decreases ex@.len() - j,
    {
        if class_refers_to(&ex[j], p) {
            proof {
                lemma_first_ref_from(imports_view(ex@), p@, j as int);
            }
            return Some(j);
        }
        j = j + 1;
    }
    None
}


/// Index of the first entry from position `i` on whose type path is `key`.
pub open spec fn key_index_from(entries: Seq<EntryView>, key: Seq<char>, i: int) -> Option<int>
    decreases entries.len() - i,
{
    if i < 0 || i >= entries.len() {
        None
    } else if entries[i].0 == key {
        Some(i)
    } else {
        key_index_from(entries, key, i + 1)
    }
}

/// Entries after setting the custom types of `key` (replacing those it had).
pub open spec fn spec_insert(entries: Seq<EntryView>, key: Seq<char>, val: Seq<TypeImportView>) -> Seq<EntryView> {
    match key_index_from(entries, key, 0) {
        Some(i) => entries.update(i, (key, val)),
        None => entries.push((key, val)),
    }
}

/// Abstract state of an export registry.
pub struct ExportState {
    pub entries: Seq<EntryView>,
    pub id: int,
}

/// Registration of type `t`: on success its custom types are recorded
/// (when there are any) and its dependencies returned; on failure every
/// entry that depends on it is removed and no dependency is returned.
pub open spec fn spec_register(types: Seq<TypeRegistration>, st: ExportState, t: TypeRegistration, use_as: Seq<UseAs>) -> (ExportState, Seq<Seq<char>>) {
    let (id1, r) = spec_generate_export(types, st.id, t, use_as);
    match r {
        Ok((ex, nd)) => (
            ExportState {
                entries: if ex.len() > 0 { spec_insert(st.entries, t.type_path@, ex) } else { st.entries },
                id: id1,
            },
            nd,
        ),
        Err(_) => (ExportState { entries: spec_remove_closure(st.entries, seq![t.type_path@]), id: id1 }, Seq::empty()),
    }
}

proof fn lemma_key_index_from(entries: Seq<EntryView>, key: Seq<char>, k: int)
    requires
        0 <= k,
    ensures
        match key_index_from(entries, key, k) {
            Some(j) => k <= j < entries.len() && entries[j].0 == key,
            None => forall|q: int| k <= q < entries.len() ==> #[trigger] entries[q].0 != key,
        },
    decreases entries.len() - k,
{
    if k < entries.len() {
        lemma_key_index_from(entries, key, k + 1);
    }
}

proof fn lemma_raw_export_ids(types: Seq<TypeRegistration>, id: int, t: TypeRegistration, use_as: Seq<UseAs>)
    ensures
        spec_raw_export(types, id, t, use_as).0 >= id,
{
    match t.info {
        TypeInfo::Enum(vs) => {
            lemma_variant_exports_ids(types, id + 1, t.type_path@, vs@);
        },
        _ => {},
    }
}


/// The empty export state.
pub open spec fn empty_state() -> ExportState {
    ExportState { entries: Seq::empty(), id: 0 }
}

/// The type is a component, a bundle or a resource.
pub open spec fn is_exported_root(t: TypeRegistration) -> bool {
    t.is_component || t.is_bundle || t.is_resource
}

/// First pass over the registry (its first `k` types): each component,
/// bundle or resource is registered as a property; the dependencies they
/// report are collected in order.
pub open spec fn spec_first_pass(types: Seq<TypeRegistration>, k: nat) -> (ExportState, Seq<Seq<char>>)
    decreases k,
{
    if k == 0 || k > types.len() {
        (empty_state(), Seq::empty())
    } else {
        let (st, deps) = spec_first_pass(types, (k - 1) as nat);
        let t = types[k - 1];
        if is_exported_root(t) {
            let (st2, nd) = spec_register(types, st, t, use_as_property());
            (st2, deps + nd)
        } else {
            (st, deps)
        }
    }
}

/// One step of the second pass: a dependency not yet exported is
/// registered as a property when its type is known.
pub open spec fn spec_dep_step(types: Seq<TypeRegistration>, st: ExportState, d: Seq<char>) -> ExportState {
    if key_index_from(st.entries, d, 0) is Some {
        st
    } else if is_registered(types, d) {
        spec_register(types, st, lookup(types, d), use_as_property()).0
    } else {
        st
    }
}

/// Second pass: the collected dependencies, in order.
pub open spec fn spec_second_pass(types: Seq<TypeRegistration>, st: ExportState, deps: Seq<Seq<char>>) -> ExportState
    decreases deps.len(),
{
    if deps.len() == 0 {
        st
    } else {
        spec_second_pass(types, spec_dep_step(types, st, deps[0]), deps.drop_first())
    }
}

/// The export of a whole registry.
pub open spec fn spec_from_registry(types: Seq<TypeRegistration>) -> ExportState {
    let (st, deps) = spec_first_pass(types, types.len());
    spec_second_pass(types, st, deps)
}

proof fn lemma_register_ids(types: Seq<TypeRegistration>, st: ExportState, t: TypeRegistration, use_as: Seq<UseAs>)
    ensures
        spec_register(types, st, t, use_as).0.id >= st.id,
        spec_register(types, st, t, use_as).0.id == spec_raw_export(types, st.id, t, use_as).0,
{
    lemma_raw_export_ids(types, st.id, t, use_as);
}

proof fn lemma_first_pass_mono(types: Seq<TypeRegistration>, k: nat, n: nat)
    requires
        k <= n <= types.len(),
    ensures
        spec_first_pass(types, k).0.id <= spec_first_pass(types, n).0.id,
    decreases n - k,
{
    if k < n {
        lemma_first_pass_mono(types, k, (n - 1) as nat);
        let (st, deps) = spec_first_pass(types, (n - 1) as nat);
        lemma_register_ids(types, st, types[n - 1], use_as_property());
    }
}

proof fn lemma_second_pass_mono(types: Seq<TypeRegistration>, st: ExportState, deps: Seq<Seq<char>>)
    ensures
        spec_second_pass(types, st, deps).id >= spec_dep_step(types, st, if deps.len() > 0 { deps[0] } else { Seq::empty() }).id || deps.len() == 0,
        spec_second_pass(types, st, deps).id >= st.id,
    decreases deps.len(),
{
    if deps.len() > 0 {
        let st2 = spec_dep_step(types, st, deps[0]);
        lemma_second_pass_mono(types, st2, deps.drop_first());
        if key_index_from(st.entries, deps[0], 0) is None && is_registered(types, deps[0]) {
            lemma_register_ids(types, st, lookup(types, deps[0]), use_as_property());
        }
    }
}


/// Sorted by name, in the order of `String`.
pub open spec fn sorted_by_name(s: Seq<TypeImportView>) -> bool {
    forall|i: int, j: int| 0 <= i < j < s.len() ==> lex_le(#[trigger] s[i].name, #[trigger] s[j].name)
}

/// The custom types of all entries, entry after entry.
pub open spec fn all_exports(entries: Seq<EntryView>) -> Seq<TypeImportView> {
    entries.map_values(|e: EntryView| e.1).flatten()
}

fn insert_sorted(out: &mut Vec<TypeImport>, t: TypeImport)
    requires
        sorted_by_name(imports_view(old(out)@)),
    ensures
        sorted_by_name(imports_view(final(out)@)),
        imports_view(final(out)@).to_multiset() == imports_view(old(out)@).to_multiset().insert(t@),
{
    let ghost v = imports_view(out@);
    let mut k: usize = 0;
    while k < out.len() && lex_le_str(out[k].name.as_str(), t.name.as_str())
        invariant
            v == imports_view(out@),
            k <= out@.len(),
            forall|q: int| 0 <= q < k ==> lex_le(#[trigger] v[q].name, t.name@),
        decreases out@.len() - k,
    {
        k = k + 1;
    }
    proof {
        if k < v.len() {
            assert(!lex_le(v[k as int].name, t.name@));
            lemma_lex_total(v[k as int].name, t.name@);
            assert forall|q: int| k <= q < v.len() implies lex_le(t.name@, #[trigger] v[q].name) by {
                if q > k {
                    assert(lex_le(v[k as int].name, v[q].name));
                    lemma_lex_trans(t.name@, v[k as int].name, v[q].name);
                }
            }
        }
    }
    out.insert(k, t);
    proof {
        let w = imports_view(out@);
        assert(w =~= v.insert(k as int, t@));
        broadcast use vstd::seq_lib::to_multiset_insert;
        assert forall|i: int, j: int| 0 <= i < j < w.len() implies lex_le(#[trigger] w[i].name, #[trigger] w[j].name) by {
            if j < k {
                assert(w[i] == v[i] && w[j] == v[j]);
            } else if j == k {
                assert(w[i] == v[i]);
            } else if i == k {
                assert(w[j] == v[j - 1]);
            } else if i < k {
                assert(w[i] == v[i] && w[j] == v[j - 1]);
                lemma_lex_trans(v[i].name, t.name@, v[j - 1].name);
            } else {
                assert(w[i] == v[i - 1] && w[j] == v[j - 1]);
            }
        }
    }
}

/// A registration state of the export: entries by type path, and the last
/// identifier handed out.
#[derive(Debug)]
pub struct TypeExportRegistry {
    entries: Vec<ExportEntry>,
    id: u32,
}

/// The custom types exported for one reflected type.
#[derive(Debug, Clone, PartialEq, Eq)]
pub struct ExportEntry {
    pub type_path: String,
    pub exports: Vec<TypeImport>,
}

/// Abstract view of an entry.
pub open spec fn entry_view(e: ExportEntry) -> (Seq<char>, Seq<TypeImportView>) {
    (e.type_path@, imports_view(e.exports@))
}

impl TypeExportRegistry {
    /// The entries, in insertion order.
    pub closed spec fn spec_entries(&self) -> Seq<(Seq<char>, Seq<TypeImportView>)> {
        self.entries@.map_values(|e: ExportEntry| entry_view(e))
    }

    /// The last identifier handed out.
    pub closed spec fn spec_id(&self) -> int {
        self.id as int
    }

    pub closed spec fn wf(&self) -> bool {
        0 <= self.id <= u32::MAX
    }

    /// An empty registry.
    pub fn new() -> (r: Self)
        ensures
            r.spec_entries() == Seq::<(Seq<char>, Seq<TypeImportView>)>::empty(),
            r.spec_id() == 0,
    {
        let r = TypeExportRegistry { entries: Vec::new(), id: 0 };
        assert(r.spec_entries() =~= Seq::<(Seq<char>, Seq<TypeImportView>)>::empty());
        r
    }

    fn next_id(&mut self) -> (r: u32)
        requires
            old(self).spec_id() < u32::MAX,
        ensures
            final(self).spec_id() == old(self).spec_id() + 1,
            r == final(self).spec_id(),
            final(self).spec_entries() == old(self).spec_entries(),
    {
        self.id = self.id + 1;
        self.id
    }

    fn class_import(id: u32, name: String, use_as: Vec<UseAs>, members: Vec<Member>) -> (t: TypeImport)
        ensures
            t@ == class_view(id as int, name@, use_as@, members_view(members@)),
    {
        proof {
            reveal_strlit("#000000");
        }
        let t = TypeImport {
            id,
            name,
            type_data: TypeData::Class(Class { use_as, color: "#000000".to_owned(), draw_fill: true, members }),
        };
        assert(t@.type_data == class_view(id as int, t.name@, t.type_data->Class_0.use_as@, members_view(t.type_data->Class_0.members@)).type_data);
        t
    }

    fn class_export(id: u32, name: String, use_as: Vec<UseAs>, members: Vec<Member>) -> (r: Vec<TypeImport>)
        ensures
            imports_view(r@) == seq![class_view(id as int, name@, use_as@, members_view(members@))],
    {
        let t = Self::class_import(id, name, use_as, members);
        let r = vec![t];
        assert(imports_view(r@) =~= seq![t@]);
        r
    }

    fn enum_import(id: u32, name: String, values: Vec<String>) -> (t: TypeImport)
        ensures
            t@ == enum_view(id as int, name@, values@.map_values(|v: String| v@)),
    {
        TypeImport {
            id,
            name,
            type_data: TypeData::Enum(Enum { storage_type: StorageType::String, values, values_as_flags: false }),
        }
    }

    fn generate_enum_export(&mut self, registry: &TypeRegistry, path: &String, vs: &Vec<VariantInfo>) -> (r: Result<Vec<TypeImport>, ExportConversionError>)
        requires
            spec_enum_export(registry.types@, old(self).spec_id(), path@, vs@).0 <= u32::MAX,
            registry.wf(),
            variants_registered(registry.types@, vs@),
        ensures
            final(self).spec_id() == spec_enum_export(registry.types@, old(self).spec_id(), path@, vs@).0,
            final(self).spec_entries() == old(self).spec_entries(),
            exports_match(r, spec_enum_export(registry.types@, old(self).spec_id(), path@, vs@).1),
    {
        let ghost id0 = self.spec_id();
        proof {
            lemma_variant_exports_ids(registry.types@, id0 + 1, path@, vs@);
        }
        let names = variant_name_list(vs);
        if all_unit_variants(vs) {
            let id = self.next_id();
            let t = Self::enum_import(id, path.clone(), names);
            let r = vec![t];
            assert(imports_view(r@) =~= seq![t@]);
            return Ok(r);
        }
        let mut vname = path.clone();
        vname.append(":::Variant");
        let first_id = self.next_id();
        let first = Self::enum_import(first_id, vname.clone(), names);
        let mut out = vec![first];
        let selector_value = if vs.len() > 0 {
            JsonValue::Str(vs[0].name().clone())
        } else {
            JsonValue::Null
        };
        let selector = make_member(":variant".to_owned(), (FieldType::Class, Some(vname)), selector_value);
        let mut root_members = vec![selector];
        let ghost mut cs: Seq<TypeImportView> = Seq::empty();
        let ghost mut ms: Seq<MemberView> = Seq::empty();
        assert(imports_view(out@) =~= seq![first@] + cs);
        assert(members_view(root_members@) =~= seq![selector@] + ms);
        assert(vs@.subrange(0, 0) =~= Seq::<VariantInfo>::empty());
        let mut i: usize = 0;
        while i < vs.len()
            invariant
                registry.wf(),
                variants_registered(registry.types@, vs@),
                i <= vs@.len(),
                spec_enum_export(registry.types@, id0, path@, vs@).0 <= u32::MAX,
                !all_unit(vs@),
                id0 == old(self).spec_id(),
                id0 + 1 <= self.spec_id() <= id0 + 1 + i,
                self.spec_entries() == old(self).spec_entries(),
                spec_variant_exports(registry.types@, id0 + 1, path@, vs@.subrange(0, i as int))
                    == (self.spec_id(), Ok::<(Seq<TypeImportView>, Seq<MemberView>), ExportErrorView>((cs, ms))),
                imports_view(out@) == seq![first@] + cs,
                members_view(root_members@) == seq![selector@] + ms,
            decreases vs@.len() - i,
        {
            let ghost prefix = vs@.subrange(0, i as int);
            let ghost next = vs@.subrange(0, i + 1);
            assert(next.drop_last() =~= prefix);
            assert(next.last() == vs@[i as int]);
            assert(variant_fields_registered(registry.types@, vs@[i as int]));
            proof {
                lemma_variant_exports_mono(registry.types@, id0 + 1, path@, vs@, i as int + 1);
                lemma_variant_exports_ids(registry.types@, id0 + 1, path@, vs@);
            }
            match &vs[i] {
                VariantInfo::Struct { name, fields } => {
                    let mut cname = path.clone();
                    cname.append("::");
                    cname.append(name.as_str());
                    let cid = self.next_id();
                    let fm = match named_members(registry, fields, None) {
                        Err(e) => {
                            proof {
                                assert(spec_named_members(registry.types@, fields@, None) == Err::<Seq<MemberView>, ExportErrorView>(e@));
                                assert(spec_variant_exports(registry.types@, id0 + 1, path@, next) == (self.spec_id(), Err::<(Seq<TypeImportView>, Seq<MemberView>), ExportErrorView>(e@)));
                                lemma_variant_exports_err_prefix(registry.types@, id0 + 1, path@, vs@, i + 1);
                                assert(spec_enum_export(registry.types@, id0, path@, vs@) == (self.spec_id(), Err::<Seq<TypeImportView>, ExportErrorView>(e@)));
                            }
                            return Err(e);
                        },
                        Ok(fm) => fm,
                    };
                    let ua = vec![UseAs::Property];
                    assert(ua@ =~= use_as_property());
                    let c = Self::class_import(cid, cname.clone(), ua, fm);
                    let m = make_member(name.clone(), (FieldType::Class, Some(cname)), JsonValue::Null);
                    let ghost oldout = out@;
                    let ghost oldroot = root_members@;
                    out.push(c);
                    root_members.push(m);
                    proof {
                        cs = cs.push(c@);
                        ms = ms.push(m@);
                        assert(imports_view(out@) =~= imports_view(oldout).push(c@));
                        assert(members_view(root_members@) =~= members_view(oldroot).push(m@));
                    }
                },
                VariantInfo::Tuple { name, fields } => {
                    let mut cname = path.clone();
                    cname.append("::");
                    cname.append(name.as_str());
                    let cid = self.next_id();
                    let fm = match unnamed_members(registry, fields, None) {
                        Err(e) => {
                            proof {
                                lemma_variant_exports_err_prefix(registry.types@, id0 + 1, path@, vs@, i + 1);
                                assert(spec_enum_export(registry.types@, id0, path@, vs@) == (self.spec_id(), Err::<Seq<TypeImportView>, ExportErrorView>(e@)));
                            }
                            return Err(e);
                        },
                        Ok(fm) => fm,
                    };
                    let ua = vec![UseAs::Property];
                    assert(ua@ =~= use_as_property());
                    let c = Self::class_import(cid, cname.clone(), ua, fm);
                    let m = make_member(name.clone(), (FieldType::Class, Some(cname)), JsonValue::Null);
                    let ghost oldout = out@;
                    let ghost oldroot = root_members@;
                    out.push(c);
                    root_members.push(m);
                    proof {
                        cs = cs.push(c@);
                        ms = ms.push(m@);
                        assert(imports_view(out@) =~= imports_view(oldout).push(c@));
                        assert(members_view(root_members@) =~= members_view(oldroot).push(m@));
                    }
                },
                VariantInfo::Unit { .. } => {},
            }
            i = i + 1;
        }
        assert(vs@.subrange(0, vs@.len() as int) =~= vs@);
        let root_id = self.next_id();
        let ua = vec![UseAs::Property];
        assert(ua@ =~= use_as_property());
        let root = Self::class_import(root_id, path.clone(), ua, root_members);
        let ghost oldout = out@;
        out.push(root);
        assert(imports_view(out@) =~= imports_view(oldout).push(root@));
        assert(imports_view(out@) =~= seq![first@] + cs + seq![root@]);
        Ok(out)
    }

    fn generate_export(&mut self, registry: &TypeRegistry, t: &TypeRegistration, use_as: Vec<UseAs>, deps: &mut Vec<String>) -> (r: Result<Vec<TypeImport>, ExportConversionError>)
        requires
            registry.wf(),
            fields_closed(registry.types@, t.info),
            spec_raw_export(registry.types@, old(self).spec_id(), *t, use_as@).0 <= u32::MAX,
        ensures
            final(self).spec_id() == spec_generate_export(registry.types@, old(self).spec_id(), *t, use_as@).0,
            final(self).spec_entries() == old(self).spec_entries(),
            match (r, spec_generate_export(registry.types@, old(self).spec_id(), *t, use_as@).1) {
                (Ok(v), Ok((ex, nd))) => imports_view(v@) == ex
                    && strings_view(final(deps)@) == strings_view(old(deps)@) + nd,
                (Err(e), Err(d)) => e@ == d && final(deps)@ == old(deps)@,
                _ => false,
            },
    {
        let ghost id0 = self.spec_id();
        let out = match &t.info {
            TypeInfo::TupleStruct(fs) => {
                proof { lemma_closed_unnamed(registry.types@, t.info, *fs); }
                self.generate_tuple_struct_export(registry, &t.type_path, fs, t.default_value.as_ref())
            },
            TypeInfo::Struct(fs) => {
                proof { lemma_closed_named(registry.types@, t.info, *fs); }
                self.generate_struct_export(registry, &t.type_path, fs, t.default_value.as_ref(), use_as)
            },
            TypeInfo::Tuple(fs) => {
                proof { lemma_closed_unnamed(registry.types@, t.info, *fs); }
                self.generate_tuple_export(registry, &t.type_path, fs, t.default_value.as_ref(), use_as)
            },
            TypeInfo::List { .. } => Err(ExportConversionError::ListUnsupported),
            TypeInfo::Array { item, capacity } => {
                assert(field_type_paths(t.info).contains(item@));
                if self.id == u32::MAX {
                    // The item type is not exportable: no identifier is needed.
                    match field_of(registry, item) {
                        Err(e) => Err(e),
                        Ok(_) => {
                            proof { assert(false); }
                            Err(ExportConversionError::DependencyError)
                        },
                    }
                } else {
                    self.generate_array_export(registry, &t.type_path, item, *capacity, use_as)
                }
            },
            TypeInfo::Dictionary { .. } => Err(ExportConversionError::MapUnsupported),
            TypeInfo::Enum(vs) => {
                proof { lemma_closed_variants(registry.types@, t.info, *vs); }
                self.generate_enum_export(registry, &t.type_path, vs)
            },
            TypeInfo::Opaque => {
                let v: Vec<TypeImport> = Vec::new();
                assert(imports_view(v@) =~= Seq::<TypeImportView>::empty());
                Ok(v)
            },
            TypeInfo::SetOf { .. } => Err(ExportConversionError::SetUnsupported),
        };
        assert(self.spec_id() == spec_raw_export(registry.types@, id0, *t, use_as@).0);
        match out {
            Ok(v) => {
                let new_deps = dependencies(registry, t, registry.types.len());
                if all_deps_supported(registry, &new_deps) {
                    push_all(deps, new_deps);
                    Ok(v)
                } else {
                    Err(ExportConversionError::DependencyError)
                }
            },
            Err(e) => Err(e),
        }
    }

    fn retain_not_referencing(&mut self, p: &String, stack: &mut Vec<String>)
        ensures
            final(self).spec_id() == old(self).spec_id(),
            final(self).spec_entries() == retain_pass(old(self).spec_entries(), p@).0,
            strings_view(final(stack)@) == strings_view(old(stack)@) + retain_pass(old(self).spec_entries(), p@).1,
    {
        let ghost orig = self.spec_entries();
        let ghost stack0 = strings_view(stack@);
        let ghost mut consumed: int = 0;
        let mut i: usize = 0;
        assert(orig.subrange(0, 0) =~= Seq::<EntryView>::empty());
        assert(self.spec_entries().subrange(0, 0) =~= Seq::<EntryView>::empty());
        assert(orig.subrange(0, orig.len() as int) =~= orig);
        while i < self.entries.len()
            invariant
                self.spec_id() == old(self).spec_id(),
                orig == old(self).spec_entries(),
                0 <= i <= consumed <= orig.len(),
                self.spec_entries().len() == i + (orig.len() - consumed),
                self.spec_entries().subrange(0, i as int) == retain_pass(orig.subrange(0, consumed), p@).0,
                self.spec_entries().subrange(i as int, self.spec_entries().len() as int) == orig.subrange(consumed, orig.len() as int),
                strings_view(stack@) == stack0 + retain_pass(orig.subrange(0, consumed), p@).1,
                stack0 == strings_view(old(stack)@),
            decreases orig.len() - consumed,
        {
            let ghost cur = self.spec_entries();
            assert(cur[i as int] == orig[consumed]) by {
                assert(cur.subrange(i as int, cur.len() as int)[0] == orig.subrange(consumed, orig.len() as int)[0]);
            }
            let ghost next = orig.subrange(0, consumed + 1);
            assert(next.drop_last() =~= orig.subrange(0, consumed));
            assert(next.last() == orig[consumed]);
            match first_referencing(&self.entries[i].exports, p) {
                Some(j) => {
                    let name = self.entries[i].exports[j].name.clone();
                    let ghost sb = stack@;
                    stack.push(name);
                    assert(strings_view(stack@) =~= strings_view(sb).push(name@));
                    let ghost before = self.entries@;
                    self.entries.remove(i);
                    proof {
                        assert(self.entries@ =~= before.subrange(0, i as int) + before.subrange(i + 1, before.len() as int));
                        assert(self.spec_entries() =~= cur.subrange(0, i as int) + cur.subrange(i + 1, cur.len() as int));
                        assert(self.spec_entries().subrange(0, i as int) =~= cur.subrange(0, i as int));
                        let tail = cur.subrange(i as int, cur.len() as int);
                        assert(tail == orig.subrange(consumed, orig.len() as int));
                        assert(self.spec_entries().subrange(i as int, self.spec_entries().len() as int) =~= tail.subrange(1, tail.len() as int));
                        assert(tail.subrange(1, tail.len() as int) =~= orig.subrange(consumed + 1, orig.len() as int));
                        consumed = consumed + 1;
                    }
                },
                None => {
                    proof {
                        assert(self.spec_entries().subrange(0, i + 1) =~= self.spec_entries().subrange(0, i as int).push(orig[consumed]));
                        let tail = cur.subrange(i as int, cur.len() as int);
                        assert(tail == orig.subrange(consumed, orig.len() as int));
                        assert(self.spec_entries().subrange(i + 1, self.spec_entries().len() as int) =~= tail.subrange(1, tail.len() as int));
                        assert(tail.subrange(1, tail.len() as int) =~= orig.subrange(consumed + 1, orig.len() as int));
                        consumed = consumed + 1;
                    }
                    i = i + 1;
                },
            }
        }
        assert(consumed == orig.len());
        assert(orig.subrange(0, consumed) =~= orig);
        assert(self.spec_entries() =~= self.spec_entries().subrange(0, i as int));
    }

    /// Removes every entry one of whose classes has a member of the custom
    /// type `type_path`, then, in turn, every entry that refers to the name
    /// of the first such class of an entry removed (see
    /// [`spec_remove_closure`]). The entry of `type_path` itself stays
    /// unless it refers to a removed type.
    pub fn remove_with_dependency(&mut self, type_path: &String)
        ensures
            final(self).spec_id() == old(self).spec_id(),
            final(self).spec_entries() == spec_remove_closure(old(self).spec_entries(), seq![type_path@]),
    {
        let mut to_remove: Vec<String> = vec![type_path.clone()];
        assert(strings_view(to_remove@) =~= seq![type_path@]);
        while to_remove.len() > 0
            invariant
                self.spec_id() == old(self).spec_id(),
                spec_remove_closure(self.spec_entries(), strings_view(to_remove@))
                    == spec_remove_closure(old(self).spec_entries(), seq![type_path@]),
            decreases 2 * self.spec_entries().len() + to_remove@.len(),
        {
            let ghost st = strings_view(to_remove@);
            let ghost ent = self.spec_entries();
            let p = to_remove.pop().unwrap();
            assert(strings_view(to_remove@) =~= st.drop_last());
            assert(p@ == st.last());
            let ghost len_before = to_remove@.len();
            self.retain_not_referencing(&p, &mut to_remove);
            proof {
                lemma_retain_pass_len(ent, p@);
                assert(to_remove@.len() == strings_view(to_remove@).len());
                assert(strings_view(to_remove@).len() == len_before + retain_pass(ent, p@).1.len());
                assert(self.spec_entries().len() == retain_pass(ent, p@).0.len());
            }
        }
        assert(spec_remove_closure(self.spec_entries(), strings_view(to_remove@)) == self.spec_entries());
    }

    /// The state as an abstract value.
    pub open spec fn spec_state(&self) -> ExportState {
        ExportState { entries: self.spec_entries(), id: self.spec_id() }
    }

    fn find_entry(&self, key: &str) -> (r: Option<usize>)
        ensures
            match r {
                Some(i) => key_index_from(self.spec_entries(), key@, 0) == Some(i as int) && i < self.spec_entries().len(),
                None => key_index_from(self.spec_entries(), key@, 0) is None,
            },
    {
        let mut i: usize = 0;
        while i < self.entries.len()
            invariant
                i <= self.spec_entries().len(),
                self.spec_entries().len() == self.entries@.len(),
                key_index_from(self.spec_entries(), key@, 0) == key_index_from(self.spec_entries(), key@, i as int),
            decreases self.entries@.len() - i,
        {
            if self.entries[i].type_path.eq(&key.to_owned()) {
                return Some(i);
            }
            i = i + 1;
        }
        None
    }

    /// The entry of `key` exists.
    pub fn contains_key(&self, key: &str) -> (r: bool)
        ensures
            r == key_index_from(self.spec_entries(), key@, 0) is Some,
    {
        self.find_entry(key).is_some()
    }

    /// The custom types exported for the reflected type `key`, if any.
    pub fn get(&self, key: &str) -> (r: Option<&Vec<TypeImport>>)
        ensures
            match r {
                Some(v) => key_index_from(self.spec_entries(), key@, 0) is Some
                    && imports_view(v@) == self.spec_entries()[key_index_from(self.spec_entries(), key@, 0)->0].1,
                None => key_index_from(self.spec_entries(), key@, 0) is None,
            },
    {
        match self.find_entry(key) {
            Some(i) => Some(&self.entries[i].exports),
            None => None,
        }
    }

    fn insert(&mut self, key: String, exports: Vec<TypeImport>)
        ensures
            final(self).spec_id() == old(self).spec_id(),
            final(self).spec_entries() == spec_insert(old(self).spec_entries(), key@, imports_view(exports@)),
    {
        let e = ExportEntry { type_path: key, exports };
        match self.find_entry(e.type_path.as_str()) {
            Some(i) => {
                let ghost before = self.entries@;
                self.entries.set(i, e);
                assert(self.spec_entries() =~= old(self).spec_entries().update(i as int, entry_view(e)));
            },
            None => {
                let ghost before = self.entries@;
                self.entries.push(e);
                assert(self.spec_entries() =~= old(self).spec_entries().push(entry_view(e)));
            },
        }
    }

    fn register_from_type_registration(&mut self, t: &TypeRegistration, registry: &TypeRegistry, use_as: Vec<UseAs>) -> (r: Vec<String>)
        requires
            registry.wf(),
            fields_closed(registry.types@, t.info),
            spec_raw_export(registry.types@, old(self).spec_id(), *t, use_as@).0 <= u32::MAX,
        ensures
            (final(self).spec_state(), strings_view(r@)) == spec_register(registry.types@, old(self).spec_state(), *t, use_as@),
    {
        let mut deps: Vec<String> = Vec::new();
        assert(strings_view(deps@) =~= Seq::<Seq<char>>::empty());
        match self.generate_export(registry, t, use_as, &mut deps) {
            Ok(export) => {
                if export.len() > 0 {
                    self.insert(t.type_path.clone(), export);
                }
                assert(strings_view(deps@) =~= Seq::<Seq<char>>::empty() + strings_view(deps@));
                deps
            },
            Err(_) => {
                self.remove_with_dependency(&t.type_path);
                let v: Vec<String> = Vec::new();
                assert(strings_view(v@) =~= Seq::<Seq<char>>::empty());
                v
            },
        }
    }

    /// Exports every component, bundle and resource of the registry, then
    /// the types they depend on, as Tiled custom types. `None` when the
    /// export needs more identifiers than a `u32` can number.
    pub fn from_registry(registry: &TypeRegistry) -> (r: Option<Self>)
        requires
            registry.wf(),
        ensures
            match r {
                Some(x) => spec_from_registry(registry.types@).id <= u32::MAX
                    && x.spec_state() == spec_from_registry(registry.types@),
                None => spec_from_registry(registry.types@).id > u32::MAX,
            },
    {
        let ghost types = registry.types@;
        let mut deps: Vec<String> = Vec::new();
        let mut out = Self::new();
        let mut i: usize = 0;
        proof {
            let (st, ds) = spec_first_pass(types, 0);
            assert(out.spec_state() == st);
            assert(strings_view(deps@) =~= ds);
            lemma_second_pass_mono(types, spec_first_pass(types, types.len()).0, spec_first_pass(types, types.len()).1);
        }
        while i < registry.types.len()
            invariant
                registry.wf(),
                types == registry.types@,
                i <= types.len(),
                (out.spec_state(), strings_view(deps@)) == spec_first_pass(types, i as nat),
            decreases types.len() - i,
        {
            let t = &registry.types[i];
            if t.is_component || t.is_bundle || t.is_resource {
                proof {
                    lemma_first_pass_mono(types, (i + 1) as nat, types.len());
                    lemma_register_ids(types, out.spec_state(), *t, use_as_property());
                    assert forall|p: Seq<char>| #[trigger] field_type_paths(t.info).contains(p) implies is_registered(types, p) by {
                        assert(field_type_paths(types[i as int].info).contains(p));
                    }
                }
                let next = raw_export_id(registry, t, out.id);
                if next > 0xffff_ffff {
                    proof {
                        lemma_second_pass_mono(types, spec_first_pass(types, types.len()).0, spec_first_pass(types, types.len()).1);
                    }
                    return None;
                }
                let ua = vec![UseAs::Property];
                assert(ua@ =~= use_as_property());
                let nd = out.register_from_type_registration(t, registry, ua);
                let ghost before = deps@;
                push_all(&mut deps, nd);
            }
            i = i + 1;
        }
        let ghost st1 = out.spec_state();
        let ghost ds = strings_view(deps@);
        let mut j: usize = 0;
        proof {
            assert(ds.skip(0) =~= ds);
        }
        while j < deps.len()
            invariant
                registry.wf(),
                types == registry.types@,
                ds == strings_view(deps@),
                j <= deps@.len(),
                spec_second_pass(types, out.spec_state(), ds.skip(j as int)) == spec_from_registry(types),
            decreases deps@.len() - j,
        {
            let ghost rest = ds.skip(j as int);
            assert(rest[0] == deps@[j as int]@);
            assert(rest.drop_first() =~= ds.skip(j + 1));
            proof {
                lemma_second_pass_mono(types, out.spec_state(), rest);
                lemma_second_pass_mono(types, spec_dep_step(types, out.spec_state(), rest[0]), rest.drop_first());
            }
            if !out.contains_key(deps[j].as_str()) {
                match registry.find(deps[j].as_str()) {
                    Some(k) => {
                        let t = &registry.types[k];
                        proof {
                            let c = choose|c: int| registered_at(types, rest[0], c);
                            assert(c == k as int);
                            lemma_register_ids(types, out.spec_state(), *t, use_as_property());
                            assert forall|p: Seq<char>| #[trigger] field_type_paths(t.info).contains(p) implies is_registered(types, p) by {
                                assert(field_type_paths(types[k as int].info).contains(p));
                            }
                        }
                        let next = raw_export_id(registry, t, out.id);
                        if next > 0xffff_ffff {
                            return None;
                        }
                        let ua = vec![UseAs::Property];
                        assert(ua@ =~= use_as_property());
                        let _ = out.register_from_type_registration(t, registry, ua);
                    },
                    None => {},
                }
            }
            j = j + 1;
        }
        proof {
            assert(ds.skip(deps@.len() as int) =~= Seq::<Seq<char>>::empty());
        }
        Some(out)
    }

    /// All exported custom types, sorted by name.
    pub fn to_vec(self) -> (r: Vec<TypeImport>)
        ensures
            sorted_by_name(imports_view(r@)),
            imports_view(r@).to_multiset() == all_exports(self.spec_entries()).to_multiset(),
    {
        let ghost orig = self.spec_entries();
        let mut entries = self.entries;
        let mut out: Vec<TypeImport> = Vec::new();
        proof {
            broadcast use vstd::seq_lib::group_to_multiset_ensures;
            broadcast use vstd::multiset::group_multiset_axioms;
            assert(entries@.map_values(|e: ExportEntry| entry_view(e)) == orig);
            assert(imports_view(out@) =~= Seq::<TypeImportView>::empty());
            assert(imports_view(out@).to_multiset() =~= vstd::multiset::Multiset::<TypeImportView>::empty());
        }
        while entries.len() > 0
            invariant
                sorted_by_name(imports_view(out@)),
                all_exports(orig).to_multiset()
                    == imports_view(out@).to_multiset().add(all_exports(entries@.map_values(|e: ExportEntry| entry_view(e))).to_multiset()),
            decreases entries@.len(),
        {
            let ghost ev = entries@.map_values(|e: ExportEntry| entry_view(e));
            let mut e = entries.pop().unwrap();
            proof {
                let rest = entries@.map_values(|e: ExportEntry| entry_view(e));
                assert(ev =~= rest.push(entry_view(e)));
                assert(ev.map_values(|x: EntryView| x.1) =~= rest.map_values(|x: EntryView| x.1).push(imports_view(e.exports@)));
                rest.map_values(|x: EntryView| x.1).lemma_flatten_push(imports_view(e.exports@));
                vstd::seq_lib::lemma_multiset_commutative(all_exports(rest), imports_view(e.exports@));
                broadcast use vstd::multiset::group_multiset_axioms;
                assert(all_exports(orig).to_multiset() =~= imports_view(out@).to_multiset().add(imports_view(e.exports@).to_multiset()).add(all_exports(rest).to_multiset()));
            }
            while e.exports.len() > 0
                invariant
                    sorted_by_name(imports_view(out@)),
                    all_exports(orig).to_multiset()
                        == imports_view(out@).to_multiset().add(imports_view(e.exports@).to_multiset()).add(all_exports(entries@.map_values(|e: ExportEntry| entry_view(e))).to_multiset()),
                decreases e.exports@.len(),
            {
                let ghost xs = imports_view(e.exports@);
                let ghost ov = imports_view(out@);
                let t = e.exports.pop().unwrap();
                proof {
                    assert(xs =~= imports_view(e.exports@).push(t@));
                    broadcast use vstd::seq_lib::group_to_multiset_ensures;
                }
                insert_sorted(&mut out, t);
                proof {
                    broadcast use vstd::multiset::group_multiset_axioms;
                    assert(imports_view(out@).to_multiset().add(imports_view(e.exports@).to_multiset())
                        =~= ov.to_multiset().add(xs.to_multiset()));
                }
            }
            proof {
                broadcast use vstd::multiset::group_multiset_axioms;
                broadcast use vstd::seq_lib::group_to_multiset_ensures;
                assert(imports_view(e.exports@) =~= Seq::<TypeImportView>::empty());
                assert(imports_view(e.exports@).to_multiset() =~= vstd::multiset::Multiset::<TypeImportView>::empty());
                assert(imports_view(out@).to_multiset().add(imports_view(e.exports@).to_multiset()) =~= imports_view(out@).to_multiset());
            }
        }
        proof {
            broadcast use vstd::multiset::group_multiset_axioms;
            let ev = entries@.map_values(|e: ExportEntry| entry_view(e));
            assert(ev =~= Seq::<EntryView>::empty());
            assert(ev.map_values(|x: EntryView| x.1) =~= Seq::<Seq<TypeImportView>>::empty());
            assert(all_exports(ev) =~= Seq::<TypeImportView>::empty());
            assert(all_exports(ev).to_multiset() =~= vstd::multiset::Multiset::<TypeImportView>::empty());
            assert(imports_view(out@).to_multiset().add(all_exports(ev).to_multiset()) =~= imports_view(out@).to_multiset());
        }
        out
    }

    fn generate_struct_export(&mut self, registry: &TypeRegistry, path: &String, fields: &Vec<NamedField>, default: Option<&ReflectValue>, use_as: Vec<UseAs>) -> (r: Result<Vec<TypeImport>, ExportConversionError>)
        requires
            old(self).spec_id() < u32::MAX,
            registry.wf(),
            named_fields_registered(registry.types@, fields@),
        ensures
            final(self).spec_id() == old(self).spec_id() + 1,
            final(self).spec_entries() == old(self).spec_entries(),
            exports_match(r, spec_struct_export(registry.types@, old(self).spec_id(), path@, fields@, deref_opt(default), use_as@)),
    {
        let id = self.next_id();
        let members = named_members(registry, fields, default)?;
        Ok(Self::class_export(id, path.clone(), use_as, members))
    }

    fn generate_tuple_struct_export(&mut self, registry: &TypeRegistry, path: &String, fields: &Vec<UnnamedField>, default: Option<&ReflectValue>) -> (r: Result<Vec<TypeImport>, ExportConversionError>)
        requires
            old(self).spec_id() < u32::MAX,
            registry.wf(),
            unnamed_fields_registered(registry.types@, fields@),
        ensures
            final(self).spec_id() == old(self).spec_id() + 1,
            final(self).spec_entries() == old(self).spec_entries(),
            exports_match(r, spec_tuple_struct_export(registry.types@, old(self).spec_id(), path@, fields@, deref_opt(default))),
    {
        let id = self.next_id();
        let members = unnamed_members(registry, fields, default)?;
        let ua = vec![UseAs::Property];
        assert(ua@ =~= use_as_property());
        Ok(Self::class_export(id, path.clone(), ua, members))
    }

    fn generate_tuple_export(&mut self, registry: &TypeRegistry, path: &String, fields: &Vec<UnnamedField>, default: Option<&ReflectValue>, use_as: Vec<UseAs>) -> (r: Result<Vec<TypeImport>, ExportConversionError>)
        requires
            old(self).spec_id() < u32::MAX,
            registry.wf(),
            unnamed_fields_registered(registry.types@, fields@),
        ensures
            final(self).spec_id() == old(self).spec_id() + 1,
            final(self).spec_entries() == old(self).spec_entries(),
            exports_match(r, spec_tuple_export(registry.types@, old(self).spec_id(), path@, fields@, deref_opt(default), use_as@)),
    {
        let id = self.next_id();
        let members = unnamed_members(registry, fields, default)?;
        Ok(Self::class_export(id, path.clone(), use_as, members))
    }

    fn generate_array_export(&mut self, registry: &TypeRegistry, path: &String, item: &String, capacity: usize, use_as: Vec<UseAs>) -> (r: Result<Vec<TypeImport>, ExportConversionError>)
        requires
            old(self).spec_id() < u32::MAX,
            registry.wf(),
            is_registered(registry.types@, item@),
        ensures
            final(self).spec_id() == old(self).spec_id() + (if r is Ok { 1int } else { 0int }),
            final(self).spec_entries() == old(self).spec_entries(),
            exports_match(r, spec_array_export(registry.types@, old(self).spec_id(), path@, item@, capacity as nat, use_as@)),
    {
        let f = field_of(registry, item)?;
        let ghost fv = (f.0, opt_view(f.1));
        let id = self.next_id();
        let mut members: Vec<Member> = Vec::new();
        let mut i: usize = 0;
        proof {
            reveal_strlit("[");
            reveal_strlit("]");
        }
        while i < capacity
            invariant
                i <= capacity,
                members_view(members@) == Seq::new(i as nat, |k: int| member_view(array_slot_name(k), fv, null_json())),
                fv == (f.0, opt_view(f.1)),
            decreases capacity - i,
        {
            proof {
                reveal_strlit("[");
                reveal_strlit("]");
            }
            let mut name = "[".to_owned();
            name.append(usize_to_decimal(i).as_str());
            name.append("]");
            let pt = match &f.1 {
                Some(p) => Some(p.clone()),
                None => None,
            };
            assert(name@ =~= array_slot_name(i as int));
            assert(opt_view(pt) == fv.1);
            let m = make_member(name, (f.0, pt), JsonValue::Null);
            let ghost before = members@;
            members.push(m);
            assert(members_view(members@) =~= members_view(before).push(m@));
            assert(members_view(members@) =~= Seq::new((i + 1) as nat, |k: int| member_view(array_slot_name(k), fv, null_json())));
            i = i + 1;
        }
        Ok(Self::class_export(id, path.clone(), use_as, members))
    }
}


/// A field refers to a custom type only for a class or an enum stored as a
/// string, and that custom type is named after the field's type; an opaque
/// type with no Tiled equivalent cannot be a field.
pub proof fn lemma_field_reference(t: TypeRegistration)
    ensures
        spec_type_to_field(t) matches Ok((ft, Some(q))) ==> q == t.type_path@
            && (ft == FieldType::Class || (ft == FieldType::String && spec_is_enum_and_simple(t.info))),
        spec_type_to_field(t) matches Ok((FieldType::Class, _)) ==> !(t.info is Opaque),
{
}

proof fn lemma_key_index_update(entries: Seq<EntryView>, i: int, key: Seq<char>, val: Seq<TypeImportView>, other: Seq<char>, k: int)
    requires
        0 <= i < entries.len(),
        0 <= k,
        entries[i].0 == key,
        other != key,
    ensures
        key_index_from(entries.update(i, (key, val)), other, k) == key_index_from(entries, other, k),
    decreases entries.len() - k,
{
    if k < entries.len() {
        lemma_key_index_update(entries, i, key, val, other, k + 1);
    }
}

proof fn lemma_key_index_push(entries: Seq<EntryView>, key: Seq<char>, val: Seq<TypeImportView>, other: Seq<char>, k: int)
    requires
        0 <= k,
        other != key,
    ensures
        key_index_from(entries.push((key, val)), other, k) == key_index_from(entries, other, k),
    decreases entries.len() + 1 - k,
{
    if k < entries.len() + 1 {
        lemma_key_index_push(entries, key, val, other, k + 1);
    }
}

proof fn lemma_key_index_first(entries: Seq<EntryView>, key: Seq<char>, k: int, i: int)
    requires
        0 <= k <= i < entries.len(),
        entries[i].0 == key,
        forall|q: int| k <= q < i ==> #[trigger] entries[q].0 != key,
    ensures
        key_index_from(entries, key, k) == Some(i),
    decreases i - k,
{
    if k < i {
        lemma_key_index_first(entries, key, k + 1, i);
    }
}

proof fn lemma_key_index_prefix(entries: Seq<EntryView>, key: Seq<char>, k: int, q: int)
    requires
        0 <= k <= q < entries.len(),
        entries[q].0 == key,
    ensures
        key_index_from(entries, key, k) matches Some(j) && j <= q,
    decreases q - k,
{
    if k < q && entries[k].0 != key {
        lemma_key_index_prefix(entries, key, k + 1, q);
    }
}

/// Setting the custom types of a reflected type and then looking that type
/// up gives them back; looking up any other type gives what it gave before.
pub proof fn lemma_insert_then_lookup(entries: Seq<EntryView>, key: Seq<char>, val: Seq<TypeImportView>, other: Seq<char>)
    ensures
        key_index_from(spec_insert(entries, key, val), key, 0) matches Some(i)
            && spec_insert(entries, key, val)[i] == (key, val),
        other != key ==> key_index_from(spec_insert(entries, key, val), other, 0) == key_index_from(entries, other, 0),
        other != key ==> (key_index_from(entries, other, 0) matches Some(j) ==> spec_insert(entries, key, val)[j] == entries[j]),
{
    lemma_key_index_from(entries, key, 0);
    match key_index_from(entries, key, 0) {
        Some(i) => {
            let e2 = entries.update(i, (key, val));
            assert forall|q: int| 0 <= q < i implies #[trigger] e2[q].0 != key by {
                if entries[q].0 == key {
                    lemma_key_index_prefix(entries, key, 0, q);
                }
            }
            lemma_key_index_first(e2, key, 0, i);
            if other != key {
                lemma_key_index_update(entries, i, key, val, other, 0);
            }
        },
        None => {
            let e2 = entries.push((key, val));
            assert forall|q: int| 0 <= q < entries.len() implies #[trigger] e2[q].0 != key by {
                assert(e2[q] == entries[q]);
            }
            lemma_key_index_first(e2, key, 0, entries.len() as int);
            if other != key {
                lemma_key_index_push(entries, key, val, other, 0);
            }
        },
    }
    if other != key {
        lemma_key_index_from(entries, other, 0);
    }
}

/// No custom type of the entry refers to `p`.
pub open spec fn entry_free_of(e: EntryView, p: Seq<char>) -> bool {
    forall|j: int| 0 <= j < e.1.len() ==> !class_references(#[trigger] e.1[j], p)
}

proof fn lemma_retain_pass_kept(entries: Seq<EntryView>, p: Seq<char>)
    ensures
        forall|k: int| 0 <= k < retain_pass(entries, p).0.len() ==>
            entry_free_of(#[trigger] retain_pass(entries, p).0[k], p) && entries.contains(retain_pass(entries, p).0[k]),
    decreases entries.len(),
{
    if entries.len() > 0 {
        lemma_retain_pass_kept(entries.drop_last(), p);
        let (kept, _) = retain_pass(entries.drop_last(), p);
        let e = entries.last();
        lemma_first_ref_from(e.1, p, 0);
        assert forall|k: int| 0 <= k < retain_pass(entries, p).0.len() implies
            entry_free_of(#[trigger] retain_pass(entries, p).0[k], p) && entries.contains(retain_pass(entries, p).0[k]) by {
            if k < kept.len() {
                let m = choose|m: int| 0 <= m < entries.drop_last().len() && entries.drop_last()[m] == kept[k];
                assert(entries[m] == kept[k]);
            } else {
                assert(entries[entries.len() - 1] == e);
            }
        }
    }
}

proof fn lemma_remove_closure_subset(entries: Seq<EntryView>, stack: Seq<Seq<char>>)
    ensures
        forall|k: int| 0 <= k < spec_remove_closure(entries, stack).len() ==>
            entries.contains(#[trigger] spec_remove_closure(entries, stack)[k]),
    decreases 2 * entries.len() + stack.len(),
{
    if stack.len() > 0 {
        let (kept, pushed) = retain_pass(entries, stack.last());
        lemma_retain_pass_len(entries, stack.last());
        lemma_retain_pass_kept(entries, stack.last());
        lemma_remove_closure_subset(kept, stack.drop_last() + pushed);
        assert forall|k: int| 0 <= k < spec_remove_closure(entries, stack).len() implies
            entries.contains(#[trigger] spec_remove_closure(entries, stack)[k]) by {
            let x = spec_remove_closure(entries, stack)[k];
            assert(spec_remove_closure(entries, stack) == spec_remove_closure(kept, stack.drop_last() + pushed));
            assert(kept.contains(spec_remove_closure(kept, stack.drop_last() + pushed)[k]));
            assert(kept.contains(x));
            let m = choose|m: int| 0 <= m < kept.len() && kept[m] == x;
            assert(entries.contains(kept[m]));
        }
    }
}

/// After a type is removed with everything that depends on it, no custom
/// type left refers to it, and every entry left was there before.
pub proof fn lemma_removal_leaves_no_reference(entries: Seq<EntryView>, p: Seq<char>)
    ensures
        forall|k: int| 0 <= k < spec_remove_closure(entries, seq![p]).len() ==>
            entry_free_of(#[trigger] spec_remove_closure(entries, seq![p])[k], p)
                && entries.contains(spec_remove_closure(entries, seq![p])[k]),
{
    let (kept, pushed) = retain_pass(entries, p);
    lemma_retain_pass_len(entries, p);
    lemma_retain_pass_kept(entries, p);
    assert(seq![p].drop_last() + pushed =~= pushed);
    assert(seq![p].last() == p);
    lemma_remove_closure_subset(kept, pushed);
    assert forall|k: int| 0 <= k < spec_remove_closure(entries, seq![p]).len() implies
        entry_free_of(#[trigger] spec_remove_closure(entries, seq![p])[k], p)
            && entries.contains(spec_remove_closure(entries, seq![p])[k]) by {
        let x = spec_remove_closure(entries, seq![p])[k];
        assert(spec_remove_closure(entries, seq![p]) == spec_remove_closure(kept, pushed));
        assert(kept.contains(spec_remove_closure(kept, pushed)[k]));
        assert(kept.contains(x));
        let m = choose|m: int| 0 <= m < kept.len() && kept[m] == x;
        assert(entry_free_of(kept[m], p));
    }
}

} // verus!
