//! Types of a Tiled "property types" project file.
use vstd::prelude::*;
use crate::properties::value::{JsonValue, JsonView};

verus! {

/// One entry of a Tiled property types file.
#[derive(Clone, Debug, PartialEq, Eq)]
pub struct TypeImport {
    pub id: u32,
    pub name: String,
    pub type_data: TypeData,
}

/// Either an enum or a class.
#[derive(Clone, Debug, PartialEq, Eq)]
pub enum TypeData {
    Enum(Enum),
    Class(Class),
}

/// A Tiled custom class.
#[derive(Clone, Debug, PartialEq, Eq)]
pub struct Class {
    pub use_as: Vec<UseAs>,
    pub color: String,
    pub draw_fill: bool,
    pub members: Vec<Member>,
}

/// A member of a Tiled custom class.
#[derive(Clone, Debug, PartialEq, Eq)]
pub struct Member {
    pub name: String,
    pub property_type: Option<String>,
    pub type_field: FieldType,
    pub value: JsonValue,
}

/// A Tiled custom enum.
#[derive(Clone, Debug, PartialEq, Eq)]
pub struct Enum {
    pub storage_type: StorageType,
    pub values: Vec<String>,
    pub values_as_flags: bool,
}

/// How the values of a Tiled enum are stored.
#[derive(Copy, Clone, Debug, PartialEq, Eq, Hash, Structural)]
pub enum StorageType {
    String,
    Int,
}

/// The type of a class member.
#[derive(Copy, Clone, Debug, PartialEq, Eq, Hash, Structural)]
pub enum FieldType {
    Bool,
    Color,
    Float,
    File,
    Int,
    Object,
    String,
    Class,
}

/// Where a custom class may be used in the Tiled editor.
#[derive(Copy, Clone, Debug, PartialEq, Eq, Hash, Structural)]
pub enum UseAs {
    Property,
    WholeMap,
    Layer,
    Object,
    Tile,
    Tileset,
    WangColor,
    WangSet,
    Project,
}

/// The places where this library can read custom properties from.
pub open spec fn spec_supported_use_as() -> Seq<UseAs> {
    seq![UseAs::Property, UseAs::WholeMap, UseAs::Layer, UseAs::Object, UseAs::Tile]
}

impl UseAs {
    /// All the `useAs` targets that the library supports, in order.
    pub fn all_supported() -> (r: Vec<UseAs>)
        ensures
            r@ == spec_supported_use_as(),
    {
        let r = vec![UseAs::Property, UseAs::WholeMap, UseAs::Layer, UseAs::Object, UseAs::Tile];
        assert(r@ =~= spec_supported_use_as());
        r
    }
}

} // verus!

verus! {

/// Abstract view of a class member.
pub struct MemberView {
    pub name: Seq<char>,
    pub property_type: Option<Seq<char>>,
    pub type_field: FieldType,
    pub value: JsonView,
}

/// Abstract view of a custom enum.
pub struct EnumView {
    pub storage_type: StorageType,
    pub values: Seq<Seq<char>>,
    pub values_as_flags: bool,
}

/// Abstract view of a custom class.
pub struct ClassView {
    pub use_as: Seq<UseAs>,
    pub color: Seq<char>,
    pub draw_fill: bool,
    pub members: Seq<MemberView>,
}

/// Abstract view of an enum or a class.
pub enum TypeDataView {
    Enum(EnumView),
    Class(ClassView),
}

/// Abstract view of an entry of a property types file.
pub struct TypeImportView {
    pub id: int,
    pub name: Seq<char>,
    pub type_data: TypeDataView,
}

impl View for Member {
    type V = MemberView;

    open spec fn view(&self) -> MemberView {
        MemberView {
            name: self.name@,
            property_type: match self.property_type {
                Some(p) => Some(p@),
                None => None,
            },
            type_field: self.type_field,
            value: self.value@,
        }
    }
}

impl View for Enum {
    type V = EnumView;

    open spec fn view(&self) -> EnumView {
        EnumView {
            storage_type: self.storage_type,
            values: self.values@.map_values(|v: String| v@),
            values_as_flags: self.values_as_flags,
        }
    }
}

impl View for Class {
    type V = ClassView;

    open spec fn view(&self) -> ClassView {
        ClassView {
            use_as: self.use_as@,
            color: self.color@,
            draw_fill: self.draw_fill,
            members: self.members@.map_values(|m: Member| m@),
        }
    }
}

impl View for TypeData {
    type V = TypeDataView;

    open spec fn view(&self) -> TypeDataView {
        match self {
            TypeData::Enum(e) => TypeDataView::Enum(e@),
            TypeData::Class(c) => TypeDataView::Class(c@),
        }
    }
}

impl View for TypeImport {
    type V = TypeImportView;

    open spec fn view(&self) -> TypeImportView {
        TypeImportView { id: self.id as int, name: self.name@, type_data: self.type_data@ }
    }
}

/// The views of a sequence of entries.
pub open spec fn imports_view(s: Seq<TypeImport>) -> Seq<TypeImportView> {
    s.map_values(|t: TypeImport| t@)
}

} // verus!
