//! A plain-value description of reflected Rust types: the part of a type
//! registry that the custom property export and import read.
use vstd::prelude::*;
use crate::properties::value::ReflectValue;

verus! {

/// A named field of a struct or of a struct-like enum variant.
#[derive(Clone, Debug, PartialEq, Eq)]
pub struct NamedField {
    pub name: String,
    pub type_path: String,
}

/// A positional field of a tuple, a tuple struct or a tuple-like variant.
#[derive(Clone, Debug, PartialEq, Eq)]
pub struct UnnamedField {
    pub type_path: String,
}

/// A variant of an enum.
#[derive(Clone, Debug, PartialEq, Eq)]
pub enum VariantInfo {
    Struct { name: String, fields: Vec<NamedField> },
    Tuple { name: String, fields: Vec<UnnamedField> },
    Unit { name: String },
}

/// The shape of a reflected type.
#[derive(Clone, Debug, PartialEq, Eq)]
pub enum TypeInfo {
    Struct(Vec<NamedField>),
    TupleStruct(Vec<UnnamedField>),
    Tuple(Vec<UnnamedField>),
    List { item: String },
    Array { item: String, capacity: usize },
    Dictionary { key: String, value: String },
    Enum(Vec<VariantInfo>),
    SetOf { value: String },
    Opaque,
}

/// A registered type: its path, its shape, the reflected traits the custom
/// property code cares about, and its registered `Default` value if any.
#[derive(Debug, PartialEq, Eq)]
pub struct TypeRegistration {
    pub type_path: String,
    pub info: TypeInfo,
    pub is_component: bool,
    pub is_bundle: bool,
    pub is_resource: bool,
    pub default_value: Option<ReflectValue>,
}

/// A registry of reflected types, in registration order.
#[derive(Debug, PartialEq, Eq)]
pub struct TypeRegistry {
    pub types: Vec<TypeRegistration>,
}

impl VariantInfo {
    pub open spec fn spec_name(&self) -> Seq<char> {
        match self {
            VariantInfo::Struct { name, .. } => name@,
            VariantInfo::Tuple { name, .. } => name@,
            VariantInfo::Unit { name } => name@,
        }
    }

    /// The variant's name.
    pub fn name(&self) -> (r: &String)
        ensures
            r@ == self.spec_name(),
    {
        match self {
            VariantInfo::Struct { name, .. } => name,
            VariantInfo::Tuple { name, .. } => name,
            VariantInfo::Unit { name } => name,
        }
    }
}

/// `path` is the path of the registration at index `i`.
pub open spec fn registered_at(types: Seq<TypeRegistration>, path: Seq<char>, i: int) -> bool {
    0 <= i < types.len() && types[i].type_path@ == path
}

/// Some registration has the path `path`.
pub open spec fn is_registered(types: Seq<TypeRegistration>, path: Seq<char>) -> bool {
    exists|i: int| registered_at(types, path, i)
}

/// The registration with the path `path` (meaningful when there is one).
pub open spec fn lookup(types: Seq<TypeRegistration>, path: Seq<char>) -> TypeRegistration {
    types[choose|i: int| registered_at(types, path, i)]
}

/// Some field of the variant has type `p`.
pub open spec fn variant_has_field_type(v: VariantInfo, p: Seq<char>) -> bool {
    match v {
        VariantInfo::Struct { fields, .. } => exists|j: int| 0 <= j < fields@.len() && fields@[j].type_path@ == p,
        VariantInfo::Tuple { fields, .. } => exists|j: int| 0 <= j < fields@.len() && fields@[j].type_path@ == p,
        VariantInfo::Unit { .. } => false,
    }
}

/// The type paths that the export looks up with no fallback: the fields of
/// structs, tuples, tuple structs and enum variants, and array items.
pub open spec fn field_type_paths(info: TypeInfo) -> Set<Seq<char>> {
    match info {
        TypeInfo::Struct(fs) => Set::new(|p: Seq<char>| exists|k: int| 0 <= k < fs@.len() && fs@[k].type_path@ == p),
        TypeInfo::TupleStruct(fs) => Set::new(|p: Seq<char>| exists|k: int| 0 <= k < fs@.len() && fs@[k].type_path@ == p),
        TypeInfo::Tuple(fs) => Set::new(|p: Seq<char>| exists|k: int| 0 <= k < fs@.len() && fs@[k].type_path@ == p),
        TypeInfo::Array { item, .. } => set![item@],
        TypeInfo::Enum(vs) => Set::new(|p: Seq<char>| exists|k: int| 0 <= k < vs@.len() && #[trigger] variant_has_field_type(vs@[k], p)),
        _ => Set::empty(),
    }
}

impl TypeRegistry {
    /// No two registered types have the same type path, so that a path
    /// names one type.
    pub open spec fn paths_distinct(&self) -> bool {
        forall|i: int, j: int|
            0 <= i < self.types@.len() && 0 <= j < self.types@.len() && i != j
                ==> self.types@[i].type_path@ != self.types@[j].type_path@
    }

    /// Well-formed: type paths are distinct, and every type that a
    /// registered type names as a field (or array item) type is registered
    /// too, as registering a reflected type registers its field types. The
    /// export looks field types up with no fallback and needs this; reading
    /// properties needs only [`TypeRegistry::paths_distinct`] and reports a
    /// field type that is not registered.
    pub open spec fn wf(&self) -> bool {
        &&& self.paths_distinct()
        &&& forall|i: int, p: Seq<char>|
            0 <= i < self.types@.len() && #[trigger] field_type_paths(self.types@[i].info).contains(p)
                ==> is_registered(self.types@, p)
    }

    fn named_registered(&self, fs: &Vec<NamedField>) -> (r: bool)
        ensures
            r == forall|k: int| 0 <= k < fs@.len() ==> is_registered(self.types@, #[trigger] fs@[k].type_path@),
    {
        let mut k: usize = 0;
        while k < fs.len()
            invariant
                k <= fs@.len(),
                forall|j: int| 0 <= j < k ==> is_registered(self.types@, #[trigger] fs@[j].type_path@),
            decreases fs@.len() - k,
        {
            if self.find(fs[k].type_path.as_str()).is_none() {
                return false;
            }
            k = k + 1;
        }
        true
    }

    fn unnamed_registered(&self, fs: &Vec<UnnamedField>) -> (r: bool)
        ensures
            r == forall|k: int| 0 <= k < fs@.len() ==> is_registered(self.types@, #[trigger] fs@[k].type_path@),
    {
        let mut k: usize = 0;
        while k < fs.len()
            invariant
                k <= fs@.len(),
                forall|j: int| 0 <= j < k ==> is_registered(self.types@, #[trigger] fs@[j].type_path@),
            decreases fs@.len() - k,
        {
            if self.find(fs[k].type_path.as_str()).is_none() {
                return false;
            }
            k = k + 1;
        }
        true
    }

    fn info_closed(&self, info: &TypeInfo) -> (r: bool)
        ensures
            r == forall|p: Seq<char>| #[trigger] field_type_paths(*info).contains(p) ==> is_registered(self.types@, p),
    {
        match info {
            TypeInfo::Struct(fs) => {
                let r = self.named_registered(fs);
                proof {
                    if !r {
                        let k = choose|k: int| 0 <= k < fs@.len() && !is_registered(self.types@, #[trigger] fs@[k].type_path@);
                        assert(field_type_paths(*info).contains(fs@[k].type_path@));
                    }
                }
                r
            },
            TypeInfo::TupleStruct(fs) | TypeInfo::Tuple(fs) => {
                let r = self.unnamed_registered(fs);
                proof {
                    if !r {
                        let k = choose|k: int| 0 <= k < fs@.len() && !is_registered(self.types@, #[trigger] fs@[k].type_path@);
                        assert(field_type_paths(*info).contains(fs@[k].type_path@));
                    }
                }
                r
            },
            TypeInfo::Array { item, .. } => {
                let r = self.find(item.as_str()).is_some();
                proof {
                    assert(field_type_paths(*info).contains(item@));
                }
                r
            },
            TypeInfo::Enum(vs) => {
                let mut k: usize = 0;
                while k < vs.len()
                    invariant
                        k <= vs@.len(),
                        *info == TypeInfo::Enum(*vs),
                        forall|j: int, p: Seq<char>| 0 <= j < k && #[trigger] variant_has_field_type(vs@[j], p) ==> is_registered(self.types@, p),
                    decreases vs@.len() - k,
                {
                    let ok = match &vs[k] {
                        VariantInfo::Struct { fields, .. } => self.named_registered(fields),
                        VariantInfo::Tuple { fields, .. } => self.unnamed_registered(fields),
                        VariantInfo::Unit { .. } => true,
                    };
                    if !ok {
                        proof {
                            match vs@[k as int] {
                                VariantInfo::Struct { fields, .. } => {
                                    let q = choose|q: int| 0 <= q < fields@.len() && !is_registered(self.types@, #[trigger] fields@[q].type_path@);
                                    assert(variant_has_field_type(vs@[k as int], fields@[q].type_path@));
                                    assert(field_type_paths(*info).contains(fields@[q].type_path@));
                                },
                                VariantInfo::Tuple { fields, .. } => {
                                    let q = choose|q: int| 0 <= q < fields@.len() && !is_registered(self.types@, #[trigger] fields@[q].type_path@);
                                    assert(variant_has_field_type(vs@[k as int], fields@[q].type_path@));
                                    assert(field_type_paths(*info).contains(fields@[q].type_path@));
                                },
                                VariantInfo::Unit { .. } => {},
                            }
                        }
                        return false;
                    }
                    proof {
                        assert forall|j: int, p: Seq<char>| 0 <= j < k + 1 && #[trigger] variant_has_field_type(vs@[j], p) implies is_registered(self.types@, p) by {
                            if j == k {
                                match vs@[j] {
                                    VariantInfo::Struct { fields, .. } => {
                                        let q = choose|q: int| 0 <= q < fields@.len() && fields@[q].type_path@ == p;
                                        assert(is_registered(self.types@, fields@[q].type_path@));
                                    },
                                    VariantInfo::Tuple { fields, .. } => {
                                        let q = choose|q: int| 0 <= q < fields@.len() && fields@[q].type_path@ == p;
                                        assert(is_registered(self.types@, fields@[q].type_path@));
                                    },
                                    VariantInfo::Unit { .. } => {},
                                }
                            }
                        }
                    }
                    k = k + 1;
                }
                true
            },
            _ => {
                assert(field_type_paths(*info) =~= Set::<Seq<char>>::empty());
                true
            },
        }
    }

    /// Tells whether the registry is well formed (see [`TypeRegistry::wf`]).
    pub fn check_wf(&self) -> (r: bool)
        ensures
            r == self.wf(),
    {
        if !self.check_paths_distinct() {
            return false;
        }
        let n = self.types.len();
        let mut i: usize = 0;
        while i < n
            invariant
                n == self.types@.len(),
                i <= n,
                self.paths_distinct(),
                forall|a: int, p: Seq<char>| 0 <= a < i && #[trigger] field_type_paths(self.types@[a].info).contains(p)
                    ==> is_registered(self.types@, p),
            decreases n - i,
        {
            if !self.info_closed(&self.types[i].info) {
                return false;
            }
            i = i + 1;
        }
        true
    }

    /// Tells whether no two registered types have the same type path (see
    /// [`TypeRegistry::paths_distinct`]).
    pub fn check_paths_distinct(&self) -> (r: bool)
        ensures
            r == self.paths_distinct(),
    {
        let n = self.types.len();
        let mut i: usize = 0;
        while i < n
            invariant
                n == self.types@.len(),
                i <= n,
                forall|a: int, b: int| 0 <= a < i && 0 <= b < n && a != b
                    ==> self.types@[a].type_path@ != self.types@[b].type_path@,
            decreases n - i,
        {
            let mut j: usize = 0;
            while j < n
                invariant
                    n == self.types@.len(),
                    i < n,
                    j <= n,
                    forall|a: int, b: int| 0 <= a < i && 0 <= b < n && a != b
                        ==> self.types@[a].type_path@ != self.types@[b].type_path@,
                    forall|b: int| 0 <= b < j && b != i ==> self.types@[i as int].type_path@ != self.types@[b].type_path@,
                decreases n - j,
            {
                if i != j && self.types[i].type_path.eq(&self.types[j].type_path) {
                    return false;
                }
                j = j + 1;
            }
            i = i + 1;
        }
        true
    }

    /// Index of the registration whose path is `path`.
    pub fn find(&self, path: &str) -> (r: Option<usize>)
        ensures
            match r {
                Some(i) => registered_at(self.types@, path@, i as int),
                None => !is_registered(self.types@, path@),
            },
    {
        let mut i: usize = 0;
        while i < self.types.len()
            invariant
                i <= self.types@.len(),
                forall|k: int| 0 <= k < i ==> self.types@[k].type_path@ != path@,
            decreases self.types@.len() - i,
        {
            if self.types[i].type_path.eq(&path.to_owned()) {
                return Some(i);
            }
            i = i + 1;
        }
        None
    }

    /// The registration whose path is `path`, if any.
    pub fn get_with_type_path(&self, path: &str) -> (r: Option<&TypeRegistration>)
        requires
            self.paths_distinct(),
        ensures
            match r {
                Some(t) => is_registered(self.types@, path@) && *t == lookup(self.types@, path@),
                None => !is_registered(self.types@, path@),
            },
    {
        match self.find(path) {
            Some(i) => {
                proof {
                    let j = choose|j: int| registered_at(self.types@, path@, j);
                    assert(j == i);
                }
                Some(&self.types[i])
            },
            None => None,
        }
    }
}

} // verus!
