//! Values that custom properties read and write: JSON values, registered
//! default values of reflected types, and floating-point numbers kept by how
//! they are obtained.
use vstd::prelude::*;
use crate::text::{
    decimal, hex_char, lemma_lex_antisym, lemma_lex_refl, lemma_lex_total, lemma_lex_trans, lex_le,
    lex_le_str, str_eq, usize_to_decimal,
};

verus! {

/// A floating-point number, recorded by how it is obtained. The library
/// never computes with it; whoever builds the actual value does.
#[derive(Copy, Clone, Debug, PartialEq, Eq, Structural)]
pub enum FloatValue {
    /// The `f32` with these bits.
    F32(u32),
    /// The `f64` with these bits.
    F64(u64),
    /// The `f64` equal to the `f32` with these bits.
    F32AsF64(u32),
    /// The `f32` nearest to this integer.
    I32AsF32(i32),
    /// The `f64` equal to this integer.
    I32AsF64(i32),
}

/// A JSON value.
#[derive(Debug, PartialEq, Eq)]
pub enum JsonValue {
    Null,
    Bool(bool),
    Int(i64),
    UInt(u64),
    Float(FloatValue),
    Str(String),
    Array(Vec<JsonValue>),
    Object(Vec<(String, JsonValue)>),
}

/// Abstract view of a JSON value; both kinds of integer are numbers.
pub enum JsonView {
    Null,
    Bool(bool),
    Number(int),
    Float(FloatValue),
    Str(Seq<char>),
    Array(Seq<JsonView>),
    Object(Seq<(Seq<char>, JsonView)>),
}

/// The view of a JSON value.
pub open spec fn json_view(v: JsonValue) -> JsonView
    decreases v,
{
    match v {
        JsonValue::Null => JsonView::Null,
        JsonValue::Bool(b) => JsonView::Bool(b),
        JsonValue::Int(i) => JsonView::Number(i as int),
        JsonValue::UInt(u) => JsonView::Number(u as int),
        JsonValue::Float(f) => JsonView::Float(f),
        JsonValue::Str(s) => JsonView::Str(s@),
        JsonValue::Array(items) => JsonView::Array(json_views(items@)),
        JsonValue::Object(fs) => JsonView::Object(json_fields_view(fs@)),
    }
}

/// The views of a list of JSON values.
pub open spec fn json_views(s: Seq<JsonValue>) -> Seq<JsonView>
    decreases s,
{
    if s.len() == 0 {
        Seq::empty()
    } else {
        json_views(s.drop_last()).push(json_view(s.last()))
    }
}

/// The views of the members of a JSON object.
pub open spec fn json_fields_view(s: Seq<(String, JsonValue)>) -> Seq<(Seq<char>, JsonView)>
    decreases s,
{
    if s.len() == 0 {
        Seq::empty()
    } else {
        json_fields_view(s.drop_last()).push((s.last().0@, json_view(s.last().1)))
    }
}

impl View for JsonValue {
    type V = JsonView;

    open spec fn view(&self) -> JsonView {
        json_view(*self)
    }
}

impl JsonValue {
    /// A copy of the value.
    pub fn deep_clone(&self) -> (r: JsonValue)
        ensures
            r@ == self@,
        decreases self,
    {
        match self {
            JsonValue::Null => JsonValue::Null,
            JsonValue::Bool(b) => JsonValue::Bool(*b),
            JsonValue::Int(i) => JsonValue::Int(*i),
            JsonValue::UInt(u) => JsonValue::UInt(*u),
            JsonValue::Float(f) => JsonValue::Float(*f),
            JsonValue::Str(s) => JsonValue::Str(s.clone()),
            JsonValue::Array(items) => {
                let mut out: Vec<JsonValue> = Vec::new();
                let mut i: usize = 0;
                assert(items@.subrange(0, 0) =~= Seq::<JsonValue>::empty());
                while i < items.len()
                    invariant
                        i <= items@.len(),
                        self is Array,
                        *items == self->Array_0,
                        json_views(out@) == json_views(items@.subrange(0, i as int)),
                    decreases items@.len() - i,
                {
                    proof {
                        assert(decreases_to!(*self => self->Array_0));
                        assert(decreases_to!(*items => items@));
                        assert(decreases_to!(items@ => items@[i as int]));
                    }
                    let c = items[i].deep_clone();
                    let ghost before = out@;
                    out.push(c);
                    proof {
                        let t = items@.subrange(0, i + 1);
                        assert(t.drop_last() =~= items@.subrange(0, i as int));
                        assert(out@.drop_last() =~= before);
                    }
                    i = i + 1;
                }
                assert(items@.subrange(0, items@.len() as int) =~= items@);
                JsonValue::Array(out)
            },
            JsonValue::Object(fs) => {
                let mut out: Vec<(String, JsonValue)> = Vec::new();
                let mut i: usize = 0;
                assert(fs@.subrange(0, 0) =~= Seq::<(String, JsonValue)>::empty());
                while i < fs.len()
                    invariant
                        i <= fs@.len(),
                        self is Object,
                        *fs == self->Object_0,
                        json_fields_view(out@) == json_fields_view(fs@.subrange(0, i as int)),
                    decreases fs@.len() - i,
                {
                    proof {
                        assert(decreases_to!(*self => self->Object_0));
                        assert(decreases_to!(*fs => fs@));
                        assert(decreases_to!(fs@ => fs@[i as int]));
                        assert(decreases_to!(fs@[i as int] => fs@[i as int].1));
                    }
                    let c = fs[i].1.deep_clone();
                    let ghost before = out@;
                    out.push((fs[i].0.clone(), c));
                    proof {
                        let t = fs@.subrange(0, i + 1);
                        assert(t.drop_last() =~= fs@.subrange(0, i as int));
                        assert(out@.drop_last() =~= before);
                    }
                    i = i + 1;
                }
                assert(fs@.subrange(0, fs@.len() as int) =~= fs@);
                JsonValue::Object(out)
            },
        }
    }
}

impl Clone for JsonValue {
    fn clone(&self) -> (r: Self)
        ensures
            r@ == self@,
    {
        self.deep_clone()
    }
}

/// A registered default value of a reflected type, as far as the custom
/// property code reads it. `source` tells the caller which value it is, so
/// that a copy of it can be made exactly.
#[derive(Debug, PartialEq, Eq)]
pub struct ReflectValue {
    pub source: u64,
    pub data: ReflectData,
}

/// What a default value holds.
#[derive(Debug, PartialEq, Eq)]
pub enum ReflectData {
    Bool(bool),
    /// A signed integer (`isize`, `i8` .. `i128`) that JSON can hold.
    Int(i64),
    /// An unsigned integer (`usize`, `u8` .. `u128`) that JSON can hold.
    UInt(u64),
    /// An `f32` or an `f64`.
    Float(FloatValue),
    /// A `String` or a `Cow<str>`.
    Str(String),
    /// A color, by its linear RGBA value packed in a `u32`.
    Color(u32),
    /// An enum value: the variant's name, whether every variant of the enum
    /// is a unit variant, and the values of the variant's fields in order.
    Enum { variant: String, unit_only: bool, fields: Vec<ReflectValue> },
    /// A struct, by its named fields.
    Struct(Vec<(String, ReflectValue)>),
    /// A tuple or a tuple struct, by its positional fields.
    Tuple(Vec<ReflectValue>),
    /// The items of a list or an array, or the values of a map (its keys
    /// are not held).
    List(Vec<ReflectValue>),
    /// An entity, by its index: a reference to the object with that
    /// identifier.
    Entity(u32),
    /// An optional entity, by its index.
    OptionEntity(Option<u32>),
    /// An entity, by its bits, once its object reference is resolved.
    Spawned(u64),
    /// An optional entity, by its bits, once resolved.
    OptionSpawned(Option<u64>),
    /// Any other value.
    Other,
}

/// Abstract view of a default value.
pub struct ReflectView {
    pub source: u64,
    pub data: ReflectDataView,
}

/// Abstract view of what a default value holds.
pub enum ReflectDataView {
    Bool(bool),
    Int(i64),
    UInt(u64),
    Float(FloatValue),
    Str(Seq<char>),
    Color(u32),
    Enum { variant: Seq<char>, unit_only: bool, fields: Seq<ReflectView> },
    Struct(Seq<(Seq<char>, ReflectView)>),
    Tuple(Seq<ReflectView>),
    List(Seq<ReflectView>),
    Entity(u32),
    OptionEntity(Option<u32>),
    Spawned(u64),
    OptionSpawned(Option<u64>),
    Other,
}

/// The view of a default value.
pub open spec fn rview(v: ReflectValue) -> ReflectView
    decreases v,
{
    ReflectView {
        source: v.source,
        data: match v.data {
            ReflectData::Bool(b) => ReflectDataView::Bool(b),
            ReflectData::Int(i) => ReflectDataView::Int(i),
            ReflectData::UInt(u) => ReflectDataView::UInt(u),
            ReflectData::Float(f) => ReflectDataView::Float(f),
            ReflectData::Str(s) => ReflectDataView::Str(s@),
            ReflectData::Color(c) => ReflectDataView::Color(c),
            ReflectData::Enum { variant, unit_only, fields } => ReflectDataView::Enum {
                variant: variant@,
                unit_only,
                fields: rviews(fields@),
            },
            ReflectData::Struct(fs) => ReflectDataView::Struct(rviews_named(fs@)),
            ReflectData::Tuple(fs) => ReflectDataView::Tuple(rviews(fs@)),
            ReflectData::List(fs) => ReflectDataView::List(rviews(fs@)),
            ReflectData::Entity(i) => ReflectDataView::Entity(i),
            ReflectData::OptionEntity(i) => ReflectDataView::OptionEntity(i),
            ReflectData::Spawned(e) => ReflectDataView::Spawned(e),
            ReflectData::OptionSpawned(e) => ReflectDataView::OptionSpawned(e),
            ReflectData::Other => ReflectDataView::Other,
        },
    }
}

/// The views of a list of default values.
pub open spec fn rviews(s: Seq<ReflectValue>) -> Seq<ReflectView>
    decreases s,
{
    if s.len() == 0 {
        Seq::empty()
    } else {
        rviews(s.drop_last()).push(rview(s.last()))
    }
}

/// The views of named default values.
pub open spec fn rviews_named(s: Seq<(String, ReflectValue)>) -> Seq<(Seq<char>, ReflectView)>
    decreases s,
{
    if s.len() == 0 {
        Seq::empty()
    } else {
        rviews_named(s.drop_last()).push((s.last().0@, rview(s.last().1)))
    }
}

impl ReflectValue {
    /// A copy of the value.
    pub fn copy_value(&self) -> (r: ReflectValue)
        ensures
            rview(r) == rview(*self),
        decreases self,
    {
        let data = match &self.data {
            ReflectData::Bool(b) => ReflectData::Bool(*b),
            ReflectData::Int(i) => ReflectData::Int(*i),
            ReflectData::UInt(u) => ReflectData::UInt(*u),
            ReflectData::Float(f) => ReflectData::Float(*f),
            ReflectData::Str(s) => ReflectData::Str(s.clone()),
            ReflectData::Color(c) => ReflectData::Color(*c),
            ReflectData::Enum { variant, unit_only, fields } => {
                proof {
                    assert(decreases_to!(*self => self.data));
                    assert(decreases_to!(self.data => self.data->Enum_fields));
                }
                ReflectData::Enum { variant: variant.clone(), unit_only: *unit_only, fields: copy_values(fields) }
            },
            ReflectData::Struct(fs) => {
                proof {
                    assert(decreases_to!(*self => self.data));
                    assert(decreases_to!(self.data => self.data->Struct_0));
                }
                ReflectData::Struct(copy_named_values(fs))
            },
            ReflectData::Tuple(fs) => {
                proof {
                    assert(decreases_to!(*self => self.data));
                    assert(decreases_to!(self.data => self.data->Tuple_0));
                }
                ReflectData::Tuple(copy_values(fs))
            },
            ReflectData::List(fs) => {
                proof {
                    assert(decreases_to!(*self => self.data));
                    assert(decreases_to!(self.data => self.data->List_0));
                }
                ReflectData::List(copy_values(fs))
            },
            ReflectData::Entity(i) => ReflectData::Entity(*i),
            ReflectData::OptionEntity(i) => ReflectData::OptionEntity(*i),
            ReflectData::Spawned(e) => ReflectData::Spawned(*e),
            ReflectData::OptionSpawned(e) => ReflectData::OptionSpawned(*e),
            ReflectData::Other => ReflectData::Other,
        };
        ReflectValue { source: self.source, data }
    }
}

/// Copies of a list of default values.
fn copy_values(fs: &Vec<ReflectValue>) -> (r: Vec<ReflectValue>)
    ensures
        rviews(r@) == rviews(fs@),
    decreases fs, 1nat,
{
    let mut out: Vec<ReflectValue> = Vec::new();
    let mut i: usize = 0;
    assert(fs@.subrange(0, 0) =~= Seq::<ReflectValue>::empty());
    while i < fs.len()
        invariant
            i <= fs@.len(),
            rviews(out@) == rviews(fs@.subrange(0, i as int)),
        decreases fs@.len() - i,
    {
        proof {
            assert(decreases_to!(*fs => fs@));
            assert(decreases_to!(fs@ => fs@[i as int]));
        }
        let c = fs[i].copy_value();
        let ghost before = out@;
        out.push(c);
        proof {
            let t = fs@.subrange(0, i + 1);
            assert(t.drop_last() =~= fs@.subrange(0, i as int));
            assert(out@.drop_last() =~= before);
        }
        i = i + 1;
    }
    assert(fs@.subrange(0, fs@.len() as int) =~= fs@);
    out
}

/// Copies of named default values.
fn copy_named_values(fs: &Vec<(String, ReflectValue)>) -> (r: Vec<(String, ReflectValue)>)
    ensures
        rviews_named(r@) == rviews_named(fs@),
    decreases fs, 1nat,
{
    let mut out: Vec<(String, ReflectValue)> = Vec::new();
    let mut i: usize = 0;
    assert(fs@.subrange(0, 0) =~= Seq::<(String, ReflectValue)>::empty());
    while i < fs.len()
        invariant
            i <= fs@.len(),
            rviews_named(out@) == rviews_named(fs@.subrange(0, i as int)),
        decreases fs@.len() - i,
    {
        proof {
            assert(decreases_to!(*fs => fs@));
            assert(decreases_to!(fs@ => fs@[i as int]));
            assert(decreases_to!(fs@[i as int] => fs@[i as int].1));
        }
        let c = fs[i].1.copy_value();
        let ghost before = out@;
        out.push((fs[i].0.clone(), c));
        proof {
            let t = fs@.subrange(0, i + 1);
            assert(t.drop_last() =~= fs@.subrange(0, i as int));
            assert(out@.drop_last() =~= before);
        }
        i = i + 1;
    }
    assert(fs@.subrange(0, fs@.len() as int) =~= fs@);
    out
}

/// `n` as `width` lowercase hexadecimal digits (the low ones).
pub open spec fn hex_digits(n: nat, width: nat) -> Seq<char>
    decreases width,
{
    if width == 0 {
        Seq::empty()
    } else {
        hex_digits(n / 16, (width - 1) as nat).push(hex_char((n % 16) as int))
    }
}

/// The JSON text given to a color: `#` and its packed value in eight
/// lowercase hexadecimal digits.
pub open spec fn color_hex(c: u32) -> Seq<char> {
    seq!['#'] + hex_digits(c as nat, 8)
}

/// The JSON value of a default value: numbers, booleans and strings as
/// themselves, a color as its hexadecimal text, an enum of unit variants as
/// its variant's name, a struct as an object of its fields, a tuple as an
/// object keyed by position, anything else `null`.
pub open spec fn json_of(v: ReflectValue) -> JsonView
    decreases v,
{
    match v.data {
        ReflectData::Bool(b) => JsonView::Bool(b),
        ReflectData::Int(i) => JsonView::Number(i as int),
        ReflectData::UInt(u) => JsonView::Number(u as int),
        ReflectData::Float(f) => JsonView::Float(f),
        ReflectData::Str(s) => JsonView::Str(s@),
        ReflectData::Color(c) => JsonView::Str(color_hex(c)),
        ReflectData::Enum { variant, unit_only, .. } => if unit_only {
            JsonView::Str(variant@)
        } else {
            JsonView::Null
        },
        ReflectData::Struct(fs) => JsonView::Object(json_of_named(fs@)),
        ReflectData::Tuple(fs) => JsonView::Object(json_of_positional(fs@)),
        _ => JsonView::Null,
    }
}

/// `m` with the member `k: v`, in the order of keys, as a JSON object map
/// keeps its members: a member with the same key is replaced.
pub open spec fn obj_insert(m: Seq<(Seq<char>, JsonView)>, k: Seq<char>, v: JsonView) -> Seq<(Seq<char>, JsonView)>
    decreases m.len(),
{
    if m.len() == 0 {
        seq![(k, v)]
    } else if m[0].0 == k {
        seq![(k, v)] + m.drop_first()
    } else if lex_le(k, m[0].0) {
        seq![(k, v)] + m
    } else {
        seq![m[0]] + obj_insert(m.drop_first(), k, v)
    }
}

/// The members of the JSON object of a struct: its fields, inserted in turn.
pub open spec fn json_of_named(fs: Seq<(String, ReflectValue)>) -> Seq<(Seq<char>, JsonView)>
    decreases fs,
{
    if fs.len() == 0 {
        Seq::empty()
    } else {
        obj_insert(json_of_named(fs.drop_last()), fs.last().0@, json_of(fs.last().1))
    }
}

/// The members of the JSON object of a tuple, keyed `0`, `1`, ... and
/// inserted in turn.
pub open spec fn json_of_positional(fs: Seq<ReflectValue>) -> Seq<(Seq<char>, JsonView)>
    decreases fs,
{
    if fs.len() == 0 {
        Seq::empty()
    } else {
        obj_insert(json_of_positional(fs.drop_last()), decimal((fs.len() - 1) as nat), json_of(fs.last()))
    }
}

proof fn lemma_fields_view(s: Seq<(String, JsonValue)>)
    ensures
        json_fields_view(s).len() == s.len(),
        forall|i: int| 0 <= i < s.len() ==> #[trigger] json_fields_view(s)[i] == (s[i].0@, json_view(s[i].1)),
    decreases s.len(),
{
    if s.len() > 0 {
        lemma_fields_view(s.drop_last());
    }
}

proof fn lemma_obj_insert_at(m: Seq<(Seq<char>, JsonView)>, k: Seq<char>, v: JsonView, i: int)
    requires
        0 <= i <= m.len(),
        forall|j: int| 0 <= j < i ==> !lex_le(k, #[trigger] m[j].0),
        i == m.len() || lex_le(k, m[i].0),
    ensures
        obj_insert(m, k, v) == if i < m.len() && m[i].0 == k {
            m.update(i, (k, v))
        } else {
            m.insert(i, (k, v))
        },
    decreases i,
{
    if i == 0 {
        if m.len() == 0 {
            assert(m.insert(0, (k, v)) =~= seq![(k, v)]);
        } else if m[0].0 == k {
            assert(m.update(0, (k, v)) =~= seq![(k, v)] + m.drop_first());
        } else {
            assert(m.insert(0, (k, v)) =~= seq![(k, v)] + m);
        }
    } else {
        lemma_lex_refl(k);
        assert(!lex_le(k, m[0].0));
        assert(m[0].0 != k);
        let t = m.drop_first();
        assert forall|j: int| 0 <= j < i - 1 implies !lex_le(k, #[trigger] t[j].0) by {
            assert(t[j] == m[j + 1]);
        }
        lemma_obj_insert_at(t, k, v, i - 1);
        if i < m.len() && m[i].0 == k {
            assert(seq![m[0]] + t.update(i - 1, (k, v)) =~= m.update(i, (k, v)));
        } else {
            assert(seq![m[0]] + t.insert(i - 1, (k, v)) =~= m.insert(i, (k, v)));
        }
    }
}

/// Adds the member `k: v` to an object's members kept in key order.
fn object_insert(out: &mut Vec<(String, JsonValue)>, k: String, v: JsonValue)
    ensures
        json_fields_view(final(out)@) == obj_insert(json_fields_view(old(out)@), k@, v@),
{
    let ghost m = json_fields_view(out@);
    proof {
        lemma_fields_view(out@);
    }
    let mut i: usize = 0;
    while i < out.len() && !lex_le_str(k.as_str(), out[i].0.as_str())
        invariant
            i <= out@.len(),
            out@ == old(out)@,
            forall|j: int| 0 <= j < i ==> !lex_le(k@, #[trigger] out@[j].0@),
        decreases out@.len() - i,
    {
        i = i + 1;
    }
    proof {
        assert forall|j: int| 0 <= j < i implies !lex_le(k@, #[trigger] m[j].0) by {
            assert(m[j].0 == out@[j].0@);
        }
        lemma_obj_insert_at(m, k@, v@, i as int);
    }
    let ghost kv = (k@, v@);
    if i < out.len() && str_eq(out[i].0.as_str(), k.as_str()) {
        out.remove(i);
        out.insert(i, (k, v));
        proof {
            lemma_fields_view(out@);
            assert(json_fields_view(out@) =~= m.update(i as int, kv));
        }
    } else {
        out.insert(i, (k, v));
        proof {
            lemma_fields_view(out@);
            assert(json_fields_view(out@) =~= m.insert(i as int, kv));
        }
    }
}

fn hex_string(c: u32, width: u32) -> (r: String)
    requires
        width <= 8,
    ensures
        r@ == hex_digits(c as nat, width as nat),
    decreases width,
{
    if width == 0 {
        String::new()
    } else {
        let mut s = hex_string(c / 16, width - 1);
        let d = c % 16;
        let t = crate::text::hex_digit(d);
        s.append(t);
        s
    }
}

/// The JSON value of a default value.
pub fn value_to_json(v: &ReflectValue) -> (r: JsonValue)
    ensures
        r@ == json_of(*v),
    decreases v,
{
    match &v.data {
        ReflectData::Bool(b) => JsonValue::Bool(*b),
        ReflectData::Int(i) => JsonValue::Int(*i),
        ReflectData::UInt(u) => JsonValue::UInt(*u),
        ReflectData::Float(f) => JsonValue::Float(*f),
        ReflectData::Str(s) => JsonValue::Str(s.clone()),
        ReflectData::Color(c) => {
            let mut s = String::new();
            s.append("#");
            let h = hex_string(*c, 8);
            s.append(h.as_str());
            proof {
                reveal_strlit("#");
                assert(s@ =~= color_hex(*c));
            }
            JsonValue::Str(s)
        },
        ReflectData::Enum { variant, unit_only, .. } => {
            if *unit_only {
                JsonValue::Str(variant.clone())
            } else {
                JsonValue::Null
            }
        },
        ReflectData::Struct(fs) => {
            let mut out: Vec<(String, JsonValue)> = Vec::new();
            let mut i: usize = 0;
            assert(fs@.subrange(0, 0) =~= Seq::<(String, ReflectValue)>::empty());
            while i < fs.len()
                invariant
                    i <= fs@.len(),
                    v.data is Struct,
                    *fs == v.data->Struct_0,
                    json_fields_view(out@) == json_of_named(fs@.subrange(0, i as int)),
                decreases fs@.len() - i,
            {
                proof {
                    assert(decreases_to!(*v => v.data));
                    assert(decreases_to!(v.data => v.data->Struct_0));
                    assert(decreases_to!(*fs => fs@));
                    assert(decreases_to!(fs@ => fs@[i as int]));
                    assert(decreases_to!(fs@[i as int] => fs@[i as int].1));
                }
                let j = value_to_json(&fs[i].1);
                object_insert(&mut out, fs[i].0.clone(), j);
                proof {
                    let t = fs@.subrange(0, i + 1);
                    assert(t.drop_last() =~= fs@.subrange(0, i as int));
                }
                i = i + 1;
            }
            assert(fs@.subrange(0, fs@.len() as int) =~= fs@);
            JsonValue::Object(out)
        },
        ReflectData::Tuple(fs) => {
            let mut out: Vec<(String, JsonValue)> = Vec::new();
            let mut i: usize = 0;
            assert(fs@.subrange(0, 0) =~= Seq::<ReflectValue>::empty());
            while i < fs.len()
                invariant
                    i <= fs@.len(),
                    v.data is Tuple,
                    *fs == v.data->Tuple_0,
                    json_fields_view(out@) == json_of_positional(fs@.subrange(0, i as int)),
                decreases fs@.len() - i,
            {
                proof {
                    assert(decreases_to!(*v => v.data));
                    assert(decreases_to!(v.data => v.data->Tuple_0));
                    assert(decreases_to!(*fs => fs@));
                    assert(decreases_to!(fs@ => fs@[i as int]));
                }
                let j = value_to_json(&fs[i]);
                object_insert(&mut out, usize_to_decimal(i), j);
                proof {
                    let t = fs@.subrange(0, i + 1);
                    assert(t.drop_last() =~= fs@.subrange(0, i as int));
                }
                i = i + 1;
            }
            assert(fs@.subrange(0, fs@.len() as int) =~= fs@);
            JsonValue::Object(out)
        },
        _ => JsonValue::Null,
    }
}

/// The value behind an optional reference.
pub open spec fn deref_opt(d: Option<&ReflectValue>) -> Option<ReflectValue> {
    match d {
        Some(v) => Some(*v),
        None => None,
    }
}

/// The value of the field named `name` of a struct value: the first field of
/// that name.
pub open spec fn struct_field(v: ReflectValue, name: Seq<char>) -> Option<ReflectValue> {
    match v.data {
        ReflectData::Struct(fs) => if exists|k: int| 0 <= k < fs@.len() && fs@[k].0@ == name {
            Some(fs@[first_named(fs@, name)].1)
        } else {
            None
        },
        _ => None,
    }
}

/// The position of the first field named `name`.
pub open spec fn first_named(fs: Seq<(String, ReflectValue)>, name: Seq<char>) -> int {
    choose|k: int| 0 <= k < fs.len() && fs[k].0@ == name && forall|j: int| 0 <= j < k ==> fs[j].0@ != name
}

/// The value of positional field `index` of a tuple or tuple struct value.
pub open spec fn positional_field(v: ReflectValue, index: int) -> Option<ReflectValue> {
    match v.data {
        ReflectData::Tuple(fs) => if 0 <= index < fs@.len() {
            Some(fs@[index])
        } else {
            None
        },
        _ => None,
    }
}

/// The JSON value of the named field `name` of a struct's default value:
/// `null` when there is no default or it has no such field.
pub open spec fn named_field_json(default: Option<ReflectValue>, name: Seq<char>) -> JsonView {
    match default {
        Some(v) => match struct_field(v, name) {
            Some(f) => json_of(f),
            None => JsonView::Null,
        },
        None => JsonView::Null,
    }
}

/// The JSON value of positional field `index` of a default value: `null`
/// when there is no default or it has no such field.
pub open spec fn unnamed_field_json(default: Option<ReflectValue>, index: int) -> JsonView {
    match default {
        Some(v) => match positional_field(v, index) {
            Some(f) => json_of(f),
            None => JsonView::Null,
        },
        None => JsonView::Null,
    }
}

/// Finds the first field named `name` of a struct value.
pub fn find_struct_field<'a>(v: &'a ReflectValue, name: &str) -> (r: Option<&'a ReflectValue>)
    ensures
        match (r, struct_field(*v, name@)) {
            (Some(a), Some(b)) => *a == b,
            (None, None) => true,
            _ => false,
        },
{
    match &v.data {
        ReflectData::Struct(fs) => {
            let mut i: usize = 0;
            while i < fs.len()
                invariant
                    i <= fs@.len(),
                    v.data is Struct,
                    *fs == v.data->Struct_0,
                    forall|j: int| 0 <= j < i ==> fs@[j].0@ != name@,
                decreases fs@.len() - i,
            {
                if crate::text::str_eq(fs[i].0.as_str(), name) {
                    proof {
                        let k = first_named(fs@, name@);
                        assert(0 <= i < fs@.len() && fs@[i as int].0@ == name@
                            && forall|j: int| 0 <= j < i ==> fs@[j].0@ != name@);
                        if k < i {
                        } else if k > i {
                        }
                    }
                    return Some(&fs[i].1);
                }
                i = i + 1;
            }
            None
        },
        _ => None,
    }
}

/// Positional field `index` of a tuple or tuple struct value.
pub fn find_positional_field(v: &ReflectValue, index: usize) -> (r: Option<&ReflectValue>)
    ensures
        match (r, positional_field(*v, index as int)) {
            (Some(a), Some(b)) => *a == b,
            (None, None) => true,
            _ => false,
        },
{
    match &v.data {
        ReflectData::Tuple(fs) => {
            if index < fs.len() {
                Some(&fs[index])
            } else {
                None
            }
        },
        _ => None,
    }
}

/// The JSON value of field `name` of a struct's default value.
pub fn named_field_json_value(default: Option<&ReflectValue>, name: &str) -> (r: JsonValue)
    ensures
        r@ == named_field_json(deref_opt(default), name@),
{
    match default {
        Some(v) => match find_struct_field(v, name) {
            Some(f) => value_to_json(f),
            None => JsonValue::Null,
        },
        None => JsonValue::Null,
    }
}

/// The JSON value of positional field `index` of a default value.
pub fn unnamed_field_json_value(default: Option<&ReflectValue>, index: usize) -> (r: JsonValue)
    ensures
        r@ == unnamed_field_json(deref_opt(default), index as int),
{
    match default {
        Some(v) => match &v.data {
            ReflectData::Tuple(fs) => {
                if index < fs.len() {
                    value_to_json(&fs[index])
                } else {
                    JsonValue::Null
                }
            },
            _ => JsonValue::Null,
        },
        None => JsonValue::Null,
    }
}


/// The keys of the members strictly increase: each key occurs once, in the
/// order of `String`.
pub open spec fn keys_sorted(m: Seq<(Seq<char>, JsonView)>) -> bool {
    forall|i: int, j: int| 0 <= i < j < m.len() ==> lex_le(#[trigger] m[i].0, #[trigger] m[j].0) && m[i].0 != m[j].0
}

/// Some member has the key `k`.
pub open spec fn has_member(m: Seq<(Seq<char>, JsonView)>, k: Seq<char>) -> bool {
    exists|i: int| 0 <= i < m.len() && m[i].0 == k
}

proof fn lemma_obj_insert_props(m: Seq<(Seq<char>, JsonView)>, k: Seq<char>, v: JsonView)
    requires
        keys_sorted(m),
    ensures
        keys_sorted(obj_insert(m, k, v)),
        obj_insert(m, k, v).contains((k, v)),
        forall|i: int| 0 <= i < obj_insert(m, k, v).len() ==>
            (#[trigger] obj_insert(m, k, v)[i]).0 == k || m.contains(obj_insert(m, k, v)[i]),
        forall|j: int| 0 <= j < m.len() && m[j].0 != k ==> obj_insert(m, k, v).contains(#[trigger] m[j]),
    decreases m.len(),
{
    let r = obj_insert(m, k, v);
    if m.len() == 0 {
        assert(r[0] == (k, v));
    } else if m[0].0 == k {
        assert(r[0] == (k, v));
        assert forall|i: int, j: int| 0 <= i < j < r.len() implies lex_le(#[trigger] r[i].0, #[trigger] r[j].0) && r[i].0 != r[j].0 by {
            assert(r[j] == m[j]);
            if i > 0 {
                assert(r[i] == m[i]);
            }
        }
        assert forall|i: int| 0 <= i < r.len() implies (#[trigger] r[i]).0 == k || m.contains(r[i]) by {
            if i > 0 {
                assert(r[i] == m[i]);
            }
        }
        assert forall|j: int| 0 <= j < m.len() && m[j].0 != k implies r.contains(#[trigger] m[j]) by {
            assert(r[j] == m[j]);
        }
    } else if lex_le(k, m[0].0) {
        assert(r[0] == (k, v));
        assert forall|i: int, j: int| 0 <= i < j < r.len() implies lex_le(#[trigger] r[i].0, #[trigger] r[j].0) && r[i].0 != r[j].0 by {
            assert(r[j] == m[j - 1]);
            if i > 0 {
                assert(r[i] == m[i - 1]);
            } else {
                if j - 1 > 0 {
                    assert(lex_le(m[0].0, m[j - 1].0) && m[0].0 != m[j - 1].0);
                    lemma_lex_trans(k, m[0].0, m[j - 1].0);
                    if k == m[j - 1].0 {
                        lemma_lex_antisym(m[0].0, m[j - 1].0);
                    }
                }
            }
        }
        assert forall|i: int| 0 <= i < r.len() implies (#[trigger] r[i]).0 == k || m.contains(r[i]) by {
            if i > 0 {
                assert(r[i] == m[i - 1]);
            }
        }
        assert forall|j: int| 0 <= j < m.len() && m[j].0 != k implies r.contains(#[trigger] m[j]) by {
            assert(r[j + 1] == m[j]);
        }
    } else {
        let t = m.drop_first();
        assert(keys_sorted(t)) by {
            assert forall|i: int, j: int| 0 <= i < j < t.len() implies lex_le(#[trigger] t[i].0, #[trigger] t[j].0) && t[i].0 != t[j].0 by {
                assert(t[i] == m[i + 1]);
                assert(t[j] == m[j + 1]);
            }
        }
        lemma_obj_insert_props(t, k, v);
        let rt = obj_insert(t, k, v);
        assert(r == seq![m[0]] + rt);
        lemma_lex_total(k, m[0].0);
        assert forall|i: int, j: int| 0 <= i < j < r.len() implies lex_le(#[trigger] r[i].0, #[trigger] r[j].0) && r[i].0 != r[j].0 by {
            assert(r[j] == rt[j - 1]);
            if i > 0 {
                assert(r[i] == rt[i - 1]);
            } else {
                assert(r[0] == m[0]);
                if rt[j - 1].0 == k {
                } else {
                    assert(t.contains(rt[j - 1]));
                    let q = choose|q: int| 0 <= q < t.len() && t[q] == rt[j - 1];
                    assert(t[q] == m[q + 1]);
                }
            }
        }
        assert forall|i: int| 0 <= i < r.len() implies (#[trigger] r[i]).0 == k || m.contains(r[i]) by {
            if i > 0 {
                assert(r[i] == rt[i - 1]);
                if rt[i - 1].0 != k {
                    assert(t.contains(rt[i - 1]));
                    let q = choose|q: int| 0 <= q < t.len() && t[q] == rt[i - 1];
                    assert(m[q + 1] == t[q]);
                }
            } else {
                assert(r[0] == m[0]);
            }
        }
        assert(rt.contains((k, v)));
        let q = choose|q: int| 0 <= q < rt.len() && rt[q] == (k, v);
        assert(r[q + 1] == (k, v));
        assert forall|j: int| 0 <= j < m.len() && m[j].0 != k implies r.contains(#[trigger] m[j]) by {
            if j == 0 {
                assert(r[0] == m[0]);
            } else {
                assert(t[j - 1] == m[j]);
                assert(rt.contains(t[j - 1]));
                let p = choose|p: int| 0 <= p < rt.len() && rt[p] == t[j - 1];
                assert(r[p + 1] == m[j]);
            }
        }
    }
}

proof fn lemma_named_sorted(fs: Seq<(String, ReflectValue)>)
    ensures
        keys_sorted(json_of_named(fs)),
    decreases fs.len(),
{
    if fs.len() > 0 {
        lemma_named_sorted(fs.drop_last());
        lemma_obj_insert_props(json_of_named(fs.drop_last()), fs.last().0@, json_of(fs.last().1));
    }
}

proof fn lemma_positional_sorted(fs: Seq<ReflectValue>)
    ensures
        keys_sorted(json_of_positional(fs)),
    decreases fs.len(),
{
    if fs.len() > 0 {
        lemma_positional_sorted(fs.drop_last());
        lemma_obj_insert_props(json_of_positional(fs.drop_last()), decimal((fs.len() - 1) as nat), json_of(fs.last()));
    }
}

/// The JSON object made of a default value holds each key once, in the
/// order of keys, as a JSON map keeps them.
pub proof fn lemma_json_object_sorted(v: ReflectValue)
    ensures
        json_of(v) matches JsonView::Object(m) ==> keys_sorted(m),
{
    match v.data {
        ReflectData::Struct(fs) => lemma_named_sorted(fs@),
        ReflectData::Tuple(fs) => lemma_positional_sorted(fs@),
        _ => {},
    }
}

/// A struct's default value gives every field its JSON value, under the
/// field's name, provided the fields have distinct names.
pub proof fn lemma_json_struct_members(fs: Seq<(String, ReflectValue)>, k: int)
    requires
        0 <= k < fs.len(),
        forall|i: int, j: int| 0 <= i < j < fs.len() ==> (#[trigger] fs[i]).0@ != (#[trigger] fs[j]).0@,
    ensures
        json_of_named(fs).contains((fs[k].0@, json_of(fs[k].1))),
    decreases fs.len(),
{
    let last = fs.len() - 1;
    lemma_named_sorted(fs.drop_last());
    lemma_obj_insert_props(json_of_named(fs.drop_last()), fs[last].0@, json_of(fs[last].1));
    if k < last {
        assert forall|i: int, j: int| 0 <= i < j < fs.drop_last().len() implies
            (#[trigger] fs.drop_last()[i]).0@ != (#[trigger] fs.drop_last()[j]).0@ by {
            assert(fs.drop_last()[i] == fs[i]);
            assert(fs.drop_last()[j] == fs[j]);
        }
        lemma_json_struct_members(fs.drop_last(), k);
        let m = json_of_named(fs.drop_last());
        let p = choose|p: int| 0 <= p < m.len() && m[p] == (fs[k].0@, json_of(fs[k].1));
        assert(fs.drop_last()[k] == fs[k]);
        assert(m[p].0 != fs[last].0@);
    }
}

} // verus!
