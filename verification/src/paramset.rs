//! Generic storage types created by the parser and passed to factory functions when
//! building a scene.
//!
//! Numeric parameter values are kept as the decimal literals written in the scene file
//! (each one a valid floating-point literal when it comes from the parser); rendering code
//! converts them to floating point where it reads them.
use vstd::prelude::*;

use crate::geometry::{Normal3, Point2, Point3, Vector2, Vector3};
use crate::text::str_eq;

verus! {

/// A list of parameter values.
#[derive(Clone, Debug, PartialEq)]
pub struct ParamList<T>(pub Vec<T>);

impl<T> From<Vec<T>> for ParamList<T> {
    fn from(vs: Vec<T>) -> (pl: Self) {
        ParamList(vs)
    }
}

impl<T> vstd::std_specs::convert::FromSpecImpl<Vec<T>> for ParamList<T> {
    open spec fn obeys_from_spec() -> bool {
        true
    }

    open spec fn from_spec(vs: Vec<T>) -> Self {
        ParamList(vs)
    }
}

/// The typed values of one parameter.
#[derive(Debug, Clone, PartialEq)]
pub enum Value {
    /// `bool` values.
    Bool(ParamList<bool>),
    /// `float` values, as number literals.
    Float(ParamList<String>),
    /// `integer` values, as number literals.
    Int(ParamList<String>),
    /// `point2` values.
    Point2f(ParamList<Point2<String>>),
    /// `vector2` values.
    Vector2f(ParamList<Vector2<String>>),
    /// `point3` values.
    Point3f(ParamList<Point3<String>>),
    /// `vector3` values.
    Vector3f(ParamList<Vector3<String>>),
    /// `normal` values.
    Normal3f(ParamList<Normal3<String>>),
    /// A sampled spectrum: alternating wavelengths and values.
    Spectrum(ParamList<String>),
    /// Files holding sampled spectra.
    SpectrumFiles(ParamList<String>),
    /// `string` values.
    String(ParamList<String>),
    /// `texture` names.
    Texture(ParamList<String>),
    /// `rgb` (and `color`, `xyz`) values: consecutive triples.
    RGB(ParamList<String>),
    /// `blackbody` values: pairs of temperature and scale.
    Blackbody(ParamList<String>),
}

/// The abstract contents of a `Value`: strings by their characters.
pub enum ValueView {
    Bool(Seq<bool>),
    Float(Seq<Seq<char>>),
    Int(Seq<Seq<char>>),
    Point2f(Seq<Point2<Seq<char>>>),
    Vector2f(Seq<Vector2<Seq<char>>>),
    Point3f(Seq<Point3<Seq<char>>>),
    Vector3f(Seq<Vector3<Seq<char>>>),
    Normal3f(Seq<Normal3<Seq<char>>>),
    Spectrum(Seq<Seq<char>>),
    SpectrumFiles(Seq<Seq<char>>),
    String(Seq<Seq<char>>),
    Texture(Seq<Seq<char>>),
    RGB(Seq<Seq<char>>),
    Blackbody(Seq<Seq<char>>),
}

/// The characters of each string.
pub open spec fn strs(v: Seq<String>) -> Seq<Seq<char>> {
    v.map_values(|s: String| s@)
}

/// Appending a string appends its characters.
pub proof fn lemma_strs_push(v: Seq<String>, s: String)
    ensures
        strs(v.push(s)) == strs(v).push(s@),
{
    assert(strs(v.push(s)) =~= strs(v).push(s@));
}

/// The characters of each coordinate of each point.
pub open spec fn point2s(v: Seq<Point2<String>>) -> Seq<Point2<Seq<char>>> {
    v.map_values(|p: Point2<String>| Point2 { x: p.x@, y: p.y@ })
}

/// The characters of each coordinate of each vector.
pub open spec fn vector2s(v: Seq<Vector2<String>>) -> Seq<Vector2<Seq<char>>> {
    v.map_values(|p: Vector2<String>| Vector2 { x: p.x@, y: p.y@ })
}

/// The characters of each coordinate of each point.
pub open spec fn point3s(v: Seq<Point3<String>>) -> Seq<Point3<Seq<char>>> {
    v.map_values(|p: Point3<String>| Point3 { x: p.x@, y: p.y@, z: p.z@ })
}

/// The characters of each coordinate of each vector.
pub open spec fn vector3s(v: Seq<Vector3<String>>) -> Seq<Vector3<Seq<char>>> {
    v.map_values(|p: Vector3<String>| Vector3 { x: p.x@, y: p.y@, z: p.z@ })
}

/// The characters of each coordinate of each normal.
pub open spec fn normal3s(v: Seq<Normal3<String>>) -> Seq<Normal3<Seq<char>>> {
    v.map_values(|p: Normal3<String>| Normal3 { x: p.x@, y: p.y@, z: p.z@ })
}

impl View for Value {
    type V = ValueView;

    open spec fn view(&self) -> ValueView {
        match self {
            Value::Bool(pl) => ValueView::Bool(pl.0@),
            Value::Float(pl) => ValueView::Float(strs(pl.0@)),
            Value::Int(pl) => ValueView::Int(strs(pl.0@)),
            Value::Point2f(pl) => ValueView::Point2f(point2s(pl.0@)),
            Value::Vector2f(pl) => ValueView::Vector2f(vector2s(pl.0@)),
            Value::Point3f(pl) => ValueView::Point3f(point3s(pl.0@)),
            Value::Vector3f(pl) => ValueView::Vector3f(vector3s(pl.0@)),
            Value::Normal3f(pl) => ValueView::Normal3f(normal3s(pl.0@)),
            Value::Spectrum(pl) => ValueView::Spectrum(strs(pl.0@)),
            Value::SpectrumFiles(pl) => ValueView::SpectrumFiles(strs(pl.0@)),
            Value::String(pl) => ValueView::String(strs(pl.0@)),
            Value::Texture(pl) => ValueView::Texture(strs(pl.0@)),
            Value::RGB(pl) => ValueView::RGB(strs(pl.0@)),
            Value::Blackbody(pl) => ValueView::Blackbody(strs(pl.0@)),
        }
    }
}

/// Element types whose copies are equal to the original.
pub trait Duplicate: Sized {
    /// An equal copy of `self`.
    fn duplicate(&self) -> (r: Self)
        ensures
            r == *self,
    ;
}

impl Duplicate for bool {
    fn duplicate(&self) -> (r: Self) {
        *self
    }
}

impl Duplicate for String {
    fn duplicate(&self) -> (r: Self) {
        self.clone()
    }
}

impl Duplicate for Point2<String> {
    fn duplicate(&self) -> (r: Self) {
        Point2 { x: self.x.clone(), y: self.y.clone() }
    }
}

impl Duplicate for Vector2<String> {
    fn duplicate(&self) -> (r: Self) {
        Vector2 { x: self.x.clone(), y: self.y.clone() }
    }
}

impl Duplicate for Point3<String> {
    fn duplicate(&self) -> (r: Self) {
        Point3 { x: self.x.clone(), y: self.y.clone(), z: self.z.clone() }
    }
}

impl Duplicate for Vector3<String> {
    fn duplicate(&self) -> (r: Self) {
        Vector3 { x: self.x.clone(), y: self.y.clone(), z: self.z.clone() }
    }
}

impl Duplicate for Normal3<String> {
    fn duplicate(&self) -> (r: Self) {
        Normal3 { x: self.x.clone(), y: self.y.clone(), z: self.z.clone() }
    }
}

/// An element-by-element copy of a parameter list.
fn duplicate_list<T: Duplicate>(pl: &ParamList<T>) -> (r: ParamList<T>)
    ensures
        r.0@ == pl.0@,
{
    let mut v: Vec<T> = Vec::new();
    let n = pl.0.len();
    let mut i: usize = 0;
    while i < n
        invariant
            n == pl.0@.len(),
            i <= n,
            v@ == pl.0@.take(i as int),
        decreases n - i,
    {
        v.push(pl.0[i].duplicate());
        proof {
            assert(pl.0@.take(i + 1) =~= pl.0@.take(i as int).push(pl.0@[i as int]));
        }
        i = i + 1;
    }
    proof {
        assert(pl.0@.take(n as int) =~= pl.0@);
    }
    ParamList(v)
}

impl Value {
    /// A copy of this value with the same contents.
    pub fn duplicate(&self) -> (r: Value)
        ensures
            r@ == self@,
    {
        match self {
            Value::Bool(pl) => Value::Bool(duplicate_list(pl)),
            Value::Float(pl) => Value::Float(duplicate_list(pl)),
            Value::Int(pl) => Value::Int(duplicate_list(pl)),
            Value::Point2f(pl) => Value::Point2f(duplicate_list(pl)),
            Value::Vector2f(pl) => Value::Vector2f(duplicate_list(pl)),
            Value::Point3f(pl) => Value::Point3f(duplicate_list(pl)),
            Value::Vector3f(pl) => Value::Vector3f(duplicate_list(pl)),
            Value::Normal3f(pl) => Value::Normal3f(duplicate_list(pl)),
            Value::Spectrum(pl) => Value::Spectrum(duplicate_list(pl)),
            Value::SpectrumFiles(pl) => Value::SpectrumFiles(duplicate_list(pl)),
            Value::String(pl) => Value::String(duplicate_list(pl)),
            Value::Texture(pl) => Value::Texture(duplicate_list(pl)),
            Value::RGB(pl) => Value::RGB(duplicate_list(pl)),
            Value::Blackbody(pl) => Value::Blackbody(duplicate_list(pl)),
        }
    }
}

/// A named parameter with its values.
#[derive(Debug, Clone, PartialEq)]
pub struct ParamSetItem {
    /// The parameter's name.
    pub name: String,
    /// The parameter's values.
    pub values: Value,
}

/// What a `ParamSet` records for one name.
pub struct ParamEntry {
    /// The parameter's values.
    pub value: ValueView,
    /// Whether the parameter has been looked up.
    pub looked_up: bool,
}

impl ParamSetItem {
    /// Create a new `ParamSetItem` with the given `name` and `values`.
    pub fn new(name: &str, values: &Value) -> (item: ParamSetItem)
        ensures
            item.name@ == name@,
            item.values@ == values@,
    {
        ParamSetItem { name: name.to_owned(), values: values.duplicate() }
    }
}

/// An item held by a set, with whether it has been looked up.
#[derive(Debug, Clone)]
struct Slot {
    item: ParamSetItem,
    looked_up: bool,
}

impl Slot {
    /// What this slot records.
    spec fn entry(&self) -> ParamEntry {
        ParamEntry { value: self.item.values@, looked_up: self.looked_up }
    }

    spec fn key(&self) -> Seq<char> {
        self.item.name@
    }
}

/// The map from names to entries recorded by a sequence of items, later items taking
/// precedence.
spec fn items_map(items: Seq<Slot>) -> Map<Seq<char>, ParamEntry>
    decreases items.len(),
{
    if items.len() == 0 {
        Map::empty()
    } else {
        items_map(items.drop_last()).insert(items.last().key(), items.last().entry())
    }
}

/// Whether no two items share a name.
spec fn unique_names(items: Seq<Slot>) -> bool {
    forall|i: int, j: int|
        0 <= i < items.len() && 0 <= j < items.len() && i != j ==> #[trigger] items[i].key()
            != #[trigger] items[j].key()
}

proof fn lemma_items_map_dom(items: Seq<Slot>, k: Seq<char>)
    ensures
        items_map(items).contains_key(k) <==> exists|i: int| 0 <= i < items.len() && #[trigger] items[i].key() == k,
    decreases items.len(),
{
    if items.len() > 0 {
        let front = items.drop_last();
        lemma_items_map_dom(front, k);
        if exists|i: int| 0 <= i < items.len() && #[trigger] items[i].key() == k {
            let i = choose|i: int| 0 <= i < items.len() && #[trigger] items[i].key() == k;
            if i < items.len() - 1 {
                assert(front[i].key() == k);
            }
        }
        if exists|i: int| 0 <= i < front.len() && #[trigger] front[i].key() == k {
            let i = choose|i: int| 0 <= i < front.len() && #[trigger] front[i].key() == k;
            assert(items[i].key() == k);
        }
    }
}

proof fn lemma_same_keys_same_map(a: Seq<Slot>, b: Seq<Slot>)
    requires
        a.len() == b.len(),
        forall|j: int| 0 <= j < a.len() ==> #[trigger] a[j].key() == b[j].key() && a[j].entry() == b[j].entry(),
    ensures
        unique_names(b) ==> unique_names(a),
        items_map(a) == items_map(b),
    decreases a.len(),
{
    if unique_names(b) {
        assert forall|i: int, j: int|
            0 <= i < a.len() && 0 <= j < a.len() && i != j implies #[trigger] a[i].key() != #[trigger] a[j].key() by {
            assert(b[i].key() != b[j].key());
        }
    }
    if a.len() > 0 {
        let (fa, fb) = (a.drop_last(), b.drop_last());
        assert forall|j: int| 0 <= j < fa.len() implies #[trigger] fa[j].key() == fb[j].key() && fa[j].entry() == fb[j].entry() by {
            assert(fa[j] == a[j] && fb[j] == b[j]);
        }
        lemma_same_keys_same_map(fa, fb);
        assert(a.last().key() == b.last().key());
    }
}

proof fn lemma_items_map_get(items: Seq<Slot>, i: int)
    requires
        unique_names(items),
        0 <= i < items.len(),
    ensures
        items_map(items).contains_key(items[i].key()),
        items_map(items)[items[i].key()] == items[i].entry(),
    decreases items.len(),
{
    let front = items.drop_last();
    if i < items.len() - 1 {
        assert(front[i] == items[i]);
        assert(unique_names(front)) by {
            assert forall|a: int, b: int|
                0 <= a < front.len() && 0 <= b < front.len() && a != b implies #[trigger] front[a].key()
                    != #[trigger] front[b].key() by {
                assert(front[a] == items[a] && front[b] == items[b]);
            }
        }
        lemma_items_map_get(front, i);
        assert(items[i].key() != items.last().key());
    }
}

proof fn lemma_items_map_update(items: Seq<Slot>, i: int, item: Slot)
    requires
        unique_names(items),
        0 <= i < items.len(),
        item.key() == items[i].key(),
    ensures
        unique_names(items.update(i, item)),
        items_map(items.update(i, item)) == items_map(items).insert(item.key(), item.entry()),
{
    let updated = items.update(i, item);
    assert(unique_names(updated)) by {
        assert forall|a: int, b: int|
            0 <= a < updated.len() && 0 <= b < updated.len() && a != b implies #[trigger] updated[a].key()
                != #[trigger] updated[b].key() by {
            assert(updated[a].key() == items[a].key());
            assert(updated[b].key() == items[b].key());
        }
    }
    assert forall|k: Seq<char>| #[trigger] items_map(updated).contains_key(k) <==> items_map(items).insert(item.key(), item.entry()).contains_key(k) by {
        lemma_items_map_dom(updated, k);
        lemma_items_map_dom(items, k);
        if exists|j: int| 0 <= j < updated.len() && #[trigger] updated[j].key() == k {
            let j = choose|j: int| 0 <= j < updated.len() && #[trigger] updated[j].key() == k;
            assert(items[j].key() == k);
        }
        if exists|j: int| 0 <= j < items.len() && #[trigger] items[j].key() == k {
            let j = choose|j: int| 0 <= j < items.len() && #[trigger] items[j].key() == k;
            assert(updated[j].key() == k);
        }
    }
    assert forall|k: Seq<char>| #[trigger] items_map(updated).contains_key(k) implies items_map(updated)[k] == items_map(items).insert(item.key(), item.entry())[k] by {
        lemma_items_map_dom(updated, k);
        let j = choose|j: int| 0 <= j < updated.len() && #[trigger] updated[j].key() == k;
        lemma_items_map_get(updated, j);
        if j != i {
            lemma_items_map_get(items, j);
        }
    }
    assert(items_map(updated) =~= items_map(items).insert(item.key(), item.entry()));
}

/// `ParamSet` provides a generic way to pass data between the scene files and the factory
/// functions that create various pieces of the rendering pipeline.
#[derive(Debug)]
pub struct ParamSet {
    values: Vec<Slot>,
}

impl View for ParamSet {
    type V = Map<Seq<char>, ParamEntry>;

    closed spec fn view(&self) -> Map<Seq<char>, ParamEntry> {
        items_map(self.values@)
    }
}

/// The first element of `values` if there is one, else `default`.
pub open spec fn first_or<T>(values: Seq<T>, default: T) -> T {
    if values.len() > 0 {
        values[0]
    } else {
        default
    }
}

/// The parameters after `name` was looked up: its entry, if there is one, counts as used.
pub open spec fn looked_up(m: Map<Seq<char>, ParamEntry>, name: Seq<char>) -> Map<Seq<char>, ParamEntry> {
    if m.contains_key(name) {
        m.insert(name, ParamEntry { value: m[name].value, looked_up: true })
    } else {
        m
    }
}

/// The characters of each coordinate of a point.
pub open spec fn point2_chars(p: Point2<String>) -> Point2<Seq<char>> {
    Point2 { x: p.x@, y: p.y@ }
}

/// The characters of each coordinate of a vector.
pub open spec fn vector2_chars(p: Vector2<String>) -> Vector2<Seq<char>> {
    Vector2 { x: p.x@, y: p.y@ }
}

/// The characters of each coordinate of a point.
pub open spec fn point3_chars(p: Point3<String>) -> Point3<Seq<char>> {
    Point3 { x: p.x@, y: p.y@, z: p.z@ }
}

/// The characters of each coordinate of a vector.
pub open spec fn vector3_chars(p: Vector3<String>) -> Vector3<Seq<char>> {
    Vector3 { x: p.x@, y: p.y@, z: p.z@ }
}

/// The characters of each coordinate of a normal.
pub open spec fn normal3_chars(p: Normal3<String>) -> Normal3<Seq<char>> {
    Normal3 { x: p.x@, y: p.y@, z: p.z@ }
}

/// The first element of `pl`, else `default`.
fn first_of<T: Duplicate>(pl: &ParamList<T>, default: T) -> (r: T)
    ensures
        r == first_or(pl.0@, default),
{
    if pl.0.len() > 0 {
        pl.0[0].duplicate()
    } else {
        default
    }
}

impl ParamSet {
    /// Names are unique.
    #[verifier::type_invariant]
    spec fn wf(self) -> bool {
        unique_names(self.values@)
    }

    /// Index of the item called `name`.
    fn position(&self, name: &str) -> (r: Option<usize>)
        ensures
            r matches Some(i) ==> i < self.values@.len() && self.values@[i as int].key() == name@,
            r is None ==> !self@.contains_key(name@),
    {
        let n = self.values.len();
        let mut i: usize = 0;
        while i < n
            invariant
                n == self.values@.len(),
                i <= n,
                forall|j: int| 0 <= j < i ==> #[trigger] self.values@[j].key() != name@,
            decreases n - i,
        {
            if str_eq(self.values[i].item.name.as_str(), name) {
                return Some(i);
            }
            i = i + 1;
        }
        proof {
            lemma_items_map_dom(self.values@, name@);
        }
        None
    }

    /// Records `values` under `name`, replacing what was recorded there; the parameter
    /// counts as not looked up.
    pub fn add(&mut self, name: &str, values: Value)
        ensures
            final(self)@ == old(self)@.insert(name@, ParamEntry { value: values@, looked_up: false }),
    {
        proof {
            use_type_invariant(&*self);
        }
        let item = Slot { item: ParamSetItem { name: name.to_owned(), values }, looked_up: false };
        match self.position(name) {
            Some(i) => {
                proof {
                    lemma_items_map_update(self.values@, i as int, item);
                }
                let mut items: Vec<Slot> = Vec::new();
                std::mem::swap(&mut items, &mut self.values);
                items.set(i, item);
                self.values = items;
            },
            None => {
                proof {
                    assert(unique_names(self.values@.push(item))) by {
                        assert forall|a: int, b: int|
                            0 <= a < self.values@.len() + 1 && 0 <= b < self.values@.len() + 1 && a != b
                            implies #[trigger] self.values@.push(item)[a].key()
                            != #[trigger] self.values@.push(item)[b].key() by {
                            if a == self.values@.len() as int {
                                lemma_items_map_dom(self.values@, name@);
                                assert(self.values@[b] == self.values@.push(item)[b]);
                            } else if b == self.values@.len() as int {
                                lemma_items_map_dom(self.values@, name@);
                                assert(self.values@[a] == self.values@.push(item)[a]);
                            }
                        }
                    }
                    assert(self.values@.push(item).drop_last() =~= self.values@);
                }
                let mut items: Vec<Slot> = Vec::new();
                std::mem::swap(&mut items, &mut self.values);
                items.push(item);
                self.values = items;
            },
        }
    }

    /// The values recorded under `name`, if any; the parameter then counts as looked up.
    pub fn find(&mut self, name: &str) -> (r: Option<Value>)
        ensures
            old(self)@.contains_key(name@) ==> (r matches Some(v) && v@ == old(self)@[name@].value
                && final(self)@ == old(self)@.insert(name@, ParamEntry { value: v@, looked_up: true })),
            !old(self)@.contains_key(name@) ==> r is None && final(self)@ == old(self)@,
    {
        proof {
            use_type_invariant(&*self);
        }
        match self.position(name) {
            Some(i) => {
                let v = self.values[i].item.values.duplicate();
                proof {
                    lemma_items_map_get(self.values@, i as int);
                }
                let mut items: Vec<Slot> = Vec::new();
                std::mem::swap(&mut items, &mut self.values);
                let mut item = items.remove(i);
                proof {
                    assert(items@.insert(i as int, item) =~= old(self).values@);
                }
                item.looked_up = true;
                items.insert(i, item);
                proof {
                    assert(items@ =~= old(self).values@.update(i as int, item));
                    lemma_items_map_update(old(self).values@, i as int, item);
                }
                self.values = items;
                Some(v)
            },
            None => None,
        }
    }

    /// find_one_bool will return the first parameter in the set for the given `name`.  If no
    /// values are found `default` is returned. If the value by that name is found but isn't of
    /// type `bool` then `default` will be returned.
    pub fn find_one_bool(&mut self, name: &str, default: bool) -> (r: bool)
        ensures
            r == (if old(self)@.contains_key(name@) {
                match old(self)@[name@].value {
                    ValueView::Bool(vs) => first_or(vs, default),
                    _ => default,
                }
            } else {
                default
            }),
            final(self)@ == (if old(self)@.contains_key(name@) {
                old(self)@.insert(name@, ParamEntry { value: old(self)@[name@].value, looked_up: true })
            } else {
                old(self)@
            }),
    {
        match self.find(name) {
            Some(Value::Bool(pl)) => {
                if pl.0.len() > 0 {
                    pl.0[0]
                } else {
                    default
                }
            },
            _ => default,
        }
    }

    /// Shared by `find_one_string` and `find_one_texture`.
    fn find_one_text(&mut self, name: &str, default: String, texture: bool) -> (r: String)
        ensures
            r@ == (if old(self)@.contains_key(name@) {
                match old(self)@[name@].value {
                    ValueView::String(vs) => if texture { default@ } else { first_or(vs, default@) },
                    ValueView::Texture(vs) => if texture { first_or(vs, default@) } else { default@ },
                    _ => default@,
                }
            } else {
                default@
            }),
            final(self)@ == (if old(self)@.contains_key(name@) {
                old(self)@.insert(name@, ParamEntry { value: old(self)@[name@].value, looked_up: true })
            } else {
                old(self)@
            }),
    {
        match self.find(name) {
            Some(Value::String(pl)) if !texture => {
                if pl.0.len() > 0 {
                    pl.0[0].clone()
                } else {
                    default
                }
            },
            Some(Value::Texture(pl)) if texture => {
                if pl.0.len() > 0 {
                    pl.0[0].clone()
                } else {
                    default
                }
            },
            _ => default,
        }
    }

    /// find_one_string will return the first parameter in the set for the given `name`.  If no
    /// values are found `default` is returned. If the value by that name is found but isn't of
    /// type `String` then `default` will be returned.
    pub fn find_one_string(&mut self, name: &str, default: String) -> (r: String)
        ensures
            r@ == (if old(self)@.contains_key(name@) {
                match old(self)@[name@].value {
                    ValueView::String(vs) => first_or(vs, default@),
                    _ => default@,
                }
            } else {
                default@
            }),
            final(self)@ == (if old(self)@.contains_key(name@) {
                old(self)@.insert(name@, ParamEntry { value: old(self)@[name@].value, looked_up: true })
            } else {
                old(self)@
            }),
    {
        self.find_one_text(name, default, false)
    }

    /// find_one_texture will return the first parameter in the set for the given `name`.  If
    /// no values are found `default` is returned. If the value by that name is found but isn't
    /// a texture then `default` will be returned.
    pub fn find_one_texture(&mut self, name: &str, default: String) -> (r: String)
        ensures
            r@ == (if old(self)@.contains_key(name@) {
                match old(self)@[name@].value {
                    ValueView::Texture(vs) => first_or(vs, default@),
                    _ => default@,
                }
            } else {
                default@
            }),
            final(self)@ == (if old(self)@.contains_key(name@) {
                old(self)@.insert(name@, ParamEntry { value: old(self)@[name@].value, looked_up: true })
            } else {
                old(self)@
            }),
    {
        self.find_one_text(name, default, true)
    }

    /// find_one_float will return the first parameter in the set for the given `name`.  If no
    /// values are found `default` is returned. If the value by that name is found but isn't
    /// of type `float` then `default` will be returned.  Values are the literals as written in the scene.
    pub fn find_one_float(&mut self, name: &str, default: String) -> (r: String)
        ensures
            r@ == (if old(self)@.contains_key(name@) {
                match old(self)@[name@].value {
                    ValueView::Float(vs) => first_or(vs, default@),
                    _ => default@,
                }
            } else {
                default@
            }),
            final(self)@ == looked_up(old(self)@, name@),
    {
        match self.find(name) {
            Some(Value::Float(pl)) => first_of(&pl, default),
            _ => default,
        }
    }

    /// find_one_int will return the first parameter in the set for the given `name`.  If no
    /// values are found `default` is returned. If the value by that name is found but isn't
    /// of type `integer` then `default` will be returned.  Values are the literals as written in the scene.
    pub fn find_one_int(&mut self, name: &str, default: String) -> (r: String)
        ensures
            r@ == (if old(self)@.contains_key(name@) {
                match old(self)@[name@].value {
                    ValueView::Int(vs) => first_or(vs, default@),
                    _ => default@,
                }
            } else {
                default@
            }),
            final(self)@ == looked_up(old(self)@, name@),
    {
        match self.find(name) {
            Some(Value::Int(pl)) => first_of(&pl, default),
            _ => default,
        }
    }

    /// find_one_point2f will return the first parameter in the set for the given `name`.  If no
    /// values are found `default` is returned. If the value by that name is found but isn't
    /// of type `point2` then `default` will be returned.  Values are the literals as written in the scene.
    pub fn find_one_point2f(&mut self, name: &str, default: Point2<String>) -> (r: Point2<String>)
        ensures
            point2_chars(r) == (if old(self)@.contains_key(name@) {
                match old(self)@[name@].value {
                    ValueView::Point2f(vs) => first_or(vs, point2_chars(default)),
                    _ => point2_chars(default),
                }
            } else {
                point2_chars(default)
            }),
            final(self)@ == looked_up(old(self)@, name@),
    {
        match self.find(name) {
            Some(Value::Point2f(pl)) => first_of(&pl, default),
            _ => default,
        }
    }

    /// find_one_vector2f will return the first parameter in the set for the given `name`.  If no
    /// values are found `default` is returned. If the value by that name is found but isn't
    /// of type `vector2` then `default` will be returned.  Values are the literals as written in the scene.
    pub fn find_one_vector2f(&mut self, name: &str, default: Vector2<String>) -> (r: Vector2<String>)
        ensures
            vector2_chars(r) == (if old(self)@.contains_key(name@) {
                match old(self)@[name@].value {
                    ValueView::Vector2f(vs) => first_or(vs, vector2_chars(default)),
                    _ => vector2_chars(default),
                }
            } else {
                vector2_chars(default)
            }),
            final(self)@ == looked_up(old(self)@, name@),
    {
        match self.find(name) {
            Some(Value::Vector2f(pl)) => first_of(&pl, default),
            _ => default,
        }
    }

    /// find_one_point3f will return the first parameter in the set for the given `name`.  If no
    /// values are found `default` is returned. If the value by that name is found but isn't
    /// of type `point3` then `default` will be returned.  Values are the literals as written in the scene.
    pub fn find_one_point3f(&mut self, name: &str, default: Point3<String>) -> (r: Point3<String>)
        ensures
            point3_chars(r) == (if old(self)@.contains_key(name@) {
                match old(self)@[name@].value {
                    ValueView::Point3f(vs) => first_or(vs, point3_chars(default)),
                    _ => point3_chars(default),
                }
            } else {
                point3_chars(default)
            }),
            final(self)@ == looked_up(old(self)@, name@),
    {
        match self.find(name) {
            Some(Value::Point3f(pl)) => first_of(&pl, default),
            _ => default,
        }
    }

    /// find_one_vector3f will return the first parameter in the set for the given `name`.  If no
    /// values are found `default` is returned. If the value by that name is found but isn't
    /// of type `vector3` then `default` will be returned.  Values are the literals as written in the scene.
    pub fn find_one_vector3f(&mut self, name: &str, default: Vector3<String>) -> (r: Vector3<String>)
        ensures
            vector3_chars(r) == (if old(self)@.contains_key(name@) {
                match old(self)@[name@].value {
                    ValueView::Vector3f(vs) => first_or(vs, vector3_chars(default)),
                    _ => vector3_chars(default),
                }
            } else {
                vector3_chars(default)
            }),
            final(self)@ == looked_up(old(self)@, name@),
    {
        match self.find(name) {
            Some(Value::Vector3f(pl)) => first_of(&pl, default),
            _ => default,
        }
    }

    /// find_one_normal3f will return the first parameter in the set for the given `name`.  If no
    /// values are found `default` is returned. If the value by that name is found but isn't
    /// of type `normal` then `default` will be returned.  Values are the literals as written in the scene.
    pub fn find_one_normal3f(&mut self, name: &str, default: Normal3<String>) -> (r: Normal3<String>)
        ensures
            normal3_chars(r) == (if old(self)@.contains_key(name@) {
                match old(self)@[name@].value {
                    ValueView::Normal3f(vs) => first_or(vs, normal3_chars(default)),
                    _ => normal3_chars(default),
                }
            } else {
                normal3_chars(default)
            }),
            final(self)@ == looked_up(old(self)@, name@),
    {
        match self.find(name) {
            Some(Value::Normal3f(pl)) => first_of(&pl, default),
            _ => default,
        }
    }

    /// find_one_spectrum will return the spectrum in the set for the given `name`, as the
    /// literals written in the scene: the first three values of an `rgb` parameter, or the
    /// value of the first sample of a sampled `spectrum`.  If no such values are found
    /// `default` is returned.
    pub fn find_one_spectrum(&mut self, name: &str, default: Vec<String>) -> (r: Vec<String>)
        ensures
            strs(r@) == (if old(self)@.contains_key(name@) {
                match old(self)@[name@].value {
                    ValueView::RGB(vs) => if vs.len() >= 3 {
                        vs.take(3)
                    } else {
                        strs(default@)
                    },
                    ValueView::Spectrum(vs) => if vs.len() >= 2 {
                        seq![vs[1]]
                    } else {
                        strs(default@)
                    },
                    _ => strs(default@),
                }
            } else {
                strs(default@)
            }),
            final(self)@ == looked_up(old(self)@, name@),
    {
        match self.find(name) {
            Some(Value::RGB(pl)) => {
                if pl.0.len() >= 3 {
                    let mut v: Vec<String> = Vec::new();
                    v.push(pl.0[0].clone());
                    v.push(pl.0[1].clone());
                    v.push(pl.0[2].clone());
                    proof {
                        assert(strs(v@) =~= strs(pl.0@).take(3));
                    }
                    v
                } else {
                    default
                }
            },
            Some(Value::Spectrum(pl)) => {
                if pl.0.len() >= 2 {
                    let mut v: Vec<String> = Vec::new();
                    v.push(pl.0[1].clone());
                    proof {
                        assert(strs(v@) =~= seq![strs(pl.0@)[1]]);
                    }
                    v
                } else {
                    default
                }
            },
            _ => default,
        }
    }

    /// The names of the parameters that were never looked up, each once, in the order they
    /// were first added.
    pub fn unused_names(&self) -> (names: Vec<String>)
        ensures
            forall|k: Seq<char>|
                #[trigger] strs(names@).contains(k) <==> self@.contains_key(k) && !self@[k].looked_up,
            strs(names@).no_duplicates(),
    {
        proof {
            use_type_invariant(self);
        }
        let n = self.values.len();
        let mut names: Vec<String> = Vec::new();
        let mut i: usize = 0;
        let ghost mut idx: Seq<int> = Seq::empty();
        while i < n
            invariant
                n == self.values@.len(),
                i <= n,
                unique_names(self.values@),
                idx.len() == names@.len(),
                forall|a: int|
                    0 <= a < names@.len() ==> 0 <= #[trigger] idx[a] < i && !self.values@[idx[a]].looked_up
                        && names@[a]@ == self.values@[idx[a]].key(),
                forall|j: int|
                    0 <= j < i && !self.values@[j].looked_up ==> #[trigger] strs(names@).contains(
                        self.values@[j].key(),
                    ),
                strs(names@).no_duplicates(),
            decreases n - i,
        {
            if !self.values[i].looked_up {
                let name = self.values[i].item.name.clone();
                let ghost before = names@;
                proof {
                    assert forall|a: int| 0 <= a < before.len() implies #[trigger] strs(before)[a]
                        != name@ by {
                        assert(strs(before)[a] == before[a]@);
                        let j = idx[a];
                        assert(self.values@[j].key() != self.values@[i as int].key());
                    }
                    lemma_strs_push(before, name);
                }
                names.push(name);
                proof {
                    assert forall|j: int|
                        0 <= j < i + 1 && !self.values@[j].looked_up implies #[trigger] strs(
                        names@,
                    ).contains(self.values@[j].key()) by {
                        if j < i {
                            let key = self.values@[j].key();
                            assert(strs(before).contains(key));
                            let t = choose|t: int| 0 <= t < strs(before).len() && strs(before)[t] == key;
                            assert(strs(names@)[t] == strs(before)[t]);
                        } else {
                            assert(strs(names@)[before.len() as int] == name@);
                        }
                    }
                    idx = idx.push(i as int);
                    assert forall|a: int| 0 <= a < names@.len() implies 0 <= #[trigger] idx[a] < i + 1
                        && !self.values@[idx[a]].looked_up && names@[a]@ == self.values@[idx[a]].key() by {
                        if a < before.len() {
                            assert(names@[a] == before[a]);
                        }
                    }
                }
            }
            i = i + 1;
        }
        proof {
            assert forall|k: Seq<char>|
                #[trigger] strs(names@).contains(k) <==> self@.contains_key(k) && !self@[k].looked_up by {
                lemma_items_map_dom(self.values@, k);
                if strs(names@).contains(k) {
                    let a = choose|a: int| 0 <= a < strs(names@).len() && strs(names@)[a] == k;
                    assert(strs(names@)[a] == names@[a]@);
                    lemma_items_map_get(self.values@, idx[a]);
                }
                if self@.contains_key(k) && !self@[k].looked_up {
                    let j = choose|j: int| 0 <= j < self.values@.len() && #[trigger] self.values@[j].key() == k;
                    lemma_items_map_get(self.values@, j);
                }
            }
        }
        names
    }

    /// `report_unused` returns true if any value in this `ParamSet` has not been looked up.
    pub fn report_unused(&self) -> (unused: bool)
        ensures
            unused == exists|k: Seq<char>| #[trigger] self@.contains_key(k) && !self@[k].looked_up,
    {
        proof {
            use_type_invariant(self);
        }
        let n = self.values.len();
        let mut i: usize = 0;
        while i < n
            invariant
                n == self.values@.len(),
                i <= n,
                unique_names(self.values@),
                forall|j: int| 0 <= j < i ==> #[trigger] self.values@[j].looked_up,
            decreases n - i,
        {
            if !self.values[i].looked_up {
                proof {
                    lemma_items_map_get(self.values@, i as int);
                }
                return true;
            }
            i = i + 1;
        }
        proof {
            assert forall|k: Seq<char>| #[trigger] self@.contains_key(k) implies self@[k].looked_up by {
                lemma_items_map_dom(self.values@, k);
                let j = choose|j: int| 0 <= j < self.values@.len() && #[trigger] self.values@[j].key() == k;
                lemma_items_map_get(self.values@, j);
            }
        }
        false
    }
}

/// A parameter looked up after it was added gives back the added values, counts as looked
/// up, and leaves every other parameter as it was.
pub proof fn law_find_after_add(m: Map<Seq<char>, ParamEntry>, name: Seq<char>, v: ValueView)
    ensures
        ({
            let added = m.insert(name, ParamEntry { value: v, looked_up: false });
            let found = added.insert(name, ParamEntry { value: added[name].value, looked_up: true });
            &&& added.contains_key(name)
            &&& added[name].value == v
            &&& found[name].value == v
            &&& found[name].looked_up
            &&& forall|k: Seq<char>| k != name ==> (#[trigger] found.contains_key(k) == m.contains_key(k)
                && (m.contains_key(k) ==> found[k] == m[k]))
        }),
{
}


impl Clone for ParamSet {
    /// A set recording the same entries.
    fn clone(&self) -> (r: Self)
        ensures
            r@ == self@,
    {
        proof {
            use_type_invariant(self);
        }
        let mut slots: Vec<Slot> = Vec::new();
        let n = self.values.len();
        let mut i: usize = 0;
        while i < n
            invariant
                n == self.values@.len(),
                i <= n,
                slots@.len() == i,
                forall|j: int| 0 <= j < i ==> #[trigger] slots@[j].key() == self.values@[j].key(),
                forall|j: int| 0 <= j < i ==> #[trigger] slots@[j].entry() == self.values@[j].entry(),
            decreases n - i,
        {
            let slot = &self.values[i];
            let copy = Slot {
                item: ParamSetItem::new(slot.item.name.as_str(), &slot.item.values),
                looked_up: slot.looked_up,
            };
            assert(copy.entry() == slot.entry());
            let ghost before = slots@;
            slots.push(copy);
            assert forall|j: int| 0 <= j < i + 1 implies #[trigger] slots@[j].key() == self.values@[j].key()
                && slots@[j].entry() == self.values@[j].entry() by {
                if j < i {
                    assert(slots@[j] == before[j]);
                }
            }
            i = i + 1;
        }
        proof {
            lemma_same_keys_same_map(slots@, self.values@);
        }
        ParamSet { values: slots }
    }
}

impl Default for ParamSet {
    /// The empty parameter set.
    fn default() -> (ps: Self)
        ensures
            ps@ == Map::<Seq<char>, ParamEntry>::empty(),
    {
        ParamSet { values: Vec::new() }
    }
}

/// The map recorded by adding `items` in order to an empty set.
pub open spec fn added_items(items: Seq<ParamSetItem>) -> Map<Seq<char>, ParamEntry>
    decreases items.len(),
{
    if items.len() == 0 {
        Map::empty()
    } else {
        added_items(items.drop_last()).insert(
            items.last().name@,
            ParamEntry { value: items.last().values@, looked_up: false },
        )
    }
}

impl From<Vec<ParamSetItem>> for ParamSet {
    /// The set recording each item's values under its name, later items replacing earlier
    /// ones of the same name; nothing counts as looked up.
    fn from(psis: Vec<ParamSetItem>) -> (ps: Self)
        ensures
            ps@ == added_items(psis@),
    {
        let mut ps = ParamSet { values: Vec::new() };
        let n = psis.len();
        let mut i: usize = 0;
        while i < n
            invariant
                n == psis@.len(),
                i <= n,
                ps@ == added_items(psis@.take(i as int)),
            decreases n - i,
        {
            let v = psis[i].values.duplicate();
            ps.add(psis[i].name.as_str(), v);
            proof {
                assert(psis@.take(i + 1).drop_last() =~= psis@.take(i as int));
            }
            i = i + 1;
        }
        proof {
            assert(psis@.take(n as int) =~= psis@);
        }
        ps
    }
}

impl vstd::std_specs::convert::FromSpecImpl<Vec<ParamSetItem>> for ParamSet {
    open spec fn obeys_from_spec() -> bool {
        false
    }

    closed spec fn from_spec(psis: Vec<ParamSetItem>) -> Self {
        choose|ps: ParamSet| ps@ == added_items(psis@)
    }
}

} // verus!
