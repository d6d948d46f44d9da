//! Typed scene-file parameters: the declaration `"type name"` and the values listed after
//! it become one entry of a `ParamSet`.
use vstd::prelude::*;

use crate::geometry::{Normal3, Point2, Point3, Vector2, Vector3};
use crate::paramset::{
    lemma_strs_push, normal3s, point2s, point3s, strs, vector2s, vector3s, ParamEntry, ParamList, ParamSet,
    Value, ValueView,
};
use crate::text::{find_blank, first_blank, str_eq, trim, trim_start, trimmed, trimmed_start};

verus! {

/// The types a parameter can be declared with.
#[derive(Debug, Clone, Copy, PartialEq, Eq, Structural)]
pub enum ParamType {
    Int,
    Bool,
    Float,
    Point2,
    Vector2,
    Point3,
    Vector3,
    Normal,
    RGB,
    XYZ,
    Blackbody,
    Spectrum,
    String,
    Texture,
}

/// The parameter type spelled `s` in a declaration.
pub open spec fn param_type_named(s: Seq<char>) -> Option<ParamType> {
    if s == "integer"@ {
        Some(ParamType::Int)
    } else if s == "bool"@ {
        Some(ParamType::Bool)
    } else if s == "float"@ {
        Some(ParamType::Float)
    } else if s == "point2"@ {
        Some(ParamType::Point2)
    } else if s == "vector2"@ {
        Some(ParamType::Vector2)
    } else if s == "point3"@ {
        Some(ParamType::Point3)
    } else if s == "vector3"@ {
        Some(ParamType::Vector3)
    } else if s == "normal"@ {
        Some(ParamType::Normal)
    } else if s == "color"@ || s == "rgb"@ {
        Some(ParamType::RGB)
    } else if s == "xyz"@ {
        Some(ParamType::XYZ)
    } else if s == "blackbody"@ {
        Some(ParamType::Blackbody)
    } else if s == "spectrum"@ {
        Some(ParamType::Spectrum)
    } else if s == "string"@ {
        Some(ParamType::String)
    } else if s == "texture"@ {
        Some(ParamType::Texture)
    } else {
        None
    }
}

impl ParamType {
    /// The parameter type spelled `input` in a declaration, if any.
    pub fn from_name(input: &str) -> (r: Option<ParamType>)
        ensures
            r == param_type_named(input@),
    {
        if str_eq(input, "integer") {
            Some(ParamType::Int)
        } else if str_eq(input, "bool") {
            Some(ParamType::Bool)
        } else if str_eq(input, "float") {
            Some(ParamType::Float)
        } else if str_eq(input, "point2") {
            Some(ParamType::Point2)
        } else if str_eq(input, "vector2") {
            Some(ParamType::Vector2)
        } else if str_eq(input, "point3") {
            Some(ParamType::Point3)
        } else if str_eq(input, "vector3") {
            Some(ParamType::Vector3)
        } else if str_eq(input, "normal") {
            Some(ParamType::Normal)
        } else if str_eq(input, "color") || str_eq(input, "rgb") {
            Some(ParamType::RGB)
        } else if str_eq(input, "xyz") {
            Some(ParamType::XYZ)
        } else if str_eq(input, "blackbody") {
            Some(ParamType::Blackbody)
        } else if str_eq(input, "spectrum") {
            Some(ParamType::Spectrum)
        } else if str_eq(input, "string") {
            Some(ParamType::String)
        } else if str_eq(input, "texture") {
            Some(ParamType::Texture)
        } else {
            None
        }
    }
}

/// The type and name declared by `decl`: leading whitespace is skipped, the type runs to
/// the first space or tab, and the name is the rest with surrounding whitespace trimmed;
/// the type must be known and the name non-empty.
pub open spec fn declared(decl: Seq<char>) -> Option<(ParamType, Seq<char>)> {
    let t = trimmed_start(decl);
    if t.len() == 0 {
        None
    } else {
        match first_blank(t) {
            None => None,
            Some(i) => {
                let name = trimmed(t.skip(i));
                match param_type_named(t.take(i)) {
                    None => None,
                    Some(p) => if name.len() == 0 {
                        None
                    } else {
                        Some((p, name))
                    },
                }
            },
        }
    }
}

/// Splits a parameter declaration into its type and name.
pub fn lookup_type(decl: &str) -> (r: Option<(ParamType, &str)>)
    ensures
        r matches Some((t, n)) ==> declared(decl@) == Some((t, n@)),
        r is None ==> declared(decl@) is None,
{
    let p_type = trim_start(decl);
    if p_type.unicode_len() == 0 {
        return None;
    }
    let n = p_type.unicode_len();
    match find_blank(p_type) {
        Some(idx) => {
            let ty = p_type.substring_char(0, idx);
            let name = trim(p_type.substring_char(idx, n));
            proof {
                assert(ty@ =~= p_type@.take(idx as int));
                assert(p_type@.subrange(idx as int, n as int) =~= p_type@.skip(idx as int));
            }
            match ParamType::from_name(ty) {
                None => None,
                Some(t) => {
                    if name.unicode_len() == 0 {
                        None
                    } else {
                        Some((t, name))
                    }
                },
            }
        },
        None => None,
    }
}

/// A parameter as listed in a scene file: its declaration, and its values, which are
/// either all number literals or all quoted strings (quotes kept).
pub struct ItemView {
    pub name: Seq<char>,
    pub nums: Seq<Seq<char>>,
    pub strs: Seq<Seq<char>>,
}

/// The points given by consecutive pairs of `nums`; an odd last number is ignored.
pub open spec fn pairs_as_point2(nums: Seq<Seq<char>>) -> Seq<Point2<Seq<char>>> {
    Seq::new(nums.len() / 2, |i: int| Point2 { x: nums[2 * i], y: nums[2 * i + 1] })
}

/// The vectors given by consecutive pairs of `nums`; an odd last number is ignored.
pub open spec fn pairs_as_vector2(nums: Seq<Seq<char>>) -> Seq<Vector2<Seq<char>>> {
    Seq::new(nums.len() / 2, |i: int| Vector2 { x: nums[2 * i], y: nums[2 * i + 1] })
}

/// The points given by consecutive triples of `nums`; left-over numbers are ignored.
pub open spec fn triples_as_point3(nums: Seq<Seq<char>>) -> Seq<Point3<Seq<char>>> {
    Seq::new(
        nums.len() / 3,
        |i: int| Point3 { x: nums[3 * i], y: nums[3 * i + 1], z: nums[3 * i + 2] },
    )
}

/// The vectors given by consecutive triples of `nums`; left-over numbers are ignored.
pub open spec fn triples_as_vector3(nums: Seq<Seq<char>>) -> Seq<Vector3<Seq<char>>> {
    Seq::new(
        nums.len() / 3,
        |i: int| Vector3 { x: nums[3 * i], y: nums[3 * i + 1], z: nums[3 * i + 2] },
    )
}

/// The normals given by consecutive triples of `nums`; left-over numbers are ignored.
pub open spec fn triples_as_normal3(nums: Seq<Seq<char>>) -> Seq<Normal3<Seq<char>>> {
    Seq::new(
        nums.len() / 3,
        |i: int| Normal3 { x: nums[3 * i], y: nums[3 * i + 1], z: nums[3 * i + 2] },
    )
}

/// The coordinates of a point, in the order x, y.
pub open spec fn point2_coords(p: Point2<Seq<char>>) -> Seq<Seq<char>> {
    seq![p.x, p.y]
}

/// The coordinates of a vector, in the order x, y.
pub open spec fn vector2_coords(p: Vector2<Seq<char>>) -> Seq<Seq<char>> {
    seq![p.x, p.y]
}

/// The coordinates of a point, in the order x, y, z.
pub open spec fn point3_coords(p: Point3<Seq<char>>) -> Seq<Seq<char>> {
    seq![p.x, p.y, p.z]
}

/// The coordinates of a vector, in the order x, y, z.
pub open spec fn vector3_coords(p: Vector3<Seq<char>>) -> Seq<Seq<char>> {
    seq![p.x, p.y, p.z]
}

/// The coordinates of a normal, in the order x, y, z.
pub open spec fn normal3_coords(p: Normal3<Seq<char>>) -> Seq<Seq<char>> {
    seq![p.x, p.y, p.z]
}

/// Grouping the listed numbers into points, vectors and normals keeps them in the order
/// listed: number `k` becomes coordinate `k % d` (x, then y, then z) of element `k / d`, where
/// `d` is the dimension, and only the numbers after the last complete group are left out.
pub proof fn law_grouping_keeps_order(nums: Seq<Seq<char>>)
    ensures
        pairs_as_point2(nums).len() * 2 + nums.len() % 2 == nums.len(),
        forall|k: int|
            0 <= k < pairs_as_point2(nums).len() * 2 ==> point2_coords(pairs_as_point2(nums)[k / 2])[k
                % 2] == #[trigger] nums[k],
        pairs_as_vector2(nums).len() * 2 + nums.len() % 2 == nums.len(),
        forall|k: int|
            0 <= k < pairs_as_vector2(nums).len() * 2 ==> vector2_coords(pairs_as_vector2(nums)[k / 2])[k
                % 2] == #[trigger] nums[k],
        triples_as_point3(nums).len() * 3 + nums.len() % 3 == nums.len(),
        forall|k: int|
            0 <= k < triples_as_point3(nums).len() * 3 ==> point3_coords(triples_as_point3(nums)[k / 3])[k
                % 3] == #[trigger] nums[k],
        triples_as_vector3(nums).len() * 3 + nums.len() % 3 == nums.len(),
        forall|k: int|
            0 <= k < triples_as_vector3(nums).len() * 3 ==> vector3_coords(triples_as_vector3(nums)[k / 3])[k
                % 3] == #[trigger] nums[k],
        triples_as_normal3(nums).len() * 3 + nums.len() % 3 == nums.len(),
        forall|k: int|
            0 <= k < triples_as_normal3(nums).len() * 3 ==> normal3_coords(triples_as_normal3(nums)[k / 3])[k
                % 3] == #[trigger] nums[k],
{
    let n = nums.len() as int;
    lemma_group_index(0, n, 2);
    lemma_group_index(0, n, 3);
    assert forall|k: int| 0 <= k < pairs_as_point2(nums).len() * 2 implies point2_coords(
        pairs_as_point2(nums)[k / 2],
    )[k % 2] == #[trigger] nums[k] by {
        lemma_pairs_as_point2_place(nums, k);
    }
    assert forall|k: int| 0 <= k < pairs_as_vector2(nums).len() * 2 implies vector2_coords(
        pairs_as_vector2(nums)[k / 2],
    )[k % 2] == #[trigger] nums[k] by {
        lemma_pairs_as_vector2_place(nums, k);
    }
    assert forall|k: int| 0 <= k < triples_as_point3(nums).len() * 3 implies point3_coords(
        triples_as_point3(nums)[k / 3],
    )[k % 3] == #[trigger] nums[k] by {
        lemma_triples_as_point3_place(nums, k);
    }
    assert forall|k: int| 0 <= k < triples_as_vector3(nums).len() * 3 implies vector3_coords(
        triples_as_vector3(nums)[k / 3],
    )[k % 3] == #[trigger] nums[k] by {
        lemma_triples_as_vector3_place(nums, k);
    }
    assert forall|k: int| 0 <= k < triples_as_normal3(nums).len() * 3 implies normal3_coords(
        triples_as_normal3(nums)[k / 3],
    )[k % 3] == #[trigger] nums[k] by {
        lemma_triples_as_normal3_place(nums, k);
    }
}

proof fn lemma_pairs_as_point2_place(nums: Seq<Seq<char>>, k: int)
    requires
        0 <= k < pairs_as_point2(nums).len() * 2,
    ensures
        point2_coords(pairs_as_point2(nums)[k / 2])[k % 2] == nums[k],
{
    lemma_group_index(k, nums.len() as int, 2);
    let i = k / 2;
    let j = k % 2;
        if j == 0 {
            assert(nums[k] == nums[2 * i + 0]);
        } else if j == 1 {
            assert(nums[k] == nums[2 * i + 1]);
        }
}

proof fn lemma_pairs_as_vector2_place(nums: Seq<Seq<char>>, k: int)
    requires
        0 <= k < pairs_as_vector2(nums).len() * 2,
    ensures
        vector2_coords(pairs_as_vector2(nums)[k / 2])[k % 2] == nums[k],
{
    lemma_group_index(k, nums.len() as int, 2);
    let i = k / 2;
    let j = k % 2;
        if j == 0 {
            assert(nums[k] == nums[2 * i + 0]);
        } else if j == 1 {
            assert(nums[k] == nums[2 * i + 1]);
        }
}

proof fn lemma_triples_as_point3_place(nums: Seq<Seq<char>>, k: int)
    requires
        0 <= k < triples_as_point3(nums).len() * 3,
    ensures
        point3_coords(triples_as_point3(nums)[k / 3])[k % 3] == nums[k],
{
    lemma_group_index(k, nums.len() as int, 3);
    let i = k / 3;
    let j = k % 3;
        if j == 0 {
            assert(nums[k] == nums[3 * i + 0]);
        } else if j == 1 {
            assert(nums[k] == nums[3 * i + 1]);
        } else if j == 2 {
            assert(nums[k] == nums[3 * i + 2]);
        }
}

proof fn lemma_triples_as_vector3_place(nums: Seq<Seq<char>>, k: int)
    requires
        0 <= k < triples_as_vector3(nums).len() * 3,
    ensures
        vector3_coords(triples_as_vector3(nums)[k / 3])[k % 3] == nums[k],
{
    lemma_group_index(k, nums.len() as int, 3);
    let i = k / 3;
    let j = k % 3;
        if j == 0 {
            assert(nums[k] == nums[3 * i + 0]);
        } else if j == 1 {
            assert(nums[k] == nums[3 * i + 1]);
        } else if j == 2 {
            assert(nums[k] == nums[3 * i + 2]);
        }
}

proof fn lemma_triples_as_normal3_place(nums: Seq<Seq<char>>, k: int)
    requires
        0 <= k < triples_as_normal3(nums).len() * 3,
    ensures
        normal3_coords(triples_as_normal3(nums)[k / 3])[k % 3] == nums[k],
{
    lemma_group_index(k, nums.len() as int, 3);
    let i = k / 3;
    let j = k % 3;
        if j == 0 {
            assert(nums[k] == nums[3 * i + 0]);
        } else if j == 1 {
            assert(nums[k] == nums[3 * i + 1]);
        } else if j == 2 {
            assert(nums[k] == nums[3 * i + 2]);
        }
}

/// Index `k` lies in group `k / d` at place `k % d`; a `k` below the `n / d` complete groups
/// lies in one of them.
proof fn lemma_group_index(k: int, n: int, d: int)
    requires
        0 <= k,
        0 <= n,
        d == 2 || d == 3,
    ensures
        k == d * (k / d) + k % d,
        0 <= k % d < d,
        n == n / d * d + n % d,
        k < n / d * d ==> 0 <= k / d < n / d,
{
    assert(k == d * (k / d) + k % d && 0 <= k % d < d && n == n / d * d + n % d && (k < n / d * d
        ==> 0 <= k / d < n / d)) by (nonlinear_arith)
        requires
            0 <= k,
            0 <= n,
            d == 2 || d == 3,
    ;
}

/// Whether a type takes string values (else it takes numbers).
pub open spec fn takes_strings(t: ParamType) -> bool {
    t == ParamType::Texture || t == ParamType::String || t == ParamType::Bool
}

/// The values recorded for a parameter of type `t` listed with `nums` and `strs`, or
/// `None` when the parameter is ignored: string types need strings, numeric types take no
/// strings (a spectrum takes either), and a texture takes exactly one name.
pub open spec fn param_value(t: ParamType, nums: Seq<Seq<char>>, strs: Seq<Seq<char>>) -> Option<
    ValueView,
> {
    if takes_strings(t) && strs.len() == 0 {
        None
    } else if !takes_strings(t) && t != ParamType::Spectrum && strs.len() > 0 {
        None
    } else {
        let n = nums.len();
        match t {
            ParamType::Int => Some(ValueView::Int(nums)),
            ParamType::Bool => Some(ValueView::Bool(strs.map_values(|s: Seq<char>| s == "true"@))),
            ParamType::Float => Some(ValueView::Float(nums)),
            ParamType::Point2 => Some(ValueView::Point2f(pairs_as_point2(nums))),
            ParamType::Vector2 => Some(ValueView::Vector2f(pairs_as_vector2(nums))),
            ParamType::Point3 => Some(ValueView::Point3f(triples_as_point3(nums))),
            ParamType::Vector3 => Some(ValueView::Vector3f(triples_as_vector3(nums))),
            ParamType::Normal => Some(ValueView::Normal3f(triples_as_normal3(nums))),
            ParamType::RGB => Some(ValueView::RGB(nums.take(n - n % 3))),
            ParamType::XYZ => Some(ValueView::RGB(nums.take(n - n % 3))),
            ParamType::Blackbody => Some(ValueView::Blackbody(nums.take(n - n % 2))),
            ParamType::Spectrum => if strs.len() > 0 {
                Some(ValueView::SpectrumFiles(strs))
            } else {
                Some(ValueView::Spectrum(nums.take(n - n % 2)))
            },
            ParamType::String => Some(ValueView::String(strs)),
            ParamType::Texture => if n + strs.len() == 1 {
                Some(ValueView::Texture(strs))
            } else {
                None
            },
        }
    }
}

/// The points, vectors and normals recorded for a parameter keep its numbers in the order
/// listed: number `k` becomes coordinate `k % d` (x, then y, then z) of element `k / d`,
/// where `d` is the dimension, and only the numbers after the last complete group are left
/// out.
pub proof fn law_recorded_coordinates_in_order(t: ParamType, nums: Seq<Seq<char>>, strs: Seq<Seq<char>>)
    ensures
        param_value(t, nums, strs) matches Some(ValueView::Point2f(ps)) ==> ps.len() * 2 + nums.len() % 2
            == nums.len() && forall|k: int|
            0 <= k < ps.len() * 2 ==> point2_coords(ps[k / 2])[k % 2] == #[trigger] nums[k],
        param_value(t, nums, strs) matches Some(ValueView::Vector2f(ps)) ==> ps.len() * 2 + nums.len() % 2
            == nums.len() && forall|k: int|
            0 <= k < ps.len() * 2 ==> vector2_coords(ps[k / 2])[k % 2] == #[trigger] nums[k],
        param_value(t, nums, strs) matches Some(ValueView::Point3f(ps)) ==> ps.len() * 3 + nums.len() % 3
            == nums.len() && forall|k: int|
            0 <= k < ps.len() * 3 ==> point3_coords(ps[k / 3])[k % 3] == #[trigger] nums[k],
        param_value(t, nums, strs) matches Some(ValueView::Vector3f(ps)) ==> ps.len() * 3 + nums.len() % 3
            == nums.len() && forall|k: int|
            0 <= k < ps.len() * 3 ==> vector3_coords(ps[k / 3])[k % 3] == #[trigger] nums[k],
        param_value(t, nums, strs) matches Some(ValueView::Normal3f(ps)) ==> ps.len() * 3 + nums.len() % 3
            == nums.len() && forall|k: int|
            0 <= k < ps.len() * 3 ==> normal3_coords(ps[k / 3])[k % 3] == #[trigger] nums[k],
{
    law_grouping_keeps_order(nums);
}

/// The numbers recorded for a numeric parameter are the ones listed, in the order listed:
/// all of them for integers and floats; for colours (groups of three) and for blackbody and
/// sampled spectra (groups of two) all but the numbers after the last complete group.
pub proof fn law_recorded_numbers_in_order(t: ParamType, nums: Seq<Seq<char>>, strs: Seq<Seq<char>>)
    ensures
        param_value(t, nums, strs) matches Some(ValueView::Int(vs)) ==> vs == nums,
        param_value(t, nums, strs) matches Some(ValueView::Float(vs)) ==> vs == nums,
        param_value(t, nums, strs) matches Some(ValueView::RGB(vs)) ==> vs.len() % 3 == 0 && 0
            <= nums.len() - vs.len() < 3 && forall|k: int| 0 <= k < vs.len() ==> #[trigger] vs[k] == nums[k],
        param_value(t, nums, strs) matches Some(ValueView::Blackbody(vs)) ==> vs.len() % 2 == 0 && 0
            <= nums.len() - vs.len() < 2 && forall|k: int| 0 <= k < vs.len() ==> #[trigger] vs[k] == nums[k],
        param_value(t, nums, strs) matches Some(ValueView::Spectrum(vs)) ==> vs.len() % 2 == 0 && 0
            <= nums.len() - vs.len() < 2 && forall|k: int| 0 <= k < vs.len() ==> #[trigger] vs[k] == nums[k],
{
}

/// The parameters `m` after adding `item`: its values are recorded under its declared
/// name when the declaration and the values are acceptable, else nothing changes.
pub open spec fn param_added(m: Map<Seq<char>, ParamEntry>, item: ItemView) -> Map<
    Seq<char>,
    ParamEntry,
> {
    match declared(item.name) {
        Some((t, name)) => match param_value(t, item.nums, item.strs) {
            Some(v) => m.insert(name, ParamEntry { value: v, looked_up: false }),
            None => m,
        },
        None => m,
    }
}

/// A parameter being read: its declaration and values.
pub struct ParamListItem<'a> {
    pub name: String,
    pub double_values: Vec<String>,
    pub string_values: Vec<&'a str>,
}

impl<'a> View for ParamListItem<'a> {
    type V = ItemView;

    open spec fn view(&self) -> ItemView {
        ItemView {
            name: self.name@,
            nums: strs(self.double_values@),
            strs: self.string_values@.map_values(|s: &'a str| s@),
        }
    }
}

impl<'a> ParamListItem<'a> {
    /// The number of values listed.
    pub fn size(&self) -> (r: usize)
        requires
            self.double_values@.len() + self.string_values@.len() <= usize::MAX,
        ensures
            r == self.double_values@.len() + self.string_values@.len(),
    {
        self.double_values.len() + self.string_values.len()
    }
}

/// Copies of the first `n` strings of `v`.
fn copy_prefix(v: &Vec<String>, n: usize) -> (r: Vec<String>)
    requires
        n <= v@.len(),
    ensures
        strs(r@) == strs(v@).take(n as int),
{
    let mut out: Vec<String> = Vec::new();
    let mut i: usize = 0;
    while i < n
        invariant
            n <= v@.len(),
            i <= n,
            strs(out@) == strs(v@).take(i as int),
        decreases n - i,
    {
        let ghost before = out@;
        out.push(v[i].clone());
        proof {
            lemma_strs_push(before, v@[i as int]);
            assert(strs(v@).take(i + 1) =~= strs(v@).take(i as int).push(v@[i as int]@));
        }
        i = i + 1;
    }
    out
}

/// Owned copies of `v`.
fn own_all<'a>(v: &Vec<&'a str>) -> (r: Vec<String>)
    ensures
        strs(r@) == v@.map_values(|s: &'a str| s@),
{
    let n = v.len();
    let mut out: Vec<String> = Vec::new();
    let mut i: usize = 0;
    while i < n
        invariant
            n == v@.len(),
            i <= n,
            strs(out@) == v@.map_values(|s: &'a str| s@).take(i as int),
        decreases n - i,
    {
        let ghost before = out@;
        let owned = v[i].to_owned();
        out.push(owned);
        proof {
            lemma_strs_push(before, owned);
            assert(v@.map_values(|s: &'a str| s@).take(i + 1) =~= v@.map_values(|s: &'a str| s@).take(
                i as int,
            ).push(v@[i as int]@));
        }
        i = i + 1;
    }
    proof {
        assert(v@.map_values(|s: &'a str| s@).take(n as int) =~= v@.map_values(|s: &'a str| s@));
    }
    out
}

/// Whether each string spells `true`.
fn bools_of<'a>(v: &Vec<&'a str>) -> (r: Vec<bool>)
    ensures
        r@ == v@.map_values(|s: &'a str| s@).map_values(|s: Seq<char>| s == "true"@),
{
    let n = v.len();
    let mut out: Vec<bool> = Vec::new();
    let mut i: usize = 0;
    while i < n
        invariant
            n == v@.len(),
            i <= n,
            out@ == v@.map_values(|s: &'a str| s@).map_values(|s: Seq<char>| s == "true"@).take(
                i as int,
            ),
        decreases n - i,
    {
        let b = if str_eq(v[i], "true") {
            true
        } else if str_eq(v[i], "false") {
            false
        } else {
            false
        };
        out.push(b);
        proof {
            assert(out@ =~= v@.map_values(|s: &'a str| s@).map_values(
                |s: Seq<char>| s == "true"@,
            ).take(i + 1));
        }
        i = i + 1;
    }
    proof {
        assert(v@.map_values(|s: &'a str| s@).map_values(|s: Seq<char>| s == "true"@).take(
            n as int,
        ) =~= v@.map_values(|s: &'a str| s@).map_values(|s: Seq<char>| s == "true"@));
    }
    out
}

/// The Point2s given by consecutive pairs of `v`.
fn group_point2(v: &Vec<String>) -> (r: Vec<Point2<String>>)
    ensures
        point2s(r@) == pairs_as_point2(strs(v@)),
{
    let len = v.len();
    let n = len / 2;
    let mut out: Vec<Point2<String>> = Vec::new();
    let mut i: usize = 0;
    while i < n
        invariant
            len == v@.len(),
            n == len / 2,
            i <= n,
            out@.len() == i,
            point2s(out@) == pairs_as_point2(strs(v@)).take(i as int),
        decreases n - i,
    {
        assert(2 * i + 1 < v@.len()) by (nonlinear_arith)
            requires
                i < n,
                n == v@.len() / 2,
                len == v@.len(),
;
        let ghost before = out@;
        let p = Point2 { x: v[2 * i].clone(), y: v[2 * i + 1].clone() };
        out.push(p);
        proof {
            let w = pairs_as_point2(strs(v@));
            assert(point2s(out@)[i as int] == w[i as int]);
            assert forall|k: int| 0 <= k < i implies #[trigger] point2s(out@)[k] == w[k] by {
                assert(out@[k] == before[k]);
                assert(point2s(before)[k] == w.take(i as int)[k]);
            }
            assert(point2s(out@) =~= w.take(i + 1));
        }
        i = i + 1;
    }
    proof {
        assert(pairs_as_point2(strs(v@)).take(n as int) =~= pairs_as_point2(strs(v@)));
    }
    out
}

/// The Vector2s given by consecutive pairs of `v`.
fn group_vector2(v: &Vec<String>) -> (r: Vec<Vector2<String>>)
    ensures
        vector2s(r@) == pairs_as_vector2(strs(v@)),
{
    let len = v.len();
    let n = len / 2;
    let mut out: Vec<Vector2<String>> = Vec::new();
    let mut i: usize = 0;
    while i < n
        invariant
            len == v@.len(),
            n == len / 2,
            i <= n,
            out@.len() == i,
            vector2s(out@) == pairs_as_vector2(strs(v@)).take(i as int),
        decreases n - i,
    {
        assert(2 * i + 1 < v@.len()) by (nonlinear_arith)
            requires
                i < n,
                n == v@.len() / 2,
                len == v@.len(),
;
        let ghost before = out@;
        let p = Vector2 { x: v[2 * i].clone(), y: v[2 * i + 1].clone() };
        out.push(p);
        proof {
            let w = pairs_as_vector2(strs(v@));
            assert(vector2s(out@)[i as int] == w[i as int]);
            assert forall|k: int| 0 <= k < i implies #[trigger] vector2s(out@)[k] == w[k] by {
                assert(out@[k] == before[k]);
                assert(vector2s(before)[k] == w.take(i as int)[k]);
            }
            assert(vector2s(out@) =~= w.take(i + 1));
        }
        i = i + 1;
    }
    proof {
        assert(pairs_as_vector2(strs(v@)).take(n as int) =~= pairs_as_vector2(strs(v@)));
    }
    out
}

/// The Point3s given by consecutive triples of `v`.
fn group_point3(v: &Vec<String>) -> (r: Vec<Point3<String>>)
    ensures
        point3s(r@) == triples_as_point3(strs(v@)),
{
    let len = v.len();
    let n = len / 3;
    let mut out: Vec<Point3<String>> = Vec::new();
    let mut i: usize = 0;
    while i < n
        invariant
            len == v@.len(),
            n == len / 3,
            i <= n,
            out@.len() == i,
            point3s(out@) == triples_as_point3(strs(v@)).take(i as int),
        decreases n - i,
    {
        assert(3 * i + 2 < v@.len()) by (nonlinear_arith)
            requires
                i < n,
                n == v@.len() / 3,
                len == v@.len(),
;
        let ghost before = out@;
        let p = Point3 { x: v[3 * i].clone(), y: v[3 * i + 1].clone(), z: v[3 * i + 2].clone() };
        out.push(p);
        proof {
            let w = triples_as_point3(strs(v@));
            assert(point3s(out@)[i as int] == w[i as int]);
            assert forall|k: int| 0 <= k < i implies #[trigger] point3s(out@)[k] == w[k] by {
                assert(out@[k] == before[k]);
                assert(point3s(before)[k] == w.take(i as int)[k]);
            }
            assert(point3s(out@) =~= w.take(i + 1));
        }
        i = i + 1;
    }
    proof {
        assert(triples_as_point3(strs(v@)).take(n as int) =~= triples_as_point3(strs(v@)));
    }
    out
}

/// The Vector3s given by consecutive triples of `v`.
fn group_vector3(v: &Vec<String>) -> (r: Vec<Vector3<String>>)
    ensures
        vector3s(r@) == triples_as_vector3(strs(v@)),
{
    let len = v.len();
    let n = len / 3;
    let mut out: Vec<Vector3<String>> = Vec::new();
    let mut i: usize = 0;
    while i < n
        invariant
            len == v@.len(),
            n == len / 3,
            i <= n,
            out@.len() == i,
            vector3s(out@) == triples_as_vector3(strs(v@)).take(i as int),
        decreases n - i,
    {
        assert(3 * i + 2 < v@.len()) by (nonlinear_arith)
            requires
                i < n,
                n == v@.len() / 3,
                len == v@.len(),
;
        let ghost before = out@;
        let p = Vector3 { x: v[3 * i].clone(), y: v[3 * i + 1].clone(), z: v[3 * i + 2].clone() };
        out.push(p);
        proof {
            let w = triples_as_vector3(strs(v@));
            assert(vector3s(out@)[i as int] == w[i as int]);
            assert forall|k: int| 0 <= k < i implies #[trigger] vector3s(out@)[k] == w[k] by {
                assert(out@[k] == before[k]);
                assert(vector3s(before)[k] == w.take(i as int)[k]);
            }
            assert(vector3s(out@) =~= w.take(i + 1));
        }
        i = i + 1;
    }
    proof {
        assert(triples_as_vector3(strs(v@)).take(n as int) =~= triples_as_vector3(strs(v@)));
    }
    out
}

/// The Normal3s given by consecutive triples of `v`.
fn group_normal3(v: &Vec<String>) -> (r: Vec<Normal3<String>>)
    ensures
        normal3s(r@) == triples_as_normal3(strs(v@)),
{
    let len = v.len();
    let n = len / 3;
    let mut out: Vec<Normal3<String>> = Vec::new();
    let mut i: usize = 0;
    while i < n
        invariant
            len == v@.len(),
            n == len / 3,
            i <= n,
            out@.len() == i,
            normal3s(out@) == triples_as_normal3(strs(v@)).take(i as int),
        decreases n - i,
    {
        assert(3 * i + 2 < v@.len()) by (nonlinear_arith)
            requires
                i < n,
                n == v@.len() / 3,
                len == v@.len(),
;
        let ghost before = out@;
        let p = Normal3 { x: v[3 * i].clone(), y: v[3 * i + 1].clone(), z: v[3 * i + 2].clone() };
        out.push(p);
        proof {
            let w = triples_as_normal3(strs(v@));
            assert(normal3s(out@)[i as int] == w[i as int]);
            assert forall|k: int| 0 <= k < i implies #[trigger] normal3s(out@)[k] == w[k] by {
                assert(out@[k] == before[k]);
                assert(normal3s(before)[k] == w.take(i as int)[k]);
            }
            assert(normal3s(out@) =~= w.take(i + 1));
        }
        i = i + 1;
    }
    proof {
        assert(triples_as_normal3(strs(v@)).take(n as int) =~= triples_as_normal3(strs(v@)));
    }
    out
}

/// The values of an optional `Value`.
pub open spec fn value_view(r: Option<Value>) -> Option<ValueView> {
    match r {
        Some(v) => Some(v@),
        None => None,
    }
}

/// The `Value` recorded for a parameter of type `t` listed with the values of `item`.
fn make_value<'a>(t: ParamType, item: &ParamListItem<'a>) -> (r: Option<Value>)
    ensures
        value_view(r) == param_value(t, item@.nums, item@.strs),
{
    let nstr = item.string_values.len();
    let nnum = item.double_values.len();
    let strings = t == ParamType::Texture || t == ParamType::String || t == ParamType::Bool;
    if strings && nstr == 0 {
        return None;
    }
    if !strings && t != ParamType::Spectrum && nstr > 0 {
        return None;
    }
    proof {
        assert(strs(item.double_values@).take(nnum as int) =~= strs(item.double_values@));
    }
    let nums = &item.double_values;
    match t {
        ParamType::Int => Some(Value::Int(ParamList(copy_prefix(nums, nnum)))),
        ParamType::Bool => Some(Value::Bool(ParamList(bools_of(&item.string_values)))),
        ParamType::Float => Some(Value::Float(ParamList(copy_prefix(nums, nnum)))),
        ParamType::Point2 => Some(Value::Point2f(ParamList(group_point2(nums)))),
        ParamType::Vector2 => Some(Value::Vector2f(ParamList(group_vector2(nums)))),
        ParamType::Point3 => Some(Value::Point3f(ParamList(group_point3(nums)))),
        ParamType::Vector3 => Some(Value::Vector3f(ParamList(group_vector3(nums)))),
        ParamType::Normal => Some(Value::Normal3f(ParamList(group_normal3(nums)))),
        ParamType::RGB | ParamType::XYZ => Some(
            Value::RGB(ParamList(copy_prefix(nums, nnum - nnum % 3))),
        ),
        ParamType::Blackbody => Some(
            Value::Blackbody(ParamList(copy_prefix(nums, nnum - nnum % 2))),
        ),
        ParamType::Spectrum => {
            if nstr > 0 {
                Some(Value::SpectrumFiles(ParamList(own_all(&item.string_values))))
            } else {
                Some(Value::Spectrum(ParamList(copy_prefix(nums, nnum - nnum % 2))))
            }
        },
        ParamType::String => Some(Value::String(ParamList(own_all(&item.string_values)))),
        ParamType::Texture => {
            if nnum == 0 && nstr == 1 {
                Some(Value::Texture(ParamList(own_all(&item.string_values))))
            } else {
                None
            }
        },
    }
}

/// Records the parameter `item` in `ps` as its declaration and values call for; a
/// parameter of unknown type, without a name, or with values unfit for its type is
/// ignored.
pub fn add_param<'a>(ps: &mut ParamSet, item: ParamListItem<'a>)
    ensures
        final(ps)@ == param_added(old(ps)@, item@),
{
    match lookup_type(item.name.as_str()) {
        Some((t, name)) => match make_value(t, &item) {
            Some(v) => ps.add(name, v),
            None => {},
        },
        None => {},
    }
}

} // verus!
