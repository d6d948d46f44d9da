//! Helpers for building one-parameter `ParamSet`s concisely.
use vstd::prelude::*;

use crate::paramset::{added_items, strs, ParamEntry, ParamList, ParamSet, ParamSetItem, Value, ValueView};

verus! {

/// Creates a `ParamSetItem` with `name` set to the `bool` values `vals`.
pub fn make_bool(name: &str, vals: Vec<bool>) -> (item: ParamSetItem)
    ensures
        item.name@ == name@,
        item.values@ == ValueView::Bool(vals@),
{
    ParamSetItem::new(name, &Value::Bool(ParamList(vals)))
}

/// Creates a `ParamSet` with one entry containing `name` and set to `vals`.
pub fn make_bool_param_set(name: &str, vals: Vec<bool>) -> (ps: ParamSet)
    ensures
        ps@ == Map::<Seq<char>, ParamEntry>::empty().insert(
            name@,
            ParamEntry { value: ValueView::Bool(vals@), looked_up: false },
        ),
{
    let mut items: Vec<ParamSetItem> = Vec::new();
    items.push(make_bool(name, vals));
    proof {
        assert(items@.drop_last() =~= Seq::<ParamSetItem>::empty());
        assert(added_items(items@) == added_items(Seq::<ParamSetItem>::empty()).insert(
            items@[0].name@,
            ParamEntry { value: items@[0].values@, looked_up: false },
        ));
    }
    ParamSet::from(items)
}

/// Creates a `ParamSetItem` with `name` set to the strings `vals`.
pub fn make_string(name: &str, vals: Vec<String>) -> (item: ParamSetItem)
    ensures
        item.name@ == name@,
        item.values@ == ValueView::String(strs(vals@)),
{
    ParamSetItem::new(name, &Value::String(ParamList(vals)))
}

/// Creates a `ParamSet` with one entry containing `name` and set to `vals`.
pub fn make_string_param_set(name: &str, vals: Vec<String>) -> (ps: ParamSet)
    ensures
        ps@ == Map::<Seq<char>, ParamEntry>::empty().insert(
            name@,
            ParamEntry { value: ValueView::String(strs(vals@)), looked_up: false },
        ),
{
    let mut items: Vec<ParamSetItem> = Vec::new();
    items.push(make_string(name, vals));
    proof {
        assert(items@.drop_last() =~= Seq::<ParamSetItem>::empty());
        assert(added_items(items@) == added_items(Seq::<ParamSetItem>::empty()).insert(
            items@[0].name@,
            ParamEntry { value: items@[0].values@, looked_up: false },
        ));
    }
    ParamSet::from(items)
}

/// Creates a `ParamSetItem` with `name` set to the texture names `vals`.
pub fn make_texture(name: &str, vals: Vec<String>) -> (item: ParamSetItem)
    ensures
        item.name@ == name@,
        item.values@ == ValueView::Texture(strs(vals@)),
{
    ParamSetItem::new(name, &Value::Texture(ParamList(vals)))
}

/// Creates a `ParamSet` with one entry containing `name` and set to `vals`.
pub fn make_texture_param_set(name: &str, vals: Vec<String>) -> (ps: ParamSet)
    ensures
        ps@ == Map::<Seq<char>, ParamEntry>::empty().insert(
            name@,
            ParamEntry { value: ValueView::Texture(strs(vals@)), looked_up: false },
        ),
{
    let mut items: Vec<ParamSetItem> = Vec::new();
    items.push(make_texture(name, vals));
    proof {
        assert(items@.drop_last() =~= Seq::<ParamSetItem>::empty());
        assert(added_items(items@) == added_items(Seq::<ParamSetItem>::empty()).insert(
            items@[0].name@,
            ParamEntry { value: items@[0].values@, looked_up: false },
        ));
    }
    ParamSet::from(items)
}

} // verus!
