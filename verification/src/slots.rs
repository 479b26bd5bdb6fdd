//! Storage of net assignments under stable keys.

use slotmap::{DefaultKey, SlotMap};
use vstd::prelude::*;

use crate::validate::ValidAssign;
use crate::vecs::{filter_same, filter_step};

verus! {

/// `slotmap::DefaultKey`, the key that a slot map hands out for a value. Nothing is claimed of it
/// beyond what the operations of [`AssignMap`] say.
#[verifier::external_type_specification]
#[verifier::external_body]
pub struct ExDefaultKey(slotmap::DefaultKey);

/// The key of an assignment in an [`AssignMap`].
#[derive(Debug, Clone, Copy, PartialEq, Eq, PartialOrd, Ord, Hash, Default)]
pub struct AssignKey {
    pub key: DefaultKey,
}

/// A `slotmap::SlotMap` of net assignments.
#[verifier::external_body]
#[derive(Debug)]
pub struct AssignMap {
    slots: SlotMap<DefaultKey, ValidAssign>,
}

/// The assignments that `map` holds, each under its key.
pub uninterp spec fn assign_contents(map: AssignMap) -> Map<AssignKey, ValidAssign>;

impl AssignMap {
    /// `slotmap::SlotMap::with_key`: a map that holds nothing.
    #[verifier::external_body]
    pub(crate) fn with_key() -> (map: AssignMap)
        ensures
            (assign_contents(map) == Map::<AssignKey, ValidAssign>::empty()),
    {
        AssignMap { slots: SlotMap::with_key() }
    }

    /// `slotmap::SlotMap::insert`: adds `assign` under a key that no other value of the map has,
    /// and leaves the other values where they are. It panics on a full map, one of 2^32 - 2 values.
    #[verifier::external_body]
    pub(crate) fn insert(&mut self, assign: ValidAssign) -> (key: AssignKey)
        requires
            assign_contents(*old(self)).len() < 0xffff_fffe,
        ensures
            !assign_contents(*old(self)).contains_key(key),
            assign_contents(*final(self)) == assign_contents(*old(self)).insert(key, assign),
    {
        AssignKey { key: self.slots.insert(assign) }
    }

    /// `slotmap::SlotMap::get`: the value that the map holds under `key`, if there is one.
    #[verifier::external_body]
    pub(crate) fn get(&self, key: AssignKey) -> (assign: Option<&ValidAssign>)
        ensures
            match assign {
                Some(a) => assign_contents(*self).contains_key(key) && *a == assign_contents(
                    *self,
                )[key],
                None => !assign_contents(*self).contains_key(key),
            },
    {
        self.slots.get(key.key)
    }
}

/// What `contents` holds under each of `keys`.
pub open spec fn lookup(contents: Map<AssignKey, ValidAssign>, keys: Seq<AssignKey>) -> Seq<
    Option<ValidAssign>,
> {
    keys.map_values(
        |k: AssignKey|
            if contents.contains_key(k) {
                Some(contents[k])
            } else {
                None
            },
    )
}

/// Whether `contents` holds `assigns` under `keys`, each assignment under a key of its own, and
/// nothing else.
pub open spec fn stores(
    contents: Map<AssignKey, ValidAssign>,
    keys: Seq<AssignKey>,
    assigns: Seq<ValidAssign>,
) -> bool {
    &&& keys.no_duplicates()
    &&& keys.len() == assigns.len()
    &&& forall|i: int|
        0 <= i < keys.len() ==> contents.contains_key(#[trigger] keys[i]) && contents[keys[i]]
            == assigns[i]
    &&& forall|k: AssignKey| #[trigger] contents.contains_key(k) ==> keys.contains(k)
}

/// The keys of the assignments whose upper layer is number `index`.
pub open spec fn top_key_on_layer(
    contents: Map<AssignKey, ValidAssign>,
    index: int,
) -> spec_fn(AssignKey) -> bool {
    |k: AssignKey| contents[k].top.layer == index
}

/// The keys of the assignments whose lower layer is number `index`.
pub open spec fn bot_key_on_layer(
    contents: Map<AssignKey, ValidAssign>,
    index: int,
) -> spec_fn(AssignKey) -> bool {
    |k: AssignKey| contents[k].bot.layer == index
}

/// Whether `tops` and `bots` hold, for each layer, those of `keys` whose assignments have it as
/// their upper and as their lower layer.
pub open spec fn arranged(
    contents: Map<AssignKey, ValidAssign>,
    keys: Seq<AssignKey>,
    tops: Seq<Vec<AssignKey>>,
    bots: Seq<Vec<AssignKey>>,
) -> bool {
    &&& forall|l: int|
        0 <= l < tops.len() ==> (#[trigger] tops[l])@ == keys.filter(top_key_on_layer(contents, l))
    &&& forall|l: int|
        0 <= l < bots.len() ==> (#[trigger] bots[l])@ == keys.filter(bot_key_on_layer(contents, l))
}

/// Whether `contents` holds `assigns`, each under a key of its own, and nothing else, with the keys
/// arranged by layer in `tops` and `bots`: each key is in one list of either, once, and in order.
pub open spec fn stored_by_layer(
    contents: Map<AssignKey, ValidAssign>,
    assigns: Seq<ValidAssign>,
    tops: Seq<Vec<AssignKey>>,
    bots: Seq<Vec<AssignKey>>,
) -> bool {
    exists|keys: Seq<AssignKey>|
        {
            &&& #[trigger] stores(contents, keys, assigns)
            &&& arranged(contents, keys, tops, bots)
        }
}

/// One more assignment is stored under one more key.
pub proof fn insert_stores(
    contents: Map<AssignKey, ValidAssign>,
    keys: Seq<AssignKey>,
    assigns: Seq<ValidAssign>,
    key: AssignKey,
    assign: ValidAssign,
)
    requires
        stores(contents, keys, assigns),
        !contents.contains_key(key),
    ensures
        stores(contents.insert(key, assign), keys.push(key), assigns.push(assign)),
{
    let after = contents.insert(key, assign);
    let longer = keys.push(key);
    assert forall|i: int| 0 <= i < keys.len() implies #[trigger] keys[i] != key by {
        assert(contents.contains_key(keys[i]));
    }
    assert forall|k: AssignKey| #[trigger] after.contains_key(k) implies longer.contains(k) by {
        if k == key {
            assert(longer[keys.len() as int] == k);
        } else {
            assert(contents.contains_key(k));
            let i = choose|i: int| 0 <= i < keys.len() && keys[i] == k;
            assert(longer[i] == k);
        }
    }
}

/// One more key goes to the end of the lists of its layers.
pub proof fn insert_arranges(
    contents: Map<AssignKey, ValidAssign>,
    keys: Seq<AssignKey>,
    key: AssignKey,
    assign: ValidAssign,
    index: int,
)
    requires
        !contents.contains_key(key),
        forall|i: int| 0 <= i < keys.len() ==> contents.contains_key(#[trigger] keys[i]),
    ensures
        keys.push(key).filter(top_key_on_layer(contents.insert(key, assign), index)) == {
            let before = keys.filter(top_key_on_layer(contents, index));
            if assign.top.layer == index {
                before.push(key)
            } else {
                before
            }
        },
        keys.push(key).filter(bot_key_on_layer(contents.insert(key, assign), index)) == {
            let before = keys.filter(bot_key_on_layer(contents, index));
            if assign.bot.layer == index {
                before.push(key)
            } else {
                before
            }
        },
{
    let after = contents.insert(key, assign);
    let longer = keys.push(key);
    let n = keys.len() as int;
    assert(longer.take(n) =~= keys);
    assert(longer.take(n + 1) =~= longer);
    filter_step(longer, top_key_on_layer(after, index), n);
    filter_step(longer, bot_key_on_layer(after, index), n);
    filter_same(keys, top_key_on_layer(after, index), top_key_on_layer(contents, index));
    filter_same(keys, bot_key_on_layer(after, index), bot_key_on_layer(contents, index));
}

/// A new key does not disturb what is found under keys that were there before.
pub proof fn insert_keeps_lookup(
    contents: Map<AssignKey, ValidAssign>,
    keys: Seq<AssignKey>,
    key: AssignKey,
    assign: ValidAssign,
)
    requires
        !contents.contains_key(key),
        forall|i: int| 0 <= i < keys.len() ==> lookup(contents, keys)[i] is Some,
    ensures
        lookup(contents.insert(key, assign), keys) == lookup(contents, keys),
        lookup(contents.insert(key, assign), keys.push(key)) == lookup(contents, keys).push(
            Some(assign),
        ),
{
    let after = contents.insert(key, assign);
    assert forall|i: int| 0 <= i < keys.len() implies lookup(after, keys)[i] == lookup(
        contents,
        keys,
    )[i] by {
        assert(lookup(contents, keys)[i] is Some);
    }
    assert(lookup(after, keys) =~= lookup(contents, keys));
    assert(lookup(after, keys.push(key)) =~= lookup(contents, keys).push(Some(assign)));
}

} // verus!
