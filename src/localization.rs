//! The ordered lookup surface: bundles keyed by the handle they were loaded
//! from, searched in insertion order until one of them has the message.

use crate::bundle::{message_texts, request_key, Bundle, RequestKey};
use indexmap::IndexMap;
use vstd::prelude::*;

verus! {

#[verifier::external_type_specification]
#[verifier::external_body]
#[verifier::reject_recursive_types(K)]
#[verifier::reject_recursive_types(V)]
#[verifier::reject_recursive_types(S)]
pub struct ExIndexMap<K, V, S>(IndexMap<K, V, S>);

/// The entries of an index map, in its iteration order.
pub uninterp spec fn index_entries(m: IndexMap<u64, usize>) -> Seq<(u64, usize)>;

/// No key appears twice.
pub open spec fn distinct_keys(s: Seq<(u64, usize)>) -> bool {
    forall|i: int, j: int| 0 <= i < j < s.len() ==> s[i].0 != s[j].0
}

/// Relies on `IndexMap::new`: an empty map.
#[verifier::external_body]
fn index_new() -> (r: IndexMap<u64, usize>)
    ensures
        index_entries(r) == Seq::<(u64, usize)>::empty(),
{
    IndexMap::new()
}

/// Relies on `IndexMap::insert_full`: an existing key keeps its place and
/// takes the new value; a new key is inserted last. Keys stay distinct.
#[verifier::external_body]
fn index_insert(m: &mut IndexMap<u64, usize>, key: u64, value: usize) -> (r: (usize, Option<usize>))
    requires
        distinct_keys(index_entries(*old(m))),
    ensures
        distinct_keys(index_entries(*final(m))),
        forall|i: int|
            0 <= i < index_entries(*old(m)).len() && index_entries(*old(m))[i].0 == key ==> r == (
            i as usize,
            Some(index_entries(*old(m))[i].1),
            ) && index_entries(*final(m)) == index_entries(*old(m)).update(i, (key, value)),
        (forall|i: int|
            0 <= i < index_entries(*old(m)).len() ==> index_entries(*old(m))[i].0 != key) ==> r == (
        index_entries(*old(m)).len() as usize,
        None::<usize>,
        ) && index_entries(*final(m)) == index_entries(*old(m)).push((key, value)),
{
    m.insert_full(key, value)
}

/// Relies on `IndexMap::get_index_of`: the position of a key, if present.
#[verifier::external_body]
fn index_position(m: &IndexMap<u64, usize>, key: &u64) -> (r: Option<usize>)
    ensures
        match r {
            Some(i) => i < index_entries(*m).len() && index_entries(*m)[i as int].0 == *key,
            None => forall|i: int|
                0 <= i < index_entries(*m).len() ==> index_entries(*m)[i].0 != *key,
        },
{
    m.get_index_of(key)
}

/// Relies on `IndexMap::get_index`: the entry at a position of the order.
#[verifier::external_body]
fn index_get(m: &IndexMap<u64, usize>, i: usize) -> (r: Option<(u64, usize)>)
    ensures
        i < index_entries(*m).len() ==> r == Some(index_entries(*m)[i as int]),
        i >= index_entries(*m).len() ==> r is None,
{
    m.get_index(i).map(|(k, v)| (*k, *v))
}

/// Relies on `IndexMap::len`: the number of entries.
#[verifier::external_body]
fn index_len(m: &IndexMap<u64, usize>) -> (r: usize)
    ensures
        r == index_entries(*m).len(),
{
    m.len()
}

/// The text of the first bundle, in order, that answers the request.
pub open spec fn first_content(bs: Seq<Bundle>, id: RequestKey) -> Option<Seq<char>>
    decreases bs.len(),
{
    if bs.len() == 0 {
        None
    } else if message_texts(bs[0].messages).contains_key(id) {
        Some(message_texts(bs[0].messages)[id])
    } else {
        first_content(bs.drop_first(), id)
    }
}

/// Lookup goes by position alone: the first bundle that has the message gives
/// its text, whatever the bundles after it hold.
pub proof fn lookup_takes_first_defining_bundle(bs: Seq<Bundle>, id: RequestKey, i: int)
    requires
        0 <= i < bs.len(),
        message_texts(bs[i].messages).contains_key(id),
        forall|j: int| 0 <= j < i ==> !message_texts(#[trigger] bs[j].messages).contains_key(id),
    ensures
        first_content(bs, id) == Some(message_texts(bs[i].messages)[id]),
    decreases i,
{
    if i > 0 {
        assert(!message_texts(bs[0].messages).contains_key(id));
        let rest = bs.drop_first();
        assert forall|j: int| 0 <= j < i - 1 implies !message_texts(
            #[trigger] rest[j].messages,
        ).contains_key(id) by {
            assert(rest[j] == bs[j + 1]);
        }
        assert(rest[i - 1] == bs[i]);
        lookup_takes_first_defining_bundle(rest, id, i - 1);
    }
}

/// Bundles in priority order, each under the handle it was loaded from.
pub struct Localization {
    pub order: IndexMap<u64, usize>,
    pub bundles: Vec<Bundle>,
}

impl Localization {
    /// Each handle maps to the position of its bundle, which is its own
    /// position in the order.
    pub open spec fn wf(&self) -> bool {
        &&& distinct_keys(index_entries(self.order))
        &&& index_entries(self.order).len() == self.bundles@.len()
        &&& forall|i: int|
            0 <= i < self.bundles@.len() ==> #[trigger] index_entries(self.order)[i].1 == i
    }

    /// The handles, in lookup order.
    pub open spec fn keys(&self) -> Seq<u64> {
        index_entries(self.order).map_values(|e: (u64, usize)| e.0)
    }

    /// No bundles.
    pub fn new() -> (r: Localization)
        ensures
            r.wf(),
            r.keys() == Seq::<u64>::empty(),
    {
        let r = Localization { order: index_new(), bundles: Vec::new() };
        proof {
            assert(r.keys() =~= Seq::<u64>::empty());
        }
        r
    }

    /// The handles, in lookup order.
    pub fn handles(&self) -> (r: Vec<u64>)
        requires
            self.wf(),
        ensures
            r@ == self.keys(),
    {
        let n = index_len(&self.order);
        let mut r: Vec<u64> = Vec::new();
        let mut i: usize = 0;
        while i < n
            invariant
                i <= n,
                n == index_entries(self.order).len(),
                r@ == self.keys().take(i as int),
            decreases n - i,
        {
            match index_get(&self.order, i) {
                Some((k, _)) => {
                    proof {
                        assert(self.keys().take(i as int + 1) =~= self.keys().take(i as int).push(k));
                    }
                    r.push(k);
                },
                None => {},
            }
            i += 1;
        }
        proof {
            assert(self.keys().take(i as int) =~= self.keys());
        }
        r
    }

    /// Inserts a bundle under `handle`. A known handle keeps its place in the
    /// order and its bundle is replaced; a new handle goes last.
    pub fn insert(&mut self, handle: u64, bundle: Bundle)
        requires
            old(self).wf(),
        ensures
            final(self).wf(),
            forall|i: int|
                0 <= i < old(self).keys().len() && old(self).keys()[i] == handle
                    ==> final(self).keys() == old(self).keys()
                    && final(self).bundles@ == old(self).bundles@.update(i, bundle),
            !old(self).keys().contains(handle)
                ==> final(self).keys() == old(self).keys().push(handle)
                && final(self).bundles@ == old(self).bundles@.push(bundle),
    {
        let ghost old_entries = index_entries(self.order);
        let ghost old_bundles = self.bundles@;
        let ghost old_keys = self.keys();
        proof {
            assert forall|i: int|
                0 <= i < old_entries.len() implies #[trigger] old_entries[i].0 == self.keys()[i] by {}
        }
        match index_position(&self.order, &handle) {
            Some(pos) => {
                self.bundles.set(pos, bundle);
                proof {
                    assert forall|i: int|
                        0 <= i < old_entries.len() && old_entries[i].0 == handle implies i
                        == pos as int by {}
                }
            },
            None => {
                let n = self.bundles.len();
                let _ = index_insert(&mut self.order, handle, n);
                self.bundles.push(bundle);
                proof {
                    assert(self.keys() =~= old_entries.map_values(|e: (u64, usize)| e.0).push(handle));
                    assert forall|i: int| 0 <= i < self.bundles@.len() implies #[trigger] index_entries(
                        self.order,
                    )[i].1 == i by {
                        if i < n {
                            assert(index_entries(self.order)[i] == old_entries[i]);
                        }
                    }
                }
            },
        }
        proof {
            if old_keys.contains(handle) {
                let k = choose|k: int| 0 <= k < old_keys.len() && old_keys[k] == handle;
                assert(old_entries[k].0 == handle);
            }
        }
    }

    /// The text of message `id` (or of its attribute `attr`), formatted with
    /// the text arguments `args`, from the first bundle, in order, that has
    /// it; `None` when none has it.
    pub fn content(&self, id: &str, attr: Option<&str>, args: &Vec<(String, String)>) -> (r:
        Option<String>)
        requires
            self.wf(),
        ensures
            match r {
                Some(t) => first_content(self.bundles@, request_key(id@, attr, args@)) == Some(t@),
                None => first_content(self.bundles@, request_key(id@, attr, args@)) is None,
            },
    {
        let ghost key = request_key(id@, attr, args@);
        let mut i: usize = 0;
        proof {
            assert(self.bundles@.skip(0) =~= self.bundles@);
        }
        while i < self.bundles.len()
            invariant
                i <= self.bundles.len(),
                key == request_key(id@, attr, args@),
                first_content(self.bundles@, key) == first_content(self.bundles@.skip(i as int), key),
            decreases self.bundles.len() - i,
        {
            proof {
                assert(self.bundles@.skip(i as int)[0] == self.bundles@[i as int]);
                assert(self.bundles@.skip(i as int).drop_first() =~= self.bundles@.skip(i as int + 1));
            }
            match self.bundles[i].content(id, attr, args) {
                Some(t) => return Some(t),
                None => {},
            }
            i += 1;
        }
        None
    }
}

} // verus!
