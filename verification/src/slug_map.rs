//! A map keyed by slug, kept as a list of entries in which no slug occurs
//! twice. Roadmap commands use it to look tasks up; the first entry for a
//! slug wins.
use vstd::prelude::*;

verus! {

/// Entries keyed by slug; no slug occurs twice.
pub struct SlugMap<V> {
    items: Vec<(String, V)>,
}

/// The map that a list of entries with distinct keys describes.
pub open spec fn map_of<V>(items: Seq<(String, V)>) -> Map<Seq<char>, V>
    decreases items.len(),
{
    if items.len() == 0 {
        Map::empty()
    } else {
        map_of(items.drop_last()).insert(items.last().0@, items.last().1)
    }
}

/// No key occurs twice.
pub open spec fn distinct_keys<V>(items: Seq<(String, V)>) -> bool {
    forall|i: int, j: int|
        0 <= i < j < items.len() ==> #[trigger] items[i].0@ != #[trigger] items[j].0@
}

/// Entry `i` is in the map, with its value.
proof fn lemma_map_of_index<V>(items: Seq<(String, V)>, i: int)
    requires
        distinct_keys(items),
        0 <= i < items.len(),
    ensures
        map_of(items).contains_key(items[i].0@),
        map_of(items)[items[i].0@] == items[i].1,
    decreases items.len(),
{
    if i < items.len() - 1 {
        let pre = items.drop_last();
        assert(pre[i] == items[i]);
        assert forall|a: int, b: int| 0 <= a < b < pre.len() implies #[trigger] pre[a].0@
            != #[trigger] pre[b].0@ by {
            assert(pre[a] == items[a] && pre[b] == items[b]);
        }
        lemma_map_of_index(pre, i);
        assert(items[i].0@ != items[items.len() - 1].0@);
    }
}

/// The map has no keys but those of the entries.
proof fn lemma_map_of_keys<V>(items: Seq<(String, V)>, k: Seq<char>)
    requires
        map_of(items).contains_key(k),
    ensures
        exists|i: int| 0 <= i < items.len() && #[trigger] items[i].0@ == k,
    decreases items.len(),
{
    if items.len() > 0 && items.last().0@ != k {
        let pre = items.drop_last();
        lemma_map_of_keys(pre, k);
        let i = choose|i: int| 0 <= i < pre.len() && #[trigger] pre[i].0@ == k;
        assert(items[i] == pre[i]);
    }
}

impl<V> View for SlugMap<V> {
    type V = Map<Seq<char>, V>;

    closed spec fn view(&self) -> Map<Seq<char>, V> {
        map_of(self.items@)
    }
}

impl<V> SlugMap<V> {
    #[verifier::type_invariant]
    spec fn inv(self) -> bool {
        distinct_keys(self.items@)
    }

    /// An empty map.
    pub fn new() -> (r: Self)
        ensures
            r@ == Map::<Seq<char>, V>::empty(),
    {
        SlugMap { items: Vec::new() }
    }

    /// The position of `key` among the entries, if it is there.
    fn position(&self, key: &str) -> (r: Option<usize>)
        ensures
            match r {
                Some(i) => i < self.items@.len() && self.items@[i as int].0@ == key@,
                None => forall|i: int| 0 <= i < self.items@.len() ==> #[trigger] self.items@[i].0@ != key@,
            },
    {
        let mut i: usize = 0;
        while i < self.items.len()
            invariant
                i <= self.items@.len(),
                forall|j: int| 0 <= j < i ==> #[trigger] self.items@[j].0@ != key@,
            decreases self.items@.len() - i,
        {
            if self.items[i].0 == key.to_owned() {
                return Some(i);
            }
            i = i + 1;
        }
        None
    }

    /// The value for `key`.
    pub fn get(&self, key: &str) -> (r: Option<&V>)
        ensures
            match r {
                Some(v) => self@.contains_key(key@) && *v == self@[key@],
                None => !self@.contains_key(key@),
            },
    {
        proof {
            use_type_invariant(self);
        }
        match self.position(key) {
            Some(i) => {
                proof {
                    lemma_map_of_index(self.items@, i as int);
                }
                Some(&self.items[i].1)
            },
            None => {
                proof {
                    if self@.contains_key(key@) {
                        lemma_map_of_keys(self.items@, key@);
                    }
                }
                None
            },
        }
    }

    /// Adds `key` with `value`, unless `key` is already there: the entry
    /// that came first stays (`HashMap::entry(..).or_insert(..)`).
    pub fn insert_if_absent(&mut self, key: String, value: V)
        ensures
            final(self)@ == (if old(self)@.contains_key(key@) {
                old(self)@
            } else {
                old(self)@.insert(key@, value)
            }),
    {
        proof {
            use_type_invariant(&*self);
        }
        match self.position(key.as_str()) {
            Some(i) => {
                proof {
                    lemma_map_of_index(self.items@, i as int);
                }
            },
            None => {
                proof {
                    if self@.contains_key(key@) {
                        lemma_map_of_keys(self.items@, key@);
                    }
                }
                let ghost old_items = self.items@;
                let mut items = Vec::new();
                std::mem::swap(&mut items, &mut self.items);
                items.push((key, value));
                proof {
                    assert(items@.drop_last() =~= old_items);
                    assert forall|i: int, j: int| 0 <= i < j < items@.len() implies #[trigger] items@[i].0@
                        != #[trigger] items@[j].0@ by {
                        if j < old_items.len() {
                            assert(items@[i] == old_items[i] && items@[j] == old_items[j]);
                        } else {
                            assert(items@[i] == old_items[i]);
                        }
                    }
                }
                self.items = items;
            },
        }
    }
}

} // verus!
