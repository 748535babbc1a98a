//! A map from URLs to values.

use crate::text::same_text;
use vstd::prelude::*;

verus! {

/// A URL and its value.
pub struct Item<V> {
    pub url: String,
    pub value: V,
}

/// A map from URLs to values, in which no URL occurs twice.
pub struct UrlMap<V> {
    pub(crate) items: Vec<Item<V>>,
}

/// The URLs of `items`, in order.
pub open spec fn urls_of<V>(items: Seq<Item<V>>) -> Seq<Seq<char>> {
    items.map_values(|item: Item<V>| item.url@)
}

/// The map that `items` stand for, where no URL occurs twice.
pub open spec fn map_of<V>(items: Seq<Item<V>>) -> Map<Seq<char>, V> {
    Map::new(
        |url: Seq<char>| urls_of(items).contains(url),
        |url: Seq<char>| items[urls_of(items).index_of(url)].value,
    )
}

impl<V> View for UrlMap<V> {
    type V = Map<Seq<char>, V>;

    closed spec fn view(&self) -> Map<Seq<char>, V> {
        map_of(self.items@)
    }
}

impl<V> UrlMap<V> {
    /// Whether no URL occurs twice.
    pub closed spec fn wf(&self) -> bool {
        urls_of(self.items@).no_duplicates()
    }

    /// The map is the one that its items stand for.
    pub(crate) proof fn lemma_view(&self)
        ensures
            self@ == map_of(self.items@),
            self.wf() == urls_of(self.items@).no_duplicates(),
    {
    }

    /// The map holds each of its items.
    pub(crate) proof fn lemma_item(&self, i: int)
        requires
            self.wf(),
            0 <= i < self.items@.len(),
        ensures
            self@.contains_key(self.items@[i].url@),
            self@[self.items@[i].url@] == self.items@[i].value,
    {
        let urls = urls_of(self.items@);
        assert(urls[i] == self.items@[i].url@);
        let j = urls.index_of(self.items@[i].url@);
        assert(urls.contains(urls[i]));
        assert(urls[j] == urls[i]);
    }

    /// Each URL of the map is that of one item.
    pub(crate) proof fn lemma_url(&self, url: Seq<char>) -> (i: int)
        requires
            self.wf(),
            self@.contains_key(url),
        ensures
            0 <= i < self.items@.len(),
            self.items@[i].url@ == url,
            self@[url] == self.items@[i].value,
    {
        urls_of(self.items@).index_of(url)
    }

    /// The map is finite, and as large as it has items.
    pub(crate) proof fn lemma_len(&self)
        requires
            self.wf(),
        ensures
            self@.dom().finite(),
            self@.len() == self.items@.len(),
    {
        let urls = urls_of(self.items@);
        urls.unique_seq_to_set();
        vstd::seq_lib::seq_to_set_is_finite(urls);
        assert(self@.dom() =~= urls.to_set());
    }

    /// An empty map.
    pub fn new() -> (r: UrlMap<V>)
        ensures
            r.wf(),
            r@ == Map::<Seq<char>, V>::empty(),
    {
        let r = UrlMap { items: Vec::new() };
        assert(r@ =~= Map::<Seq<char>, V>::empty());
        r
    }

    /// The number of URLs.
    pub fn len(&self) -> (r: usize)
        requires
            self.wf(),
        ensures
            r == self@.len(),
            self@.dom().finite(),
    {
        proof {
            self.lemma_len();
        }
        self.items.len()
    }

    /// The index of the item of `url`.
    pub(crate) fn index_of(&self, url: &str) -> (r: Option<usize>)
        requires
            self.wf(),
        ensures
            match r {
                Some(i) => i < self.items@.len() && self.items@[i as int].url@ == url@
                    && self@.contains_key(url@) && self@[url@] == self.items@[i as int].value,
                None => !self@.contains_key(url@),
            },
    {
        let mut i: usize = 0;
        while i < self.items.len()
            invariant
                i <= self.items.len(),
                self.wf(),
                forall|j: int| 0 <= j < i ==> (#[trigger] self.items@[j]).url@ != url@,
            decreases self.items.len() - i,
        {
            if same_text(self.items[i].url.as_str(), url) {
                proof {
                    self.lemma_item(i as int);
                }
                return Some(i);
            }
            i += 1;
        }
        proof {
            if self@.contains_key(url@) {
                let j = self.lemma_url(url@);
            }
        }
        None
    }

    /// Whether `url` is in the map.
    pub fn contains(&self, url: &str) -> (r: bool)
        requires
            self.wf(),
        ensures
            r == self@.contains_key(url@),
    {
        self.index_of(url).is_some()
    }

    /// The value of `url`.
    pub fn get(&self, url: &str) -> (r: Option<&V>)
        requires
            self.wf(),
        ensures
            match r {
                Some(v) => self@.contains_key(url@) && *v == self@[url@],
                None => !self@.contains_key(url@),
            },
    {
        match self.index_of(url) {
            Some(i) => Some(&self.items[i].value),
            None => None,
        }
    }

    /// The value of `url`, to be changed in place.
    pub fn get_mut(&mut self, url: &str) -> (r: Option<&mut V>)
        requires
            old(self).wf(),
        ensures
            final(self).wf(),
            match r {
                Some(v) => old(self)@.contains_key(url@) && *v == old(self)@[url@] && final(self)@
                    == old(self)@.insert(url@, *final(v)),
                None => !old(self)@.contains_key(url@) && final(self)@ == old(self)@,
            },
    {
        match self.index_of(url) {
            Some(i) => {
                let ghost before = self.items@;
                let value = &mut self.items[i].value;
                proof {
                    let item = Item { url: before[i as int].url, value: *final(value) };
                    lemma_map_of_update(before, i as int, item);
                    assert(urls_of(before.update(i as int, item)) =~= urls_of(before));
                }
                Some(value)
            },
            None => None,
        }
    }

    /// Gives `url` the value `value`.
    pub fn insert(&mut self, url: String, value: V)
        requires
            old(self).wf(),
        ensures
            final(self).wf(),
            final(self)@ == old(self)@.insert(url@, value),
    {
        let ghost before = *self;
        match self.index_of(url.as_str()) {
            Some(i) => {
                self.items.set(i, Item { url, value });
                proof {
                    let (old_urls, urls) = (urls_of(before.items@), urls_of(self.items@));
                    assert(urls =~= old_urls);
                    lemma_map_of_update(before.items@, i as int, self.items@[i as int]);
                }
            },
            None => {
                self.items.push(Item { url, value });
                proof {
                    lemma_map_of_push(before.items@, self.items@.last());
                }
            },
        }
    }

    /// Takes `url` out of the map, with its value.
    pub fn remove(&mut self, url: &str) -> (r: Option<V>)
        requires
            old(self).wf(),
        ensures
            final(self).wf(),
            final(self)@ == old(self)@.remove(url@),
            match r {
                Some(v) => old(self)@.contains_key(url@) && v == old(self)@[url@],
                None => !old(self)@.contains_key(url@),
            },
    {
        let ghost before = *self;
        match self.index_of(url) {
            Some(i) => {
                let item = self.items.remove(i);
                proof {
                    lemma_map_of_remove(before.items@, i as int);
                }
                Some(item.value)
            },
            None => {
                assert(self@.remove(url@) =~= self@);
                None
            },
        }
    }

    /// Takes everything out of the map.
    pub fn clear(&mut self)
        ensures
            final(self).wf(),
            final(self)@ == Map::<Seq<char>, V>::empty(),
    {
        self.items.clear();
        assert(self@ =~= Map::<Seq<char>, V>::empty());
    }
}

proof fn lemma_map_of_at<V>(items: Seq<Item<V>>, i: int)
    requires
        urls_of(items).no_duplicates(),
        0 <= i < items.len(),
    ensures
        map_of(items).contains_key(items[i].url@),
        map_of(items)[items[i].url@] == items[i].value,
{
    let urls = urls_of(items);
    assert(urls[i] == items[i].url@);
    assert(urls.contains(urls[i]));
    assert(urls[urls.index_of(urls[i])] == urls[i]);
}

proof fn lemma_map_of_update<V>(items: Seq<Item<V>>, i: int, item: Item<V>)
    requires
        urls_of(items).no_duplicates(),
        0 <= i < items.len(),
        item.url@ == items[i].url@,
    ensures
        map_of(items.update(i, item)) == map_of(items).insert(item.url@, item.value),
{
    let after = items.update(i, item);
    assert(urls_of(after) =~= urls_of(items));
    assert forall|url: Seq<char>| map_of(after).contains_key(url) implies map_of(after)[url] == map_of(
        items,
    ).insert(item.url@, item.value)[url] by {
        let j = urls_of(after).index_of(url);
        lemma_map_of_at(after, j);
        lemma_map_of_at(items, j);
        assert(urls_of(after)[j] == url);
        assert(urls_of(items)[j] == url);
        if j != i {
            assert(urls_of(items)[i] == item.url@);
        }
    }
    assert(urls_of(items).contains(urls_of(items)[i]));
    assert(map_of(after) =~= map_of(items).insert(item.url@, item.value));
}

/// One item more gives its URL its value.
pub proof fn lemma_map_of_push<V>(items: Seq<Item<V>>, item: Item<V>)
    requires
        urls_of(items).no_duplicates(),
        !map_of(items).contains_key(item.url@),
    ensures
        urls_of(items.push(item)).no_duplicates(),
        map_of(items.push(item)) == map_of(items).insert(item.url@, item.value),
{
    let after = items.push(item);
    assert(urls_of(after) =~= urls_of(items).push(item.url@));
    assert forall|a: int, b: int| 0 <= a < b < after.len() implies urls_of(after)[a] != urls_of(after)[b] by {
        if b == items.len() {
            assert(urls_of(items).contains(urls_of(items)[a]));
        }
    }
    assert forall|url: Seq<char>| map_of(after).contains_key(url) == map_of(items).insert(
        item.url@,
        item.value,
    ).contains_key(url) by {
        if urls_of(items).contains(url) {
            let j = urls_of(items).index_of(url);
            assert(urls_of(after)[j] == url);
        }
        assert(urls_of(after)[items.len() as int] == item.url@);
        if urls_of(after).contains(url) {
            let j = urls_of(after).index_of(url);
            if j < items.len() {
                assert(urls_of(items)[j] == url);
            }
        }
    }
    assert forall|url: Seq<char>| map_of(after).contains_key(url) implies map_of(after)[url] == map_of(
        items,
    ).insert(item.url@, item.value)[url] by {
        let j = urls_of(after).index_of(url);
        lemma_map_of_at(after, j);
        if j < items.len() {
            lemma_map_of_at(items, j);
            assert(urls_of(items).contains(urls_of(items)[j]));
        }
    }
    assert(map_of(after) =~= map_of(items).insert(item.url@, item.value));
}

proof fn lemma_map_of_remove<V>(items: Seq<Item<V>>, i: int)
    requires
        urls_of(items).no_duplicates(),
        0 <= i < items.len(),
    ensures
        urls_of(items.remove(i)).no_duplicates(),
        map_of(items.remove(i)) == map_of(items).remove(items[i].url@),
{
    let after = items.remove(i);
    let gone = items[i].url@;
    assert(urls_of(after) =~= urls_of(items).remove(i));
    assert forall|a: int, b: int| 0 <= a < b < after.len() implies urls_of(after)[a] != urls_of(after)[b] by {
        let (c, d) = (
            if a < i {
                a
            } else {
                a + 1
            },
            if b < i {
                b
            } else {
                b + 1
            },
        );
        assert(urls_of(after)[a] == urls_of(items)[c]);
        assert(urls_of(after)[b] == urls_of(items)[d]);
    }
    assert forall|url: Seq<char>| map_of(after).contains_key(url) == map_of(items).remove(
        gone,
    ).contains_key(url) by {
        if map_of(items).contains_key(url) && url != gone {
            let j = urls_of(items).index_of(url);
            let k = if j < i {
                j
            } else {
                j - 1
            };
            assert(urls_of(after)[k] == url);
        }
        if map_of(after).contains_key(url) {
            let j = urls_of(after).index_of(url);
            let k = if j < i {
                j
            } else {
                j + 1
            };
            assert(urls_of(items)[k] == url);
            assert(urls_of(items)[i] == gone);
        }
    }
    assert forall|url: Seq<char>| map_of(after).contains_key(url) implies map_of(after)[url] == map_of(
        items,
    ).remove(gone)[url] by {
        let j = urls_of(after).index_of(url);
        let k = if j < i {
            j
        } else {
            j + 1
        };
        lemma_map_of_at(after, j);
        lemma_map_of_at(items, k);
        assert(urls_of(after)[j] == url);
        assert(urls_of(items)[k] == url);
        assert(urls_of(items)[i] == gone);
    }
    assert(map_of(after) =~= map_of(items).remove(gone));
}

} // verus!
