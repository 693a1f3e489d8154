//! A table from texts to values.
use crate::listing::{find_key, is_key_set};
use crate::text::{text_less, text_order_equal, texts};
use vstd::prelude::*;
use vstd::string::*;

verus! {

broadcast use vstd::string::group_string_axioms;

/// A table from texts to values, kept in the order of the texts.
#[derive(Debug)]
pub struct KeyedList<T> {
    keys: Vec<String>,
    values: Vec<T>,
}

/// Where a key stands in a list of distinct keys.
pub open spec fn place_of(keys: Seq<Seq<char>>, key: Seq<char>) -> int {
    choose|i: int| 0 <= i < keys.len() && keys[i] == key
}

impl<T> View for KeyedList<T> {
    type V = Map<Seq<char>, T>;

    closed spec fn view(&self) -> Map<Seq<char>, T> {
        let keys = texts(self.keys@);
        let values = self.values@;
        Map::new(|k: Seq<char>| keys.contains(k), |k: Seq<char>| values[place_of(keys, k)])
    }
}

proof fn lemma_place(keys: Seq<Seq<char>>, i: int)
    requires
        is_key_set(keys),
        0 <= i < keys.len(),
    ensures
        place_of(keys, keys[i]) == i,
{
    let j = place_of(keys, keys[i]);
    if j < i {
        assert(text_less(keys[j], keys[i]));
    } else if i < j {
        assert(text_less(keys[i], keys[j]));
    }
    text_order_equal(keys[i], keys[j]);
    text_order_equal(keys[j], keys[i]);
}

impl<T> KeyedList<T> {
    pub closed spec fn wf(self) -> bool {
        is_key_set(texts(self.keys@)) && self.keys@.len() == self.values@.len()
    }

    /// An empty table.
    pub fn new() -> (r: Self)
        ensures
            r.wf(),
            r@ == Map::<Seq<char>, T>::empty(),
    {
        let r = KeyedList { keys: Vec::new(), values: Vec::new() };
        proof {
            assert(texts(r.keys@) =~= Seq::<Seq<char>>::empty());
            assert(r@ =~= Map::<Seq<char>, T>::empty());
        }
        r
    }

    /// The value under a key.
    pub fn get(&self, key: &str) -> (r: Option<&T>)
        requires
            self.wf(),
        ensures
            match r {
                Some(value) => self@.dom().contains(key@) && *value == self@[key@],
                None => !self@.dom().contains(key@),
            },
    {
        let place = find_key(&self.keys, key);
        if place.found {
            proof {
                lemma_place(texts(self.keys@), place.at as int);
            }
            Some(&self.values[place.at])
        } else {
            None
        }
    }

    /// Puts a value under a key, in the place of one that is there.
    pub fn insert(&mut self, key: String, value: T)
        requires
            old(self).wf(),
        ensures
            final(self).wf(),
            final(self)@ == old(self)@.insert(key@, value),
    {
        let ghost before = texts(self.keys@);
        let ghost held = self.values@;
        let ghost table = self@;
        let place = find_key(&self.keys, key.as_str());
        let at: usize = place.at;
        if place.found {
            self.values.set(at, value);
            proof {
                assert(self@ =~= table.insert(key@, value)) by {
                    assert forall|k: Seq<char>| #[trigger] before.contains(k) implies self@[k]
                        == table.insert(key@, value)[k] by {
                        let i = place_of(before, k);
                        assert(before[i] == k);
                        lemma_place(before, at as int);
                    }
                }
            }
        } else {
            proof {
                assert forall|i: int| 0 <= i < at implies text_less(#[trigger] before[i], key@) by {
                    assert(before[i] == self.keys@[i]@);
                }
                assert forall|i: int| at <= i < before.len() implies text_less(
                    key@,
                    #[trigger] before[i],
                ) by {
                    assert(before[i] == self.keys@[i]@);
                }
                crate::listing::insertion_keeps_order(before, key@, at as int);
            }
            let ghost text = key@;
            self.keys.insert(at, key);
            self.values.insert(at, value);
            proof {
                let after = texts(self.keys@);
                assert(after =~= before.insert(at as int, text));
                assert(self@ =~= table.insert(text, value)) by {
                    assert forall|k: Seq<char>| #[trigger] after.contains(k) implies self@[k]
                        == table.insert(text, value)[k] by {
                        let i = place_of(after, k);
                        assert(0 <= i < after.len() && after[i] == k);
                        if i < at {
                            assert(before[i] == k);
                            lemma_place(before, i);
                        } else if i > at {
                            assert(before[i - 1] == k);
                            lemma_place(before, i - 1);
                        }
                        if k == text {
                            lemma_place(after, at as int);
                        } else {
                            assert(before.contains(k));
                        }
                    }
                }
            }
        }
    }

    /// Takes the value under a key away, where there is one.
    pub fn remove(&mut self, key: &str)
        requires
            old(self).wf(),
        ensures
            final(self).wf(),
            final(self)@ == old(self)@.remove(key@),
    {
        let ghost before = texts(self.keys@);
        let ghost held = self.values@;
        let ghost table = self@;
        let place = find_key(&self.keys, key);
        if place.found {
            let at: usize = place.at;
            self.keys.remove(at);
            self.values.remove(at);
            proof {
                let after = texts(self.keys@);
                assert(after =~= before.remove(at as int));
                assert(is_key_set(after)) by {
                    assert forall|i: int, j: int| 0 <= i < j < after.len() implies text_less(
                        #[trigger] after[i],
                        #[trigger] after[j],
                    ) by {
                        let x = if i < at {
                            i
                        } else {
                            i + 1
                        };
                        let y = if j < at {
                            j
                        } else {
                            j + 1
                        };
                        assert(text_less(before[x], before[y]));
                    }
                }
                assert forall|k: Seq<char>| #[trigger] after.contains(k) <==> before.contains(k) && k
                    != key@ by {
                    if after.contains(k) {
                        let i = choose|i: int| 0 <= i < after.len() && after[i] == k;
                        let x = if i < at {
                            i
                        } else {
                            i + 1
                        };
                        assert(before[x] == k);
                        lemma_place(before, x);
                        lemma_place(before, at as int);
                    }
                    if before.contains(k) && k != key@ {
                        let i = choose|i: int| 0 <= i < before.len() && before[i] == k;
                        if i < at {
                            assert(after[i] == k);
                        } else {
                            assert(after[i - 1] == k);
                        }
                    }
                }
                assert(self@ =~= table.remove(key@)) by {
                    assert forall|k: Seq<char>| #[trigger] after.contains(k) implies self@[k]
                        == table.remove(key@)[k] by {
                        let i = place_of(after, k);
                        assert(0 <= i < after.len() && after[i] == k);
                        let x = if i < at {
                            i
                        } else {
                            i + 1
                        };
                        assert(before[x] == k);
                        lemma_place(before, x);
                    }
                }
            }
        } else {
            proof {
                assert(table =~= table.remove(key@));
            }
        }
    }
}

} // verus!
