//! The pending registry: relay keys whose first party waits for the second.

use crate::session::Token;
use vstd::prelude::*;

verus! {

/// One half-completed pairing.
struct PendingEntry {
    key: String,
    token: Token,
}

/// Maps each waiting relay key to the token of the endpoint that registered
/// first under it. No key occurs twice.
pub struct PendingRegistry {
    entries: Vec<PendingEntry>,
}

/// The map without the keys that `token` waits under.
pub open spec fn without_token(pending: Map<Seq<char>, Token>, token: Token) -> Map<
    Seq<char>,
    Token,
> {
    Map::new(
        |key: Seq<char>| pending.contains_key(key) && pending[key] != token,
        |key: Seq<char>| pending[key],
    )
}

spec fn holds(entries: Seq<PendingEntry>, key: Seq<char>, i: int) -> bool {
    0 <= i < entries.len() && entries[i].key@ == key
}

spec fn distinct_keys(entries: Seq<PendingEntry>) -> bool {
    forall|i: int, j: int|
        0 <= i < j < entries.len() ==> (#[trigger] entries[i]).key@ != (#[trigger] entries[j]).key@
}

spec fn as_map(entries: Seq<PendingEntry>) -> Map<Seq<char>, Token> {
    Map::new(
        |key: Seq<char>| exists|i: int| holds(entries, key, i),
        |key: Seq<char>| entries[choose|i: int| holds(entries, key, i)].token,
    )
}

/// Each entry of a list without repeated keys is found in the map under its
/// own key, and the map has no other keys.
proof fn lemma_as_map(entries: Seq<PendingEntry>)
    requires
        distinct_keys(entries),
    ensures
        forall|i: int|
            0 <= i < entries.len() ==> as_map(entries).contains_key((#[trigger] entries[i]).key@)
                && as_map(entries)[entries[i].key@] == entries[i].token,
        forall|key: Seq<char>| #[trigger]
            as_map(entries).contains_key(key) ==> exists|i: int| holds(entries, key, i),
{
    assert forall|i: int| 0 <= i < entries.len() implies as_map(entries).contains_key(
        (#[trigger] entries[i]).key@,
    ) && as_map(entries)[entries[i].key@] == entries[i].token by {
        let key = entries[i].key@;
        assert(holds(entries, key, i));
        let j = choose|j: int| holds(entries, key, j);
        assert(holds(entries, key, j));
        if i < j {
            assert(entries[i].key@ != entries[j].key@);
        }
        if j < i {
            assert(entries[j].key@ != entries[i].key@);
        }
    }
}

impl View for PendingRegistry {
    type V = Map<Seq<char>, Token>;

    closed spec fn view(&self) -> Map<Seq<char>, Token> {
        as_map(self.entries@)
    }
}

impl PendingRegistry {
    /// No relay key occurs twice.
    pub closed spec fn wf(&self) -> bool {
        distinct_keys(self.entries@)
    }

    /// A registry in which nobody waits.
    pub fn new() -> (registry: PendingRegistry)
        ensures
            registry.wf(),
            registry@ == Map::<Seq<char>, Token>::empty(),
    {
        let registry = PendingRegistry { entries: Vec::new() };
        assert(registry@ =~= Map::<Seq<char>, Token>::empty());
        registry
    }

    fn position(&self, key: &String) -> (found: Option<usize>)
        requires
            self.wf(),
        ensures
            match found {
                Some(i) => holds(self.entries@, key@, i as int),
                None => !self@.contains_key(key@),
            },
    {
        let mut i: usize = 0;
        while i < self.entries.len()
            invariant
                i <= self.entries.len(),
                forall|j: int| 0 <= j < i ==> !holds(self.entries@, key@, j),
            decreases self.entries.len() - i,
        {
            if self.entries[i].key == *key {
                return Some(i);
            }
            i += 1;
        }
        None
    }

    /// The token that waits under `key`, if any.
    pub fn lookup(&self, key: &String) -> (token: Option<Token>)
        requires
            self.wf(),
        ensures
            token == (if self@.contains_key(key@) {
                Some(self@[key@])
            } else {
                None
            }),
    {
        match self.position(key) {
            Some(i) => {
                proof {
                    lemma_as_map(self.entries@);
                }
                Some(self.entries[i].token)
            },
            None => None,
        }
    }

    /// Lets `token` wait under `key`, in place of whoever waited there.
    pub fn insert(&mut self, key: String, token: Token)
        requires
            old(self).wf(),
        ensures
            final(self).wf(),
            final(self)@ == old(self)@.insert(key@, token),
    {
        let ghost before = self.entries@;
        proof {
            lemma_as_map(before);
        }
        match self.position(&key) {
            Some(i) => {
                self.entries[i].token = token;
                proof {
                    let after = self.entries@;
                    assert(after.len() == before.len());
                    assert forall|j: int| 0 <= j < after.len() implies (#[trigger] after[j]).key@
                        == before[j].key@ by {}
                    assert(distinct_keys(after)) by {
                        assert forall|a: int, b: int| 0 <= a < b < after.len() implies (
                        #[trigger] after[a]).key@ != (#[trigger] after[b]).key@ by {
                            assert(before[a].key@ != before[b].key@);
                        }
                    }
                    lemma_as_map(after);
                    assert forall|k: Seq<char>|
                        as_map(after).contains_key(k) <==> #[trigger] as_map(before).insert(
                            key@,
                            token,
                        ).contains_key(k) by {
                        if as_map(after).contains_key(k) {
                            let j = choose|j: int| holds(after, k, j);
                            assert(before[j].key@ == k);
                        }
                        if as_map(before).contains_key(k) {
                            let j = choose|j: int| holds(before, k, j);
                            assert(after[j].key@ == k);
                        }
                        if k == key@ {
                            assert(after[i as int].key@ == k);
                        }
                    }
                    assert forall|k: Seq<char>| #[trigger]
                        as_map(after).contains_key(k) implies as_map(after)[k] == as_map(
                        before,
                    ).insert(key@, token)[k] by {
                        let j = choose|j: int| holds(after, k, j);
                        assert(after[j].key@ == k);
                        assert(before[j].key@ == k);
                        if j != i {
                            assert(after[j].token == before[j].token);
                            if j < i {
                                assert(before[j].key@ != before[i as int].key@);
                            } else {
                                assert(before[i as int].key@ != before[j].key@);
                            }
                        }
                    }
                    assert(as_map(after) =~= as_map(before).insert(key@, token));
                }
            },
            None => {
                let ghost entry = PendingEntry { key, token };
                self.entries.push(PendingEntry { key, token });
                proof {
                    let after = self.entries@;
                    assert(after == before.push(entry));
                    assert(distinct_keys(after)) by {
                        assert forall|a: int, b: int| 0 <= a < b < after.len() implies (
                        #[trigger] after[a]).key@ != (#[trigger] after[b]).key@ by {
                            if b < before.len() {
                                assert(before[a].key@ != before[b].key@);
                            } else {
                                assert(after[a] == before[a]);
                                if before[a].key@ == key@ {
                                    assert(holds(before, key@, a));
                                }
                            }
                        }
                    }
                    lemma_as_map(after);
                    assert forall|k: Seq<char>|
                        as_map(after).contains_key(k) <==> #[trigger] as_map(before).insert(
                            key@,
                            token,
                        ).contains_key(k) by {
                        if as_map(after).contains_key(k) {
                            let j = choose|j: int| holds(after, k, j);
                            if j < before.len() {
                                assert(holds(before, k, j));
                            }
                        }
                        if as_map(before).contains_key(k) {
                            let j = choose|j: int| holds(before, k, j);
                            assert(after[j] == before[j]);
                            assert(holds(after, k, j));
                        }
                        if k == key@ {
                            assert(holds(after, k, before.len() as int));
                        }
                    }
                    assert forall|k: Seq<char>| #[trigger]
                        as_map(after).contains_key(k) implies as_map(after)[k] == as_map(
                        before,
                    ).insert(key@, token)[k] by {
                        let j = choose|j: int| holds(after, k, j);
                        assert(after[j].key@ == k);
                        if j < before.len() {
                            assert(after[j] == before[j]);
                            assert(holds(before, k, j));
                        }
                    }
                    assert(as_map(after) =~= as_map(before).insert(key@, token));
                }
            },
        }
    }

    /// Takes `key` out of the registry and returns the token that waited
    /// under it, if any.
    pub fn remove(&mut self, key: &String) -> (token: Option<Token>)
        requires
            old(self).wf(),
        ensures
            final(self).wf(),
            final(self)@ == old(self)@.remove(key@),
            token == (if old(self)@.contains_key(key@) {
                Some(old(self)@[key@])
            } else {
                None
            }),
    {
        let ghost before = self.entries@;
        proof {
            lemma_as_map(before);
        }
        match self.position(key) {
            Some(i) => {
                let entry = self.entries.remove(i);
                proof {
                    let after = self.entries@;
                    lemma_drop(before, i as int);
                }
                Some(entry.token)
            },
            None => {
                assert(self@ =~= old(self)@.remove(key@));
                None
            },
        }
    }

    /// Takes out every key that `token` waits under.
    pub fn purge(&mut self, token: Token)
        requires
            old(self).wf(),
        ensures
            final(self).wf(),
            final(self)@ == without_token(old(self)@, token),
    {
        let ghost before = self.entries@;
        let mut i: usize = 0;
        while i < self.entries.len()
            invariant
                i <= self.entries.len(),
                distinct_keys(self.entries@),
                forall|j: int| 0 <= j < i ==> (#[trigger] self.entries@[j]).token != token,
                without_token(as_map(self.entries@), token) == without_token(as_map(before), token),
            decreases self.entries.len() - i,
        {
            if self.entries[i].token == token {
                let ghost current = self.entries@;
                self.entries.remove(i);
                proof {
                    lemma_as_map(current);
                    lemma_drop(current, i as int);
                    assert(without_token(as_map(self.entries@), token) =~= without_token(
                        as_map(current),
                        token,
                    ));
                }
            } else {
                i += 1;
            }
        }
        proof {
            lemma_as_map(self.entries@);
            assert forall|k: Seq<char>| #[trigger]
                as_map(self.entries@).contains_key(k) implies as_map(self.entries@)[k]
                != token by {
                let j = choose|j: int| holds(self.entries@, k, j);
                assert(self.entries@[j].key@ == k);
            }
            assert(as_map(self.entries@) =~= without_token(as_map(self.entries@), token));
        }
    }
}

/// Dropping one entry from a list without repeated keys removes its key from
/// the map and leaves the rest of the map as it was.
proof fn lemma_drop(entries: Seq<PendingEntry>, i: int)
    requires
        distinct_keys(entries),
        0 <= i < entries.len(),
    ensures
        distinct_keys(entries.remove(i)),
        as_map(entries.remove(i)) == as_map(entries).remove(entries[i].key@),
{
    let after = entries.remove(i);
    assert forall|a: int, b: int| 0 <= a < b < after.len() implies (#[trigger] after[a]).key@ != (
    #[trigger] after[b]).key@ by {
        let a0 = if a < i {
            a
        } else {
            a + 1
        };
        let b0 = if b < i {
            b
        } else {
            b + 1
        };
        assert(after[a] == entries[a0]);
        assert(after[b] == entries[b0]);
        assert(entries[a0].key@ != entries[b0].key@);
    }
    lemma_as_map(entries);
    lemma_as_map(after);
    let target = as_map(entries).remove(entries[i].key@);
    assert forall|k: Seq<char>| as_map(after).contains_key(k) <==> #[trigger] target.contains_key(
        k,
    ) by {
        if as_map(after).contains_key(k) {
            let j = choose|j: int| holds(after, k, j);
            let j0 = if j < i {
                j
            } else {
                j + 1
            };
            assert(after[j] == entries[j0]);
            assert(holds(entries, k, j0));
            if j0 < i {
                assert(entries[j0].key@ != entries[i].key@);
            } else {
                assert(entries[i].key@ != entries[j0].key@);
            }
        }
        if target.contains_key(k) {
            let j0 = choose|j: int| holds(entries, k, j);
            assert(j0 != i);
            let j = if j0 < i {
                j0
            } else {
                j0 - 1
            };
            assert(after[j] == entries[j0]);
            assert(holds(after, k, j));
        }
    }
    assert forall|k: Seq<char>| #[trigger] as_map(after).contains_key(k) implies as_map(after)[k]
        == target[k] by {
        let j = choose|j: int| holds(after, k, j);
        let j0 = if j < i {
            j
        } else {
            j + 1
        };
        assert(after[j] == entries[j0]);
        assert(entries[j0].key@ == k);
    }
    assert(as_map(after) =~= target);
}

} // verus!
