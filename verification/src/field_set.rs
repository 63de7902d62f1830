//! Sets of field names.

use crate::text::{before, before_total, before_transitive, text_before, texts};
use vstd::prelude::*;

verus! {

/// The texts ascend, so none stands twice.
pub open spec fn ascending_texts(s: Seq<Seq<char>>) -> bool {
    forall|i: int, j: int| 0 <= i < j < s.len() ==> before(#[trigger] s[i], #[trigger] s[j])
}

/// A set of field names, kept in the order of the names. The names stand in a
/// `Vec`: vstd states of a `BTreeSet` only what follows from the order of its
/// items, and it states no order for `String`.
#[derive(Debug, PartialEq)]
pub struct FieldSet {
    names: Vec<String>,
}

impl View for FieldSet {
    type V = Set<Seq<char>>;

    closed spec fn view(&self) -> Set<Seq<char>> {
        texts(self.names@).to_set()
    }
}

impl Default for FieldSet {
    fn default() -> (r: FieldSet)
        ensures
            r@ == Set::<Seq<char>>::empty(),
    {
        FieldSet::new()
    }
}

impl FieldSet {
    #[verifier::type_invariant]
    spec fn in_order(self) -> bool {
        ascending_texts(texts(self.names@))
    }

    /// The set without names.
    pub fn new() -> (r: FieldSet)
        ensures
            r@ == Set::<Seq<char>>::empty(),
    {
        let r = FieldSet { names: Vec::new() };
        assert(r@ =~= Set::<Seq<char>>::empty());
        r
    }

    /// The set of the given names.
    pub fn of(names: Vec<String>) -> (r: FieldSet)
        ensures
            r@ == texts(names@).to_set(),
    {
        let mut out = FieldSet::new();
        let mut i: usize = 0;
        while i < names.len()
            invariant
                i <= names@.len(),
                out@ == texts(names@).take(i as int).to_set(),
            decreases names@.len() - i,
        {
            let ghost done = texts(names@).take(i as int);
            let ghost name = names@[i as int]@;
            out.insert(names[i].clone());
            i = i + 1;
            assert(texts(names@).take(i as int) =~= done.push(name));
            assert(done.push(name).to_set() =~= done.to_set().insert(name)) by {
                assert forall|q: Seq<char>| done.to_set().insert(name).contains(
                    q,
                ) implies done.push(name).to_set().contains(q) by {
                    if q == name {
                        assert(done.push(name)[done.len() as int] == q);
                    } else {
                        let k = choose|k: int| 0 <= k < done.len() && done[k] == q;
                        assert(done.push(name)[k] == q);
                    }
                }
            }
        }
        assert(texts(names@).take(i as int) =~= texts(names@));
        out
    }

    /// The names, in order.
    pub fn names(&self) -> (r: &Vec<String>)
        ensures
            texts(r@).to_set() == self@,
            ascending_texts(texts(r@)),
    {
        proof {
            use_type_invariant(self);
        }
        &self.names
    }

    /// Whether the set has no name.
    pub fn is_empty(&self) -> (r: bool)
        ensures
            r == (self@ == Set::<Seq<char>>::empty()),
    {
        if self.names.len() == 0 {
            assert(self@ =~= Set::<Seq<char>>::empty());
            true
        } else {
            assert(texts(self.names@)[0] == self.names@[0]@);
            assert(self@.contains(self.names@[0]@));
            false
        }
    }

    /// Whether the set has the name.
    pub fn contains(&self, name: &str) -> (r: bool)
        ensures
            r == self@.contains(name@),
    {
        let wanted: String = name.to_owned();
        let ghost all = texts(self.names@);
        let mut i: usize = 0;
        while i < self.names.len()
            invariant
                i <= self.names@.len(),
                wanted@ == name@,
                all == texts(self.names@),
                forall|j: int| 0 <= j < i ==> all[j] != name@,
            decreases self.names@.len() - i,
        {
            if self.names[i] == wanted {
                assert(all[i as int] == name@);
                return true;
            }
            i = i + 1;
        }
        assert(!all.contains(name@));
        false
    }

    /// Adds a name.
    pub fn insert(&mut self, name: String)
        ensures
            final(self)@ == old(self)@.insert(name@),
    {
        proof {
            use_type_invariant(&*self);
        }
        let ghost all = texts(self.names@);
        let mut names: Vec<String> = Vec::new();
        std::mem::swap(&mut names, &mut self.names);
        let mut p: usize = 0;
        while p < names.len() && text_before(names[p].as_str(), name.as_str())
            invariant
                p <= names@.len(),
                all == texts(names@),
                forall|j: int| 0 <= j < p ==> before(#[trigger] all[j], name@),
            decreases names@.len() - p,
        {
            p = p + 1;
        }
        if p < names.len() && names[p] == name {
            assert(all[p as int] == name@);
            assert(all.to_set().insert(name@) =~= all.to_set());
            self.names = names;
        } else {
            let ghost key = name@;
            names.insert(p, name);
            let ghost now = texts(names@);
            proof {
                assert(now =~= all.insert(p as int, key));
                inserted_ascends(all, key, p as int);
                assert(now.to_set() =~= all.to_set().insert(key)) by {
                    assert forall|q: Seq<char>| all.to_set().insert(key).contains(
                        q,
                    ) implies now.to_set().contains(q) by {
                        if q == key {
                            assert(now[p as int] == q);
                        } else {
                            let k = choose|k: int| 0 <= k < all.len() && all[k] == q;
                            assert(now[if k < p { k } else { k + 1 }] == q);
                        }
                    }
                    assert forall|q: Seq<char>| now.to_set().contains(
                        q,
                    ) implies all.to_set().insert(key).contains(q) by {
                        let k = choose|k: int| 0 <= k < now.len() && now[k] == q;
                        if k != p {
                            assert(all[if k < p { k } else { k - 1 }] == q);
                        }
                    }
                }
            }
            self.names = names;
        }
    }
}

/// A new text at its place keeps the texts ascending.
proof fn inserted_ascends(all: Seq<Seq<char>>, key: Seq<char>, p: int)
    requires
        ascending_texts(all),
        0 <= p <= all.len(),
        forall|j: int| 0 <= j < p ==> before(#[trigger] all[j], key),
        p < all.len() ==> !before(all[p], key) && all[p] != key,
    ensures
        ascending_texts(all.insert(p, key)),
{
    let now = all.insert(p, key);
    if p < all.len() {
        before_total(all[p], key);
    }
    assert forall|i: int, j: int| 0 <= i < j < now.len() implies before(
        #[trigger] now[i],
        #[trigger] now[j],
    ) by {
        let x = if i < p { i } else { i - 1 };
        let y = if j < p { j } else { j - 1 };
        if i == p {
            assert(now[j] == all[y]);
            if y > p {
                assert(before(all[p], all[y]));
                before_transitive(key, all[p], all[y]);
            }
        } else if j == p {
            assert(before(all[i], key));
        } else {
            assert(now[i] == all[x] && now[j] == all[y]);
            assert(before(all[x], all[y]));
        }
    }
}

} // verus!
