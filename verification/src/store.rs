//! Lists of named entries, the shape in which the stores are kept.

use vstd::prelude::*;
use crate::text::str_eq;

verus! {

/// The names of a store's entries, in the store's order.
pub open spec fn names<T>(store: Seq<(String, T)>) -> Seq<Seq<char>> {
    Seq::new(store.len(), |i: int| store[i].0@)
}

/// Whether an entry has another name than `name`.
pub open spec fn named_otherwise<T>(name: Seq<char>) -> spec_fn((String, T)) -> bool {
    |e: (String, T)| e.0@ != name
}

/// A store without the entries that have a given name.
pub open spec fn without<T>(store: Seq<(String, T)>, name: Seq<char>) -> Seq<(String, T)> {
    store.filter(named_otherwise(name))
}

/// Whether the store holds an entry under `name`.
pub fn has_name<T>(store: &Vec<(String, T)>, name: &str) -> (r: bool)
    ensures
        r == names(store@).contains(name@),
{
    let mut i: usize = 0;
    while i < store.len()
        invariant
            i <= store@.len(),
            forall|k: int| 0 <= k < i ==> names(store@)[k] != name@,
        decreases store@.len() - i,
    {
        if str_eq(store[i].0.as_str(), name) {
            assert(names(store@)[i as int] == name@);
            return true;
        }
        i += 1;
    }
    false
}

/// Takes out of the store every entry that has the name.
pub fn remove_named<T>(store: &mut Vec<(String, T)>, name: &str)
    ensures
        final(store)@ == without(old(store)@, name@),
        !names(final(store)@).contains(name@),
{
    let ghost keep = named_otherwise::<T>(name@);
    let mut i: usize = 0;
    assert(store@.take(0).filter(keep) =~= Seq::<(String, T)>::empty()) by {
        reveal(Seq::filter);
    }
    while i < store.len()
        invariant
            i <= store@.len(),
            keep == named_otherwise::<T>(name@),
            store@.take(i as int) == old(store)@.take(i + (old(store)@.len() - store@.len())).filter(keep),
            store@.skip(i as int) == old(store)@.skip(i + (old(store)@.len() - store@.len())),
            store@.len() <= old(store)@.len(),
        decreases store@.len() - i,
    {
        let ghost before = store@;
        let ghost gone = old(store)@.len() - store@.len();
        let ghost e = store@[i as int];
        assert(e == old(store)@.skip(i + gone)[0]);
        assert(old(store)@.take(i + gone + 1) =~= old(store)@.take(i + gone).push(e));
        proof {
            old(store)@.take(i + gone).lemma_filter_push(e, keep);
        }
        if str_eq(store[i].0.as_str(), name) {
            store.remove(i);
            assert(store@.take(i as int) =~= before.take(i as int));
            assert forall|k: int| 0 <= k < store@.len() - i implies store@.skip(i as int)[k] == old(
                store,
            )@.skip(i + gone + 1)[k] by {
                assert(store@[i + k] == before.skip(i as int)[k + 1]);
                assert(old(store)@.skip(i + gone)[k + 1] == old(store)@[i + gone + k + 1]);
            }
            assert(store@.skip(i as int) =~= old(store)@.skip(i + gone + 1));
        } else {
            i += 1;
            assert(store@.take(i as int) =~= before.take(i - 1).push(e));
            assert forall|k: int| 0 <= k < store@.len() - i implies store@.skip(i as int)[k] == old(
                store,
            )@.skip(i + gone)[k] by {
                assert(store@[i + k] == before.skip(i - 1)[k + 1]);
                assert(old(store)@.skip(i - 1 + gone)[k + 1] == old(store)@[i + gone + k]);
            }
            assert(store@.skip(i as int) =~= old(store)@.skip(i + gone));
        }
    }
    proof {
        assert(store@.take(store@.len() as int) =~= store@);
        assert(old(store)@.take(old(store)@.len() as int) =~= old(store)@);
        assert forall|k: int| 0 <= k < store@.len() implies names(store@)[k] != name@ by {
            old(store)@.lemma_filter_pred(keep, k);
        }
    }
}

} // verus!
