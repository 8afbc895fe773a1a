//! Lists that hold one entry for each id.
use crate::model::views;
use vstd::prelude::*;

verus! {

/// An entry that is found by its id.
pub trait Keyed: View + Sized {
    /// What an id is.
    type Id: View + ?Sized;

    /// The id of an entry.
    spec fn key(v: Self::V) -> <Self::Id as View>::V;

    /// Whether the entry has this id.
    fn has_key(&self, id: &Self::Id) -> (r: bool)
        ensures
            r == (Self::key(self@) == id@),
    ;
}

/// Position `i` is the first with this id.
pub open spec fn found_at<T: Keyed>(s: Seq<T::V>, id: <T::Id as View>::V, i: int) -> bool {
    &&& 0 <= i < s.len()
    &&& T::key(s[i]) == id
    &&& forall|j: int| 0 <= j < i ==> T::key(#[trigger] s[j]) != id
}

/// The position of the first entry with this id.
pub open spec fn slot<T: Keyed>(s: Seq<T::V>, id: <T::Id as View>::V) -> Option<int> {
    if exists|i: int| found_at::<T>(s, id, i) {
        Some(choose|i: int| found_at::<T>(s, id, i))
    } else {
        None
    }
}

/// The first entry with this id.
pub open spec fn fetched<T: Keyed>(s: Seq<T::V>, id: <T::Id as View>::V) -> Option<T::V> {
    match slot::<T>(s, id) {
        Some(i) => Some(s[i]),
        None => None,
    }
}

/// The list with `x` in the place of the first entry that has its id, or behind the rest.
pub open spec fn placed<T: Keyed>(s: Seq<T::V>, x: T::V) -> Seq<T::V> {
    match slot::<T>(s, T::key(x)) {
        Some(i) => s.update(i, x),
        None => s.push(x),
    }
}

/// The list without the first entry that has this id.
pub open spec fn dropped<T: Keyed>(s: Seq<T::V>, id: <T::Id as View>::V) -> Seq<T::V> {
    match slot::<T>(s, id) {
        Some(i) => s.remove(i),
        None => s,
    }
}

/// No two entries have the same id.
pub open spec fn distinct<T: Keyed>(s: Seq<T::V>) -> bool {
    forall|i: int, j: int|
        0 <= i < j < s.len() ==> T::key(#[trigger] s[i]) != T::key(#[trigger] s[j])
}

/// A first position is the slot.
pub proof fn lemma_slot<T: Keyed>(s: Seq<T::V>, id: <T::Id as View>::V, i: int)
    requires
        found_at::<T>(s, id, i),
    ensures
        slot::<T>(s, id) == Some(i),
{
    let k = choose|k: int| found_at::<T>(s, id, k);
    assert(found_at::<T>(s, id, k));
    assert(k == i);
}

/// Where no entry has the id there is no slot; where one has, there is.
pub proof fn lemma_no_slot<T: Keyed>(s: Seq<T::V>, id: <T::Id as View>::V)
    ensures
        slot::<T>(s, id) is None <==> forall|j: int|
            0 <= j < s.len() ==> T::key(#[trigger] s[j]) != id,
        slot::<T>(s, id) matches Some(i) ==> found_at::<T>(s, id, i),
    decreases s.len(),
{
    if s.len() > 0 {
        let t = s.drop_last();
        lemma_no_slot::<T>(t, id);
        match slot::<T>(t, id) {
            Some(i) => {
                assert(T::key(t[i]) == T::key(s[i]));
                assert forall|j: int| 0 <= j < i implies T::key(#[trigger] s[j]) != id by {
                    assert(t[j] == s[j]);
                }
                assert(found_at::<T>(s, id, i));
            },
            None => {
                assert forall|j: int| 0 <= j < s.len() - 1 implies T::key(#[trigger] s[j])
                    != id by {
                    assert(t[j] == s[j]);
                }
                if T::key(s.last()) == id {
                    assert(found_at::<T>(s, id, s.len() - 1));
                }
            },
        }
    }
}

/// What was put under an id is what is found there, and nothing else changes.
pub proof fn placed_is_fetched<T: Keyed>(s: Seq<T::V>, x: T::V, id: <T::Id as View>::V)
    ensures
        fetched::<T>(placed::<T>(s, x), T::key(x)) == Some(x),
        id != T::key(x) ==> fetched::<T>(placed::<T>(s, x), id) == fetched::<T>(s, id),
{
    let p = placed::<T>(s, x);
    lemma_no_slot::<T>(s, T::key(x));
    match slot::<T>(s, T::key(x)) {
        Some(i) => {
            assert forall|j: int| 0 <= j < i implies T::key(#[trigger] p[j]) != T::key(x) by {
                assert(p[j] == s[j]);
            }
            lemma_slot::<T>(p, T::key(x), i);
        },
        None => {
            assert forall|j: int| 0 <= j < s.len() implies T::key(#[trigger] p[j]) != T::key(
                x,
            ) by {
                assert(p[j] == s[j]);
            }
            lemma_slot::<T>(p, T::key(x), s.len() as int);
        },
    }
    if id != T::key(x) {
        lemma_no_slot::<T>(s, id);
        lemma_no_slot::<T>(p, id);
        match slot::<T>(s, id) {
            Some(k) => {
                assert forall|j: int| 0 <= j < k implies T::key(#[trigger] p[j]) != id by {
                    if j < s.len() && p[j] != x {
                        assert(p[j] == s[j]);
                    }
                }
                assert(T::key(s[k]) == id);
                assert(p[k] == s[k]);
                lemma_slot::<T>(p, id, k);
            },
            None => {
                assert forall|j: int| 0 <= j < p.len() implies T::key(#[trigger] p[j]) != id by {
                    if p[j] != x {
                        assert(p[j] == s[j]);
                    }
                }
            },
        }
    }
}

/// Entries that keep their ids keep them distinct.
pub proof fn same_ids_are_distinct<T: Keyed>(s: Seq<T::V>, t: Seq<T::V>)
    requires
        distinct::<T>(s),
        s.len() == t.len(),
        forall|i: int| 0 <= i < s.len() ==> T::key(#[trigger] t[i]) == T::key(s[i]),
    ensures
        distinct::<T>(t),
{
    assert forall|i: int, j: int| 0 <= i < j < t.len() implies T::key(#[trigger] t[i]) != T::key(
        #[trigger] t[j],
    ) by {
        assert(T::key(s[i]) != T::key(s[j]));
    }
}

/// Putting an entry keeps the ids distinct.
pub proof fn putting_keeps_ids_distinct<T: Keyed>(s: Seq<T::V>, x: T::V)
    requires
        distinct::<T>(s),
    ensures
        distinct::<T>(placed::<T>(s, x)),
{
    lemma_no_slot::<T>(s, T::key(x));
    let p = placed::<T>(s, x);
    assert forall|i: int, j: int| 0 <= i < j < p.len() implies T::key(#[trigger] p[i]) != T::key(
        #[trigger] p[j],
    ) by {
        match slot::<T>(s, T::key(x)) {
            Some(k) => {
                if i != k {
                    assert(p[i] == s[i]);
                }
                if j != k {
                    assert(p[j] == s[j]);
                }
            },
            None => {
                assert(p[i] == s[i]);
                if j < s.len() {
                    assert(p[j] == s[j]);
                }
            },
        }
    }
}

/// Dropping an entry keeps the ids distinct, and the dropped id is then found no more.
pub proof fn dropping_keeps_ids_distinct<T: Keyed>(s: Seq<T::V>, id: <T::Id as View>::V)
    requires
        distinct::<T>(s),
    ensures
        distinct::<T>(dropped::<T>(s, id)),
        fetched::<T>(dropped::<T>(s, id), id) is None,
{
    lemma_no_slot::<T>(s, id);
    let d = dropped::<T>(s, id);
    match slot::<T>(s, id) {
        Some(k) => {
            assert forall|i: int| 0 <= i < d.len() implies #[trigger] d[i] == s[if i < k {
                i
            } else {
                i + 1
            }] by {}
            assert forall|i: int| 0 <= i < d.len() implies T::key(#[trigger] d[i]) != id by {
                let o = if i < k {
                    i
                } else {
                    i + 1
                };
                assert(d[i] == s[o]);
                assert(T::key(s[k]) == id);
            }
            assert forall|i: int, j: int| 0 <= i < j < d.len() implies T::key(#[trigger] d[i])
                != T::key(#[trigger] d[j]) by {
                let a = if i < k {
                    i
                } else {
                    i + 1
                };
                let b = if j < k {
                    j
                } else {
                    j + 1
                };
                assert(d[i] == s[a] && d[j] == s[b]);
            }
        },
        None => {},
    }
    lemma_no_slot::<T>(d, id);
}

/// The position of the first entry with this id.
pub fn position<T: Keyed>(list: &Vec<T>, id: &T::Id) -> (r: Option<usize>)
    ensures
        slot::<T>(views(list@), id@) == (match r {
            Some(i) => Some(i as int),
            None => None,
        }),
        r matches Some(i) ==> i < list@.len(),
{
    for i in 0..list.len()
        invariant
            i <= list@.len(),
            forall|j: int| 0 <= j < i ==> T::key(#[trigger] views(list@)[j]) != id@,
    {
        if list[i].has_key(id) {
            proof {
                lemma_slot::<T>(views(list@), id@, i as int);
            }
            return Some(i);
        }
    }
    proof {
        lemma_no_slot::<T>(views(list@), id@);
    }
    None
}

/// Puts an entry at the slot of its id, or behind the rest where there is none.
pub fn put_at<T: Keyed>(list: &mut Vec<T>, at: Option<usize>, x: T)
    requires
        slot::<T>(views(old(list)@), T::key(x@)) == (match at {
            Some(i) => Some(i as int),
            None => None,
        }),
        at matches Some(i) ==> i < old(list)@.len(),
    ensures
        views(final(list)@) == placed::<T>(views(old(list)@), x@),
{
    let ghost before = views(list@);
    match at {
        Some(i) => {
            list.set(i, x);
            assert(views(list@) =~= before.update(i as int, x@));
        },
        None => {
            list.push(x);
            assert(views(list@) =~= before.push(x@));
        },
    }
}

/// Takes the first entry with this id out of the list.
pub fn take<T: Keyed>(list: &mut Vec<T>, id: &T::Id) -> (r: Option<T>)
    ensures
        views(final(list)@) == dropped::<T>(views(old(list)@), id@),
        fetched::<T>(views(old(list)@), id@) == (match r {
            Some(x) => Some(x@),
            None => None,
        }),
{
    let ghost before = views(list@);
    match position(list, id) {
        Some(i) => {
            let x = list.remove(i);
            assert(views(list@) =~= before.remove(i as int));
            Some(x)
        },
        None => None,
    }
}

// ---- laws ------------------------------------------------------------------

/// An id fetches the first entry that has it, and nothing where none has.
pub proof fn the_first_entry_is_fetched<T: Keyed>(s: Seq<T::V>, id: <T::Id as View>::V, i: int)
    ensures
        0 <= i < s.len() && T::key(s[i]) == id && (forall|j: int|
            0 <= j < i ==> T::key(#[trigger] s[j]) != id) ==> fetched::<T>(s, id) == Some(s[i]),
        (forall|j: int| 0 <= j < s.len() ==> T::key(#[trigger] s[j]) != id) ==> fetched::<T>(s, id)
            is None,
{
    lemma_no_slot::<T>(s, id);
    if found_at::<T>(s, id, i) {
        lemma_slot::<T>(s, id, i);
    }
}

/// Putting an entry leaves every other in its place: it takes the place of the first with its id,
/// or comes behind the rest where there is none.
pub proof fn putting_leaves_the_others<T: Keyed>(s: Seq<T::V>, x: T::V, j: int)
    requires
        0 <= j < s.len(),
    ensures
        T::key(s[j]) != T::key(x) ==> placed::<T>(s, x)[j] == s[j],
        fetched::<T>(s, T::key(x)) is Some ==> placed::<T>(s, x).len() == s.len(),
        fetched::<T>(s, T::key(x)) is None ==> placed::<T>(s, x).len() == s.len() + 1
            && placed::<T>(s, x).last() == x,
{
    lemma_no_slot::<T>(s, T::key(x));
}

/// Dropping an id takes out one entry where there is one, leaves the others in their order, and
/// what other ids fetch stays what it was.
pub proof fn dropping_leaves_the_others<T: Keyed>(
    s: Seq<T::V>,
    id: <T::Id as View>::V,
    other: <T::Id as View>::V,
)
    requires
        other != id,
    ensures
        fetched::<T>(dropped::<T>(s, id), other) == fetched::<T>(s, other),
        fetched::<T>(s, id) is None ==> dropped::<T>(s, id) == s,
        fetched::<T>(s, id) is Some ==> dropped::<T>(s, id).len() == s.len() - 1,
{
    let d = dropped::<T>(s, id);
    lemma_no_slot::<T>(s, id);
    lemma_no_slot::<T>(s, other);
    lemma_no_slot::<T>(d, other);
    if let Some(k) = slot::<T>(s, id) {
        assert forall|i: int| 0 <= i < d.len() implies #[trigger] d[i] == s[if i < k {
            i
        } else {
            i + 1
        }] by {}
        match slot::<T>(s, other) {
            Some(o) => {
                let at = if o < k {
                    o
                } else {
                    o - 1
                };
                assert(T::key(s[o]) == other && T::key(s[k]) == id);
                assert(d[at] == s[o]);
                assert forall|j: int| 0 <= j < at implies T::key(#[trigger] d[j]) != other by {
                    let p = if j < k {
                        j
                    } else {
                        j + 1
                    };
                    assert(d[j] == s[p]);
                    assert(T::key(s[p]) != other);
                }
                lemma_slot::<T>(d, other, at);
            },
            None => {
                assert forall|j: int| 0 <= j < d.len() implies T::key(#[trigger] d[j]) != other by {
                    let p = if j < k {
                        j
                    } else {
                        j + 1
                    };
                    assert(d[j] == s[p]);
                }
            },
        }
    }
}

} // verus!
