//! The stop flags of the running probe loops.
use std::sync::atomic::{AtomicBool, Ordering};
use std::sync::Arc;
use vstd::prelude::*;

verus! {

/// The stop flag of each running probe loop, by target id, so that targets can be added,
/// restarted and removed while the rest keep running.
pub struct Probes {
    inner: Vec<(String, Arc<AtomicBool>)>,
}

/// No id occurs twice.
spec fn distinct(s: Seq<(String, Arc<AtomicBool>)>) -> bool {
    forall|i: int, j: int| 0 <= i < j < s.len() ==> (#[trigger] s[i]).0@ != (#[trigger] s[j]).0@
}

/// Position `i` holds the entry of `id`.
spec fn holds(s: Seq<(String, Arc<AtomicBool>)>, id: Seq<char>, i: int) -> bool {
    0 <= i < s.len() && s[i].0@ == id
}

/// The flags by id.
spec fn as_map(s: Seq<(String, Arc<AtomicBool>)>) -> Map<Seq<char>, Arc<AtomicBool>> {
    Map::new(
        |id: Seq<char>| exists|i: int| holds(s, id, i),
        |id: Seq<char>| s[choose|i: int| holds(s, id, i)].1,
    )
}

proof fn lemma_entry(s: Seq<(String, Arc<AtomicBool>)>, i: int)
    requires
        distinct(s),
        0 <= i < s.len(),
    ensures
        as_map(s).dom().contains(s[i].0@),
        as_map(s)[s[i].0@] == s[i].1,
{
    assert(holds(s, s[i].0@, i));
    let k = choose|k: int| holds(s, s[i].0@, k);
    if k < i {
        assert(s[k].0@ != s[i].0@);
    } else if i < k {
        assert(s[i].0@ != s[k].0@);
    }
}

/// A list that agrees with a map entry by entry, and lists all of it, stands for that map.
proof fn lemma_same_map(
    s: Seq<(String, Arc<AtomicBool>)>,
    m: Map<Seq<char>, Arc<AtomicBool>>,
)
    requires
        distinct(s),
        forall|i: int|
            0 <= i < s.len() ==> m.dom().contains((#[trigger] s[i]).0@) && m[s[i].0@] == s[i].1,
        forall|id: Seq<char>| #[trigger] m.dom().contains(id) ==> exists|i: int| holds(s, id, i),
    ensures
        as_map(s) == m,
{
    assert forall|id: Seq<char>| as_map(s).dom().contains(id) implies m.dom().contains(id)
        && as_map(s)[id] == m[id] by {
        let i = choose|i: int| holds(s, id, i);
        lemma_entry(s, i);
        assert(m.dom().contains(s[i].0@));
    }
    assert(as_map(s) =~= m);
}

impl View for Probes {
    type V = Map<Seq<char>, Arc<AtomicBool>>;

    closed spec fn view(&self) -> Map<Seq<char>, Arc<AtomicBool>> {
        as_map(self.inner@)
    }
}

/// The position of the entry of `id`.
fn position(s: &Vec<(String, Arc<AtomicBool>)>, id: &str) -> (r: Option<usize>)
    ensures
        match r {
            Some(i) => holds(s@, id@, i as int),
            None => forall|i: int| !holds(s@, id@, i),
        },
{
    for i in 0..s.len()
        invariant
            forall|j: int| 0 <= j < i ==> !holds(s@, id@, j),
    {
        if s[i].0.as_str().eq(id) {
            return Some(i);
        }
    }
    None
}

/// Raises a stop flag.
fn raise(flag: &AtomicBool) {
    flag.store(true, Ordering::Relaxed);
}

impl Probes {
    #[verifier::type_invariant]
    spec fn well_formed(&self) -> bool {
        distinct(self.inner@)
    }

    /// No probe is running.
    pub fn new() -> (r: Self)
        ensures
            r@ == Map::<Seq<char>, Arc<AtomicBool>>::empty(),
    {
        let r = Probes { inner: Vec::new() };
        assert(r@ =~= Map::<Seq<char>, Arc<AtomicBool>>::empty());
        r
    }

    /// Registers a target and returns a fresh stop flag for its probe loop. A flag that was
    /// registered under the same id is forgotten, not raised.
    pub fn start(&mut self, id: &str) -> (flag: Arc<AtomicBool>)
        ensures
            final(self)@ == old(self)@.insert(id@, flag),
    {
        proof {
            use_type_invariant(&*self);
        }
        let ghost before = self.inner@;
        let flag = Arc::new(AtomicBool::new(false));
        let mut s: Vec<(String, Arc<AtomicBool>)> = Vec::new();
        std::mem::swap(&mut s, &mut self.inner);
        let entry = (id.to_owned(), flag.clone());
        let ghost m = as_map(before).insert(id@, flag);
        match position(&s, id) {
            Some(k) => {
                s.set(k, entry);
                proof {
                    assert forall|i: int| 0 <= i < s@.len() implies m.dom().contains(
                        (#[trigger] s@[i]).0@,
                    ) && m[s@[i].0@] == s@[i].1 by {
                        if i != k {
                            lemma_entry(before, i);
                            assert(before[i].0@ != before[k as int].0@);
                        }
                    }
                    assert forall|x: Seq<char>| #[trigger]
                        m.dom().contains(x) implies exists|i: int| holds(s@, x, i) by {
                        if x == id@ {
                            assert(holds(s@, x, k as int));
                        } else {
                            let i = choose|i: int| holds(before, x, i);
                            assert(holds(s@, x, i));
                        }
                    }
                }
            },
            None => {
                s.push(entry);
                proof {
                    assert forall|i: int, j: int| 0 <= i < j < s@.len() implies (
                    #[trigger] s@[i]).0@ != (#[trigger] s@[j]).0@ by {
                        assert(!holds(before, id@, i));
                    }
                    assert forall|i: int| 0 <= i < s@.len() implies m.dom().contains(
                        (#[trigger] s@[i]).0@,
                    ) && m[s@[i].0@] == s@[i].1 by {
                        if i < before.len() {
                            lemma_entry(before, i);
                            assert(!holds(before, id@, i));
                        }
                    }
                    assert forall|x: Seq<char>| #[trigger]
                        m.dom().contains(x) implies exists|i: int| holds(s@, x, i) by {
                        if x == id@ {
                            assert(holds(s@, x, before.len() as int));
                        } else {
                            let i = choose|i: int| holds(before, x, i);
                            assert(holds(s@, x, i));
                        }
                    }
                }
            },
        }
        proof {
            lemma_same_map(s@, m);
        }
        self.inner = s;
        flag
    }

    /// Raises the stop flag of the target's probe loop, if one is running, and forgets it: the flag
    /// is the one that [`Probes::take_flag`] would take. That
    /// the flag then reads `true` is the promise of `AtomicBool::store`, whose contents have no
    /// model here.
    pub fn stop(&mut self, id: &str)
        ensures
            final(self)@ == old(self)@.remove(id@),
    {
        match self.take_flag(id) {
            Some(flag) => raise(&flag),
            None => {},
        }
    }

    /// Takes the stop flag of the target's probe loop off the list, if one is running.
    pub fn take_flag(&mut self, id: &str) -> (r: Option<Arc<AtomicBool>>)
        ensures
            final(self)@ == old(self)@.remove(id@),
            r == if old(self)@.dom().contains(id@) {
                Some(old(self)@[id@])
            } else {
                None
            },
    {
        proof {
            use_type_invariant(&*self);
        }
        let ghost before = self.inner@;
        let mut s: Vec<(String, Arc<AtomicBool>)> = Vec::new();
        std::mem::swap(&mut s, &mut self.inner);
        let ghost m = as_map(before).remove(id@);
        let taken = match position(&s, id) {
            Some(k) => {
                let (_, flag) = s.remove(k);
                proof {
                    lemma_entry(before, k as int);
                    assert forall|i: int, j: int| 0 <= i < j < s@.len() implies (
                    #[trigger] s@[i]).0@ != (#[trigger] s@[j]).0@ by {
                        let a = if i < k { i } else { i + 1 };
                        let b = if j < k { j } else { j + 1 };
                        assert(before[a].0@ != before[b].0@);
                    }
                    assert forall|i: int| 0 <= i < s@.len() implies m.dom().contains(
                        (#[trigger] s@[i]).0@,
                    ) && m[s@[i].0@] == s@[i].1 by {
                        let a = if i < k { i } else { i + 1 };
                        lemma_entry(before, a);
                        if a < k {
                            assert(before[a].0@ != before[k as int].0@);
                        } else {
                            assert(before[k as int].0@ != before[a].0@);
                        }
                    }
                    assert forall|x: Seq<char>| #[trigger]
                        m.dom().contains(x) implies exists|i: int| holds(s@, x, i) by {
                        let i = choose|i: int| holds(before, x, i);
                        assert(holds(s@, x, if i < k { i } else { i - 1 }));
                    }
                }
                Some(flag)
            },
            None => {
                proof {
                    assert forall|i: int| 0 <= i < s@.len() implies m.dom().contains(
                        (#[trigger] s@[i]).0@,
                    ) && m[s@[i].0@] == s@[i].1 by {
                        lemma_entry(before, i);
                        assert(!holds(before, id@, i));
                    }
                }
                None
            },
        };
        proof {
            lemma_same_map(s@, m);
        }
        self.inner = s;
        taken
    }
}

} // verus!
