//! Version vectors (causal contexts) and dots, stored as a list of
//! `(actor, counter)` pairs with distinct actors.
use vstd::prelude::*;

use crate::causal::{
    bumped, concurrent, contains_dot, count_of, descends, happened_before, join, max_nat,
    ContextModel,
};

verus! {

/// A causal context: the counter of each actor that has been seen.
pub struct VersionVector {
    entries: Vec<(String, u64)>,
    model: Ghost<ContextModel>,
}

/// One causal event: an actor and its counter at the moment of a write.
pub struct Dot(pub String, pub u64);

impl View for VersionVector {
    type V = ContextModel;

    closed spec fn view(&self) -> ContextModel {
        self.model@
    }
}

impl View for Dot {
    type V = (Seq<char>, nat);

    open spec fn view(&self) -> (Seq<char>, nat) {
        (self.0@, self.1 as nat)
    }
}

/// Every name of `keys` is distinct.
pub open spec fn distinct_names(keys: Seq<String>) -> bool {
    forall|i: int, j: int|
        0 <= i < keys.len() && 0 <= j < keys.len() && i != j ==> #[trigger] keys[i]@
            != #[trigger] keys[j]@
}

/// Where `k` stands in `keys`, if it is there.
fn position(keys: &Vec<String>, k: &String) -> (r: Option<usize>)
    ensures
        match r {
            Some(i) => i < keys@.len() && keys@[i as int]@ == k@,
            None => forall|j: int| 0 <= j < keys@.len() ==> #[trigger] keys@[j]@ != k@,
        },
{
    let mut i: usize = 0;
    while i < keys.len()
        invariant
            i <= keys@.len(),
            forall|j: int| 0 <= j < i ==> #[trigger] keys@[j]@ != k@,
        decreases keys@.len() - i,
    {
        if keys[i] == *k {
            return Some(i);
        }
        i = i + 1;
    }
    None
}

impl VersionVector {
    /// The stored list and the model agree, and actors are distinct.
    pub closed spec fn wf(&self) -> bool {
        &&& forall|i: int, j: int|
            0 <= i < self.entries@.len() && 0 <= j < self.entries@.len() && i != j
                ==> #[trigger] self.entries@[i].0@ != #[trigger] self.entries@[j].0@
        &&& forall|i: int|
            0 <= i < self.entries@.len() ==> {
                &&& self.model@.dom().contains(#[trigger] self.entries@[i].0@)
                &&& self.model@[self.entries@[i].0@] == self.entries@[i].1 as nat
            }
        &&& forall|k: Seq<char>|
            #[trigger] self.model@.dom().contains(k) ==> exists|i: int|
                0 <= i < self.entries@.len() && #[trigger] self.entries@[i].0@ == k
    }

    /// The empty context.
    pub fn new() -> (r: VersionVector)
        ensures
            r.wf(),
            r@ == Map::<Seq<char>, nat>::empty(),
    {
        VersionVector { entries: Vec::new(), model: Ghost(Map::empty()) }
    }

    /// Where `actor` stands in the stored list, if it is there.
    fn find(&self, actor: &String) -> (r: Option<usize>)
        requires
            self.wf(),
        ensures
            match r {
                Some(i) => i < self.entries@.len() && self.entries@[i as int].0@ == actor@
                    && self@.dom().contains(actor@) && self@[actor@] == self.entries@[i as int].1,
                None => !self@.dom().contains(actor@),
            },
    {
        let mut i: usize = 0;
        while i < self.entries.len()
            invariant
                self.wf(),
                i <= self.entries@.len(),
                forall|j: int| 0 <= j < i ==> #[trigger] self.entries@[j].0@ != actor@,
            decreases self.entries@.len() - i,
        {
            if self.entries[i].0 == *actor {
                return Some(i);
            }
            i = i + 1;
        }
        None
    }

    /// The counter stored for `actor`, or `None` where the actor is absent.
    pub fn get(&self, actor: &str) -> (r: Option<u64>)
        requires
            self.wf(),
        ensures
            r == (if self@.dom().contains(actor@) {
                Some(self@[actor@] as u64)
            } else {
                None::<u64>
            }),
    {
        let a = actor.to_owned();
        match self.find(&a) {
            Some(i) => Some(self.entries[i].1),
            None => None,
        }
    }

    /// The counter of `actor`, zero where the actor is absent.
    pub fn counter(&self, actor: &str) -> (r: u64)
        requires
            self.wf(),
        ensures
            r as nat == count_of(self@, actor@),
    {
        let a = actor.to_owned();
        self.count_at(&a)
    }

    fn count_at(&self, actor: &String) -> (r: u64)
        requires
            self.wf(),
        ensures
            r as nat == count_of(self@, actor@),
    {
        match self.find(actor) {
            Some(i) => self.entries[i].1,
            None => 0,
        }
    }

    /// A copy of this context.
    pub fn snapshot(&self) -> (r: VersionVector)
        requires
            self.wf(),
        ensures
            r.wf(),
            r@ == self@,
    {
        let mut entries: Vec<(String, u64)> = Vec::new();
        let mut i: usize = 0;
        while i < self.entries.len()
            invariant
                self.wf(),
                i <= self.entries@.len(),
                entries@.len() == i,
                forall|j: int|
                    0 <= j < i ==> (#[trigger] entries@[j]).0@ == self.entries@[j].0@
                        && entries@[j].1 == self.entries@[j].1,
            decreases self.entries@.len() - i,
        {
            entries.push((self.entries[i].0.clone(), self.entries[i].1));
            i = i + 1;
        }
        let r = VersionVector { entries, model: Ghost(self@) };
        assert forall|k: Seq<char>| #[trigger] r.model@.dom().contains(k) implies exists|i: int|
            0 <= i < r.entries@.len() && #[trigger] r.entries@[i].0@ == k by {
            let i = choose|i: int| 0 <= i < self.entries@.len() && #[trigger] self.entries@[i].0@ == k;
            assert(r.entries@[i].0@ == k);
        }
        r
    }

    /// This context with the counter of `node_id` raised by one (set to one
    /// where it was absent).
    pub fn increment(self, node_id: &str) -> (r: Self)
        requires
            self.wf(),
            count_of(self@, node_id@) < u64::MAX,
        ensures
            r.wf(),
            r@ == bumped(self@, node_id@),
    {
        let mut s = self;
        let a = node_id.to_owned();
        let ghost m = s@;
        let ghost before = s.entries@;
        let ghost mut at: int = 0;
        match s.find(&a) {
            Some(i) => {
                let c = s.entries[i].1;
                s.entries.set(i, (a, c + 1));
                proof {
                    at = i as int;
                }
            },
            None => {
                s.entries.push((a, 1));
                proof {
                    at = before.len() as int;
                }
            },
        }
        s.model = Ghost(bumped(m, node_id@));
        assert(s.entries@[at].0@ == node_id@);
        assert forall|k: Seq<char>| #[trigger] s.model@.dom().contains(k) implies exists|i: int|
            0 <= i < s.entries@.len() && #[trigger] s.entries@[i].0@ == k by {
            if k != node_id@ {
                assert(m.dom().contains(k));
                let i = choose|i: int| 0 <= i < before.len() && #[trigger] before[i].0@ == k;
                assert(s.entries@[i].0@ == k);
            }
        }
        s
    }
    /// The actors of `self` and of `w`, each once.
    fn all_keys(&self, w: &VersionVector) -> (r: Vec<String>)
        requires
            self.wf(),
            w.wf(),
        ensures
            distinct_names(r@),
            forall|j: int|
                0 <= j < r@.len() ==> self@.dom().contains(#[trigger] r@[j]@) || w@.dom().contains(
                    r@[j]@,
                ),
            forall|k: Seq<char>|
                self@.dom().contains(k) || w@.dom().contains(k) ==> exists|j: int|
                    0 <= j < r@.len() && #[trigger] r@[j]@ == k,
    {
        let mut keys: Vec<String> = Vec::new();
        let mut i: usize = 0;
        while i < self.entries.len()
            invariant
                self.wf(),
                i <= self.entries@.len(),
                keys@.len() == i,
                forall|j: int| 0 <= j < i ==> (#[trigger] keys@[j])@ == self.entries@[j].0@,
            decreases self.entries@.len() - i,
        {
            keys.push(self.entries[i].0.clone());
            i = i + 1;
        }
        let n = keys.len();
        let mut i: usize = 0;
        while i < w.entries.len()
            invariant
                self.wf(),
                w.wf(),
                n == self.entries@.len(),
                i <= w.entries@.len(),
                n <= keys@.len(),
                distinct_names(keys@),
                forall|j: int| 0 <= j < n ==> (#[trigger] keys@[j])@ == self.entries@[j].0@,
                forall|j: int|
                    0 <= j < keys@.len() ==> self@.dom().contains(#[trigger] keys@[j]@)
                        || w@.dom().contains(keys@[j]@),
                forall|j: int|
                    0 <= j < i ==> exists|p: int|
                        0 <= p < keys@.len() && #[trigger] keys@[p]@ == (#[trigger] w.entries@[j]).0@,
            decreases w.entries@.len() - i,
        {
            let ghost wk = w.entries@[i as int].0@;
            let ghost old_keys = keys@;
            match position(&keys, &w.entries[i].0) {
                Some(p) => {
                    assert(keys@[p as int]@ == wk);
                },
                None => {
                    keys.push(w.entries[i].0.clone());
                    assert(keys@[keys@.len() - 1]@ == wk);
                },
            }
            assert forall|j: int| 0 <= j <= i implies exists|p: int|
                0 <= p < keys@.len() && #[trigger] keys@[p]@ == (#[trigger] w.entries@[j]).0@ by {
                if j < i {
                    let p = choose|p: int|
                        0 <= p < old_keys.len() && #[trigger] old_keys[p]@ == (#[trigger] w.entries@[j]).0@;
                    assert(keys@[p] == old_keys[p]);
                }
            }
            i = i + 1;
        }
        assert forall|k: Seq<char>| self@.dom().contains(k) || w@.dom().contains(k) implies exists|j: int|
            0 <= j < keys@.len() && #[trigger] keys@[j]@ == k by {
            if self@.dom().contains(k) {
                let i = choose|i: int| 0 <= i < self.entries@.len() && #[trigger] self.entries@[i].0@ == k;
                assert(keys@[i]@ == k);
            } else {
                let i = choose|i: int| 0 <= i < w.entries@.len() && #[trigger] w.entries@[i].0@ == k;
                assert(w.entries@[i].0@ == k);
            }
        }
        keys
    }

    /// Whether this context has seen everything that `w` has seen.
    pub fn descends(&self, w: &VersionVector) -> (r: bool)
        requires
            self.wf(),
            w.wf(),
        ensures
            r == descends(self@, w@),
    {
        let keys = self.all_keys(w);
        let mut i: usize = 0;
        while i < keys.len()
            invariant
                self.wf(),
                w.wf(),
                i <= keys@.len(),
                forall|j: int|
                    0 <= j < i ==> count_of(self@, (#[trigger] keys@[j])@) >= count_of(w@, keys@[j]@),
            decreases keys@.len() - i,
        {
            let v1 = self.count_at(&keys[i]);
            let v2 = w.count_at(&keys[i]);
            if v1 < v2 {
                return false;
            }
            i = i + 1;
        }
        assert forall|k: Seq<char>| #[trigger] count_of(self@, k) >= count_of(w@, k) by {
            if self@.dom().contains(k) || w@.dom().contains(k) {
                let j = choose|j: int| 0 <= j < keys@.len() && #[trigger] keys@[j]@ == k;
            }
        }
        true
    }

    /// Whether neither of the two contexts descends from the other.
    pub fn concurrent(&self, w: &VersionVector) -> (r: bool)
        requires
            self.wf(),
            w.wf(),
        ensures
            r == concurrent(self@, w@),
    {
        !(self.descends(w) || w.descends(self))
    }

    /// Whether this context strictly precedes `w`: no counter is above the
    /// one of `w` and at least one is below it.
    pub fn happened_before(&self, w: &VersionVector) -> (r: bool)
        requires
            self.wf(),
            w.wf(),
        ensures
            r == happened_before(self@, w@),
    {
        let keys = self.all_keys(w);
        let mut strict = false;
        let mut i: usize = 0;
        while i < keys.len()
            invariant
                self.wf(),
                w.wf(),
                i <= keys@.len(),
                forall|j: int|
                    0 <= j < i ==> count_of(self@, (#[trigger] keys@[j])@) <= count_of(w@, keys@[j]@),
                strict ==> exists|j: int|
                    0 <= j < i && count_of(self@, (#[trigger] keys@[j])@) < count_of(w@, keys@[j]@),
                !strict ==> forall|j: int|
                    0 <= j < i ==> count_of(self@, (#[trigger] keys@[j])@) == count_of(w@, keys@[j]@),
            decreases keys@.len() - i,
        {
            let v1 = self.count_at(&keys[i]);
            let v2 = w.count_at(&keys[i]);
            if v1 > v2 {
                return false;
            }
            if v1 < v2 {
                strict = true;
            }
            i = i + 1;
        }
        assert forall|k: Seq<char>| #[trigger] count_of(self@, k) <= count_of(w@, k) by {
            if self@.dom().contains(k) || w@.dom().contains(k) {
                let j = choose|j: int| 0 <= j < keys@.len() && #[trigger] keys@[j]@ == k;
            }
        }
        if strict {
            let ghost j = choose|j: int|
                0 <= j < keys@.len() && count_of(self@, (#[trigger] keys@[j])@) < count_of(w@, keys@[j]@);
            assert(count_of(self@, keys@[j]@) < count_of(w@, keys@[j]@));
        } else {
            assert forall|k: Seq<char>| #[trigger] count_of(self@, k) >= count_of(w@, k) by {
                if self@.dom().contains(k) || w@.dom().contains(k) {
                    let j = choose|j: int| 0 <= j < keys@.len() && #[trigger] keys@[j]@ == k;
                }
            }
        }
        strict
    }

    /// The pointwise maximum of the two contexts, over the union of their
    /// actors.
    pub fn merge(&self, w: &VersionVector) -> (r: VersionVector)
        requires
            self.wf(),
            w.wf(),
        ensures
            r.wf(),
            r@ == join(self@, w@),
    {
        let keys = self.all_keys(w);
        let mut entries: Vec<(String, u64)> = Vec::new();
        let mut i: usize = 0;
        while i < keys.len()
            invariant
                self.wf(),
                w.wf(),
                i <= keys@.len(),
                entries@.len() == i,
                forall|j: int|
                    0 <= j < i ==> (#[trigger] entries@[j]).0@ == keys@[j]@ && entries@[j].1 as nat
                        == max_nat(count_of(self@, keys@[j]@), count_of(w@, keys@[j]@)),
            decreases keys@.len() - i,
        {
            let e1 = self.count_at(&keys[i]);
            let e2 = w.count_at(&keys[i]);
            let e = if e1 >= e2 {
                e1
            } else {
                e2
            };
            entries.push((keys[i].clone(), e));
            i = i + 1;
        }
        let r = VersionVector { entries, model: Ghost(join(self@, w@)) };
        assert forall|i: int, j: int|
            0 <= i < r.entries@.len() && 0 <= j < r.entries@.len() && i != j
                implies #[trigger] r.entries@[i].0@ != #[trigger] r.entries@[j].0@ by {
            assert(keys@[i]@ != keys@[j]@);
        }
        assert forall|k: Seq<char>| #[trigger] r.model@.dom().contains(k) implies exists|i: int|
            0 <= i < r.entries@.len() && #[trigger] r.entries@[i].0@ == k by {
            let j = choose|j: int| 0 <= j < keys@.len() && #[trigger] keys@[j]@ == k;
            assert(r.entries@[j].0@ == k);
        }
        r
    }

    /// Whether this context contains the event `w`.
    pub fn descends_dot(&self, w: &Dot) -> (r: bool)
        requires
            self.wf(),
        ensures
            r == contains_dot(self@, w@.0, w@.1),
    {
        let v = self.count_at(&w.0);
        v >= w.1
    }

    /// The dot of `node_id` in this context: the actor with its current
    /// counter, zero where it is absent.
    pub fn get_dot(&self, node_id: &str) -> (r: Dot)
        requires
            self.wf(),
        ensures
            r@ == (node_id@, count_of(self@, node_id@)),
    {
        let a = node_id.to_owned();
        let count = self.count_at(&a);
        Dot(a, count)
    }
}

impl Dot {
    /// Whether this event is at or past everything that `w` holds for its
    /// actor.
    pub fn descends_vv(&self, w: &VersionVector) -> (r: bool)
        requires
            w.wf(),
        ensures
            r == (self@.1 >= count_of(w@, self@.0)),
    {
        let v = w.count_at(&self.0);
        self.1 >= v
    }
}

} // verus!
