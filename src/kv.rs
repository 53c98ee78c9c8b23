//! A key-value store that keeps concurrent writes to a key as siblings and
//! decides on each write, from the writer's causal context, which stored
//! values the new one supersedes.
use vstd::prelude::*;

use crate::causal::{bumped, contains_dot, count_of, descends, join, ContextModel};
use crate::version_vector::{Dot, VersionVector};

verus! {

/// A stored payload together with the dot of the write that produced it.
pub struct Value {
    pub val: i64,
    pub dot: Dot,
}

/// A stored value as a payload and a dot `(actor, counter)`.
pub type RecordModel = (i64, (Seq<char>, nat));

/// The values stored for one key, in order.
pub type SiblingsModel = Seq<RecordModel>;

impl View for Value {
    type V = RecordModel;

    open spec fn view(&self) -> RecordModel {
        (self.val, self.dot@)
    }
}

/// The payload and dot of each value of `s`, in order.
pub open spec fn views(s: Seq<Value>) -> SiblingsModel {
    s.map_values(|v: Value| v@)
}

/// The siblings of `s` that a write made with context `c` does not
/// supersede: those whose dot `c` does not contain, in their order.
pub open spec fn survivors(s: SiblingsModel, c: ContextModel) -> SiblingsModel
    decreases s.len(),
{
    if s.len() == 0 {
        Seq::empty()
    } else {
        let rest = survivors(s.drop_last(), c);
        if contains_dot(c, s.last().1.0, s.last().1.1) {
            rest
        } else {
            rest.push(s.last())
        }
    }
}

/// Whether a write made with context `c` takes the fast path: `c` has seen
/// everything that the store `vv` knows.
pub open spec fn is_overwrite(vv: ContextModel, c: ContextModel) -> bool {
    descends(c, vv)
}

/// The store's causal context after a write by `actor` with context `c`.
pub open spec fn knowledge_after(vv: ContextModel, c: ContextModel, actor: Seq<char>) -> ContextModel {
    if is_overwrite(vv, c) {
        bumped(vv, actor)
    } else {
        bumped(join(vv, c), actor)
    }
}

/// The siblings stored under `key` in `m`; none where the key is absent.
pub open spec fn siblings_in(m: Map<Seq<char>, SiblingsModel>, key: Seq<char>) -> SiblingsModel {
    if m.dom().contains(key) {
        m[key]
    } else {
        Seq::empty()
    }
}

/// The siblings of `key` after a write of `val` by `actor` with context `c`
/// to a store with contents `m` and causal context `vv`.
pub open spec fn siblings_after(
    m: Map<Seq<char>, SiblingsModel>,
    vv: ContextModel,
    c: ContextModel,
    actor: Seq<char>,
    key: Seq<char>,
    val: i64,
) -> SiblingsModel {
    let written: RecordModel = (val, (actor, count_of(knowledge_after(vv, c, actor), actor)));
    if is_overwrite(vv, c) {
        seq![written]
    } else {
        survivors(siblings_in(m, key), c).push(written)
    }
}

/// A write never lowers a counter of the store's context, and the dot that it
/// gives the new value is known to the new context and to no earlier one.
pub proof fn lemma_write_advances_knowledge(vv: ContextModel, c: ContextModel, actor: Seq<char>)
    ensures
        descends(knowledge_after(vv, c, actor), vv),
        contains_dot(knowledge_after(vv, c, actor), actor, count_of(knowledge_after(vv, c, actor), actor)),
        !contains_dot(vv, actor, count_of(knowledge_after(vv, c, actor), actor)),
{
    let after = knowledge_after(vv, c, actor);
    if is_overwrite(vv, c) {
        assert forall|k: Seq<char>| #[trigger] count_of(after, k) >= count_of(vv, k) by {}
    } else {
        let j = join(vv, c);
        assert forall|k: Seq<char>| #[trigger] count_of(j, k) >= count_of(vv, k) by {
            if vv.dom().contains(k) {
                assert(j.dom().contains(k));
            }
        }
        assert forall|k: Seq<char>| #[trigger] count_of(after, k) >= count_of(vv, k) by {
            assert(count_of(j, k) >= count_of(vv, k));
        }
        assert(count_of(j, actor) >= count_of(vv, actor));
    }
}

/// Every dot stored in `m` is known to the context `vv`.
pub open spec fn dots_known(m: Map<Seq<char>, SiblingsModel>, vv: ContextModel) -> bool {
    forall|k: Seq<char>, i: int|
        m.dom().contains(k) && 0 <= i < m[k].len() ==> contains_dot(
            vv,
            (#[trigger] m[k][i]).1.0,
            m[k][i].1.1,
        )
}

/// Each sibling that survives a write was there before it.
pub proof fn lemma_survivors_subset(s: SiblingsModel, c: ContextModel)
    ensures
        forall|i: int|
            0 <= i < survivors(s, c).len() ==> s.contains(#[trigger] survivors(s, c)[i]),
    decreases s.len(),
{
    if s.len() > 0 {
        lemma_survivors_subset(s.drop_last(), c);
        let rest = survivors(s.drop_last(), c);
        assert forall|i: int| 0 <= i < survivors(s, c).len() implies s.contains(
            #[trigger] survivors(s, c)[i],
        ) by {
            if i < rest.len() {
                let x = rest[i];
                assert(s.drop_last().contains(x));
                let j = choose|j: int| 0 <= j < s.drop_last().len() && s.drop_last()[j] == x;
                assert(s[j] == x);
            } else {
                assert(s[s.len() - 1] == s.last());
            }
        }
    }
}

/// Every dot stored in the store stays known to the store's context across
/// a write.
pub proof fn lemma_write_keeps_dots_known(
    m: Map<Seq<char>, SiblingsModel>,
    vv: ContextModel,
    c: ContextModel,
    actor: Seq<char>,
    key: Seq<char>,
    val: i64,
)
    requires
        dots_known(m, vv),
    ensures
        dots_known(
            m.insert(key, siblings_after(m, vv, c, actor, key, val)),
            knowledge_after(vv, c, actor),
        ),
{
    let after = knowledge_after(vv, c, actor);
    let m2 = m.insert(key, siblings_after(m, vv, c, actor, key, val));
    lemma_write_advances_knowledge(vv, c, actor);
    lemma_survivors_subset(siblings_in(m, key), c);
    assert forall|k: Seq<char>, i: int|
        m2.dom().contains(k) && 0 <= i < m2[k].len() implies contains_dot(
        after,
        (#[trigger] m2[k][i]).1.0,
        m2[k][i].1.1,
    ) by {
        let x = m2[k][i];
        if k != key || !is_overwrite(vv, c) && i < m2[k].len() - 1 {
            let old_x: RecordModel = if k != key {
                m[k][i]
            } else {
                let sv = survivors(siblings_in(m, key), c);
                assert(x == sv[i]);
                let j = choose|j: int|
                    0 <= j < siblings_in(m, key).len() && siblings_in(m, key)[j] == x;
                m[key][j]
            };
            assert(old_x == x);
            assert(contains_dot(vv, x.1.0, x.1.1));
            assert(count_of(after, x.1.0) >= count_of(vv, x.1.0));
        }
    }
}

/// A copy of each value of `v`, in order.
fn copy_values(v: &Vec<Value>) -> (r: Vec<Value>)
    ensures
        views(r@) == views(v@),
{
    let mut r: Vec<Value> = Vec::new();
    let mut i: usize = 0;
    while i < v.len()
        invariant
            i <= v@.len(),
            views(r@) == views(v@).take(i as int),
        decreases v@.len() - i,
    {
        let x = &v[i];
        let y = Value { val: x.val, dot: Dot(x.dot.0.clone(), x.dot.1) };
        proof {
            assert(views(r@.push(y)) =~= views(r@).push(y@));
            assert(views(v@).take(i + 1) =~= views(v@).take(i as int).push(y@));
        }
        r.push(y);
        i = i + 1;
    }
    assert(views(v@).take(v@.len() as int) =~= views(v@));
    r
}

/// Drops each sibling whose dot the writer's `context` contains, keeps the
/// others in their order, and appends `new_val`.
pub fn merge_siblings(siblings: Vec<Value>, context: &VersionVector, new_val: Value) -> (r: Vec<Value>)
    requires
        context.wf(),
    ensures
        views(r@) == survivors(views(siblings@), context@).push(new_val@),
{
    let mut updated: Vec<Value> = Vec::new();
    let mut i: usize = 0;
    while i < siblings.len()
        invariant
            context.wf(),
            i <= siblings@.len(),
            views(updated@) == survivors(views(siblings@).take(i as int), context@),
        decreases siblings@.len() - i,
    {
        let v = &siblings[i];
        proof {
            let t = views(siblings@).take(i + 1);
            assert(t.drop_last() =~= views(siblings@).take(i as int));
            assert(t.last() == v@);
        }
        if !context.descends_dot(&v.dot) {
            let y = Value { val: v.val, dot: Dot(v.dot.0.clone(), v.dot.1) };
            proof {
                assert(views(updated@.push(y)) =~= views(updated@).push(y@));
            }
            updated.push(y);
        }
        i = i + 1;
    }
    assert(views(siblings@).take(siblings@.len() as int) =~= views(siblings@));
    proof {
        assert(views(updated@.push(new_val)) =~= views(updated@).push(new_val@));
    }
    updated.push(new_val);
    updated
}

/// The store: the siblings of each key and the causal context of every write
/// applied so far.
pub struct KvStore {
    entries: Vec<(String, Vec<Value>)>,
    vv: VersionVector,
    model: Ghost<Map<Seq<char>, SiblingsModel>>,
}

impl KvStore {
    /// Keys are distinct, and the stored list agrees with the model.
    pub closed spec fn wf(&self) -> bool {
        &&& self.vv.wf()
        &&& forall|i: int, j: int|
            0 <= i < self.entries@.len() && 0 <= j < self.entries@.len() && i != j
                ==> #[trigger] self.entries@[i].0@ != #[trigger] self.entries@[j].0@
        &&& forall|i: int|
            0 <= i < self.entries@.len() ==> {
                &&& self.model@.dom().contains(#[trigger] self.entries@[i].0@)
                &&& self.model@[self.entries@[i].0@] == views(self.entries@[i].1@)
            }
        &&& forall|k: Seq<char>|
            #[trigger] self.model@.dom().contains(k) ==> exists|i: int|
                0 <= i < self.entries@.len() && #[trigger] self.entries@[i].0@ == k
    }

    /// The siblings stored for each key that has been written.
    pub closed spec fn stored(&self) -> Map<Seq<char>, SiblingsModel> {
        self.model@
    }

    /// The causal context of all writes applied to the store.
    pub closed spec fn knowledge(&self) -> ContextModel {
        self.vv@
    }

    /// The empty store.
    pub fn new() -> (r: KvStore)
        ensures
            r.wf(),
            r.stored() == Map::<Seq<char>, SiblingsModel>::empty(),
            r.knowledge() == Map::<Seq<char>, nat>::empty(),
            dots_known(r.stored(), r.knowledge()),
    {
        KvStore { entries: Vec::new(), vv: VersionVector::new(), model: Ghost(Map::empty()) }
    }

    fn find(&self, key: &String) -> (r: Option<usize>)
        requires
            self.wf(),
        ensures
            match r {
                Some(i) => i < self.entries@.len() && self.entries@[i as int].0@ == key@
                    && self.stored().dom().contains(key@) && self.stored()[key@] == views(
                    self.entries@[i as int].1@,
                ),
                None => !self.stored().dom().contains(key@),
            },
    {
        let mut i: usize = 0;
        while i < self.entries.len()
            invariant
                self.wf(),
                i <= self.entries@.len(),
                forall|j: int| 0 <= j < i ==> #[trigger] self.entries@[j].0@ != key@,
            decreases self.entries@.len() - i,
        {
            if self.entries[i].0 == *key {
                return Some(i);
            }
            i = i + 1;
        }
        None
    }

    /// The siblings stored under `key`, if it was ever written, and a
    /// snapshot of the store's causal context to hand back on the next write.
    pub fn read(&self, key: &str) -> (r: (Option<Vec<Value>>, VersionVector))
        requires
            self.wf(),
        ensures
            r.1.wf(),
            r.1@ == self.knowledge(),
            match r.0 {
                Some(v) => self.stored().dom().contains(key@) && views(v@) == self.stored()[key@],
                None => !self.stored().dom().contains(key@),
            },
    {
        let k = key.to_owned();
        let found = match self.find(&k) {
            Some(i) => Some(copy_values(&self.entries[i].1)),
            None => None,
        };
        (found, self.vv.snapshot())
    }

    /// Stores `sibs` as the siblings of `key`.
    fn put(&mut self, key: &str, sibs: Vec<Value>)
        requires
            old(self).wf(),
        ensures
            final(self).wf(),
            final(self).stored() == old(self).stored().insert(key@, views(sibs@)),
            final(self).knowledge() == old(self).knowledge(),
    {
        let k = key.to_owned();
        let ghost m = self.model@;
        let ghost before = self.entries@;
        let ghost mut at: int = 0;
        match self.find(&k) {
            Some(i) => {
                self.entries.set(i, (k, sibs));
                proof {
                    at = i as int;
                }
            },
            None => {
                self.entries.push((k, sibs));
                proof {
                    at = before.len() as int;
                }
            },
        }
        self.model = Ghost(m.insert(key@, views(sibs@)));
        assert(self.entries@[at].0@ == key@);
        assert forall|k: Seq<char>| #[trigger] self.model@.dom().contains(k) implies exists|i: int|
            0 <= i < self.entries@.len() && #[trigger] self.entries@[i].0@ == k by {
            if k != key@ {
                assert(m.dom().contains(k));
                let i = choose|i: int| 0 <= i < before.len() && #[trigger] before[i].0@ == k;
                assert(self.entries@[i].0@ == k);
            }
        }
    }

    /// Applies a write of `val` to `key` by `actor`, who had seen `context`.
    ///
    /// Where `context` descends from the store's context, the store's
    /// context is incremented for `actor` and the new value replaces every
    /// sibling. Otherwise the store's context becomes its merge with
    /// `context`, incremented for `actor`; the siblings whose dot `context`
    /// contains are dropped, and the new value is appended to the rest.
    pub fn write(self, actor: &str, context: &VersionVector, key: &str, val: i64) -> (r: Self)
        requires
            self.wf(),
            context.wf(),
            count_of(self.knowledge(), actor@) < u64::MAX,
            count_of(context@, actor@) < u64::MAX,
        ensures
            r.wf(),
            r.knowledge() == knowledge_after(self.knowledge(), context@, actor@),
            r.stored() == self.stored().insert(
                key@,
                siblings_after(self.stored(), self.knowledge(), context@, actor@, key@, val),
            ),
            dots_known(self.stored(), self.knowledge()) ==> dots_known(r.stored(), r.knowledge()),
    {
        let mut s = self;
        let ghost m = s.stored();
        let ghost vv0 = s.knowledge();
        let r = if context.descends(&s.vv) {
            s.vv = s.vv.increment(actor);
            let dot = s.vv.get_dot(actor);
            let new_obj = Value { val, dot };
            let mut sibs: Vec<Value> = Vec::new();
            sibs.push(new_obj);
            assert(views(sibs@) =~= seq![new_obj@]);
            s.put(key, sibs);
            s
        } else {
            let frontier = s.vv.merge(context);
            let frontier = frontier.increment(actor);
            let dot = frontier.get_dot(actor);
            let new_obj = Value { val, dot };
            s.vv = frontier;
            let k = key.to_owned();
            let old_sibs = match s.find(&k) {
                Some(i) => copy_values(&s.entries[i].1),
                None => Vec::new(),
            };
            assert(views(old_sibs@) == siblings_in(m, key@)) by {
                if !m.dom().contains(key@) {
                    assert(views(old_sibs@) =~= Seq::<RecordModel>::empty());
                }
            }
            let sibs = merge_siblings(old_sibs, context, new_obj);
            s.put(key, sibs);
            s
        };
        proof {
            if dots_known(m, vv0) {
                lemma_write_keeps_dots_known(m, vv0, context@, actor@, key@, val);
            }
        }
        r
    }
}

} // verus!
