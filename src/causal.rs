//! The mathematical model of a causal context: a finite map from actor names
//! to counters, where an actor that is absent stands for a counter of zero.
use vstd::prelude::*;

verus! {

/// A causal context as a map from actor name to counter.
pub type ContextModel = Map<Seq<char>, nat>;

/// The counter of `actor` in `m`; an absent actor counts as zero.
pub open spec fn count_of(m: ContextModel, actor: Seq<char>) -> nat {
    if m.dom().contains(actor) {
        m[actor]
    } else {
        0
    }
}

/// The larger of two counters.
pub open spec fn max_nat(a: nat, b: nat) -> nat {
    if a >= b {
        a
    } else {
        b
    }
}

/// Pointwise maximum over the union of the actors of `a` and `b`.
pub open spec fn join(a: ContextModel, b: ContextModel) -> ContextModel {
    Map::new(
        |k: Seq<char>| a.dom().contains(k) || b.dom().contains(k),
        |k: Seq<char>| max_nat(count_of(a, k), count_of(b, k)),
    )
}

/// `m` with the counter of `actor` raised by one (set to one if absent).
pub open spec fn bumped(m: ContextModel, actor: Seq<char>) -> ContextModel {
    m.insert(actor, count_of(m, actor) + 1)
}

/// `a` has seen everything that `b` has seen: no counter of `a` is below the
/// counter of `b` for the same actor.
pub open spec fn descends(a: ContextModel, b: ContextModel) -> bool {
    forall|k: Seq<char>| #[trigger] count_of(a, k) >= count_of(b, k)
}

/// Neither context descends from the other.
pub open spec fn concurrent(a: ContextModel, b: ContextModel) -> bool {
    !descends(a, b) && !descends(b, a)
}

/// Strict causal precedence: no counter of `a` exceeds that of `b`, and at
/// least one is strictly smaller.
pub open spec fn happened_before(a: ContextModel, b: ContextModel) -> bool {
    &&& forall|k: Seq<char>| #[trigger] count_of(a, k) <= count_of(b, k)
    &&& exists|k: Seq<char>| #[trigger] count_of(a, k) < count_of(b, k)
}

/// Neither context strictly precedes the other.
pub open spec fn strictly_concurrent(a: ContextModel, b: ContextModel) -> bool {
    !happened_before(a, b) && !happened_before(b, a)
}

/// The event `(actor, counter)` is known to the context `m`.
pub open spec fn contains_dot(m: ContextModel, actor: Seq<char>, counter: nat) -> bool {
    count_of(m, actor) >= counter
}

/// Merging is commutative.
pub proof fn lemma_join_commutative(a: ContextModel, b: ContextModel)
    ensures
        join(a, b) == join(b, a),
{
    assert(join(a, b) =~= join(b, a));
}

/// Merging is associative.
pub proof fn lemma_join_associative(a: ContextModel, b: ContextModel, c: ContextModel)
    ensures
        join(join(a, b), c) == join(a, join(b, c)),
{
    assert(join(join(a, b), c) =~= join(a, join(b, c)));
}

/// Merging a context with itself gives it back.
pub proof fn lemma_join_idempotent(a: ContextModel)
    ensures
        join(a, a) == a,
{
    assert(join(a, a) =~= a);
}

/// The merge is the least upper bound: it descends from both inputs, and any
/// context that descends from both descends from the merge.
pub proof fn lemma_join_least_upper_bound(a: ContextModel, b: ContextModel, c: ContextModel)
    ensures
        descends(join(a, b), a),
        descends(join(a, b), b),
        descends(c, a) && descends(c, b) ==> descends(c, join(a, b)),
{
    assert forall|k: Seq<char>| #[trigger] count_of(join(a, b), k) == max_nat(count_of(a, k), count_of(b, k)) by {}
    if descends(c, a) && descends(c, b) {
        assert forall|k: Seq<char>| #[trigger] count_of(c, k) >= count_of(join(a, b), k) by {
            assert(count_of(c, k) >= count_of(a, k));
            assert(count_of(c, k) >= count_of(b, k));
        }
    }
}

/// Every context descends from itself.
pub proof fn lemma_descends_reflexive(a: ContextModel)
    ensures
        descends(a, a),
{
}

/// Descent is transitive.
pub proof fn lemma_descends_transitive(a: ContextModel, b: ContextModel, c: ContextModel)
    requires
        descends(a, b),
        descends(b, c),
    ensures
        descends(a, c),
{
    assert forall|k: Seq<char>| #[trigger] count_of(a, k) >= count_of(c, k) by {
        assert(count_of(a, k) >= count_of(b, k));
        assert(count_of(b, k) >= count_of(c, k));
    }
}

/// Concurrency is symmetric, and concurrent contexts descend from neither
/// each other.
pub proof fn lemma_concurrent_symmetric(a: ContextModel, b: ContextModel)
    ensures
        concurrent(a, b) == concurrent(b, a),
        concurrent(a, b) ==> !descends(a, b) && !descends(b, a),
{
}

/// After incrementing `actor`, the context contains the next event of
/// `actor`, which it did not contain before.
pub proof fn lemma_bumped_contains_next_dot(v: ContextModel, actor: Seq<char>)
    ensures
        contains_dot(bumped(v, actor), actor, count_of(v, actor) + 1),
        !contains_dot(v, actor, count_of(v, actor) + 1),
{
}

/// Strict precedence is irreflexive, whereas descent is reflexive.
pub proof fn lemma_happened_before_irreflexive(a: ContextModel)
    ensures
        !happened_before(a, a),
        descends(a, a),
{
}

} // verus!
