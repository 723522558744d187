//! Facts about filtered and mapped sequences.

use vstd::prelude::*;

verus! {

/// Filtering a sequence keeps or drops its first element and filters the
/// rest.
pub proof fn lemma_filter_first<A>(s: Seq<A>, keep: spec_fn(A) -> bool)
    requires
        s.len() > 0,
    ensures
        s.filter(keep) == if keep(s[0]) {
            seq![s[0]] + s.drop_first().filter(keep)
        } else {
            s.drop_first().filter(keep)
        },
{
    let head = seq![s[0]];
    let rest = s.drop_first();
    assert(s =~= head + rest);
    Seq::filter_distributes_over_add(head, rest, keep);
    reveal_with_fuel(Seq::filter, 2);
    assert(head.drop_last() =~= Seq::<A>::empty());
    assert(head.filter(keep) =~= if keep(s[0]) {
        head
    } else {
        Seq::empty()
    });
    assert(Seq::<A>::empty() + rest.filter(keep) =~= rest.filter(keep));
}

/// Filtering and then mapping a sequence maps its first element, if it is
/// kept, and then filters and maps the rest.
pub proof fn lemma_filter_map_first<A, B>(
    s: Seq<A>,
    keep: spec_fn(A) -> bool,
    f: spec_fn(A) -> B,
)
    requires
        s.len() > 0,
    ensures
        s.filter(keep).map_values(f) == if keep(s[0]) {
            seq![f(s[0])] + s.drop_first().filter(keep).map_values(f)
        } else {
            s.drop_first().filter(keep).map_values(f)
        },
{
    lemma_filter_first(s, keep);
    let rest = s.drop_first().filter(keep);
    if keep(s[0]) {
        assert((seq![s[0]] + rest).map_values(f) =~= seq![f(s[0])] + rest.map_values(f));
    }
}

/// Filtering and mapping the empty sequence gives the empty sequence.
pub proof fn lemma_filter_map_empty<A, B>(
    s: Seq<A>,
    keep: spec_fn(A) -> bool,
    f: spec_fn(A) -> B,
)
    requires
        s.len() == 0,
    ensures
        s.filter(keep).map_values(f).len() == 0,
{
    s.lemma_filter_len(keep);
}

} // verus!
