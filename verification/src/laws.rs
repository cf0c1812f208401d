use vstd::prelude::*;

use crate::invalidate::matching_set;
use crate::invalidate::surviving;
use crate::store::EntryModel;
use crate::tags::tags_intersect;

verus! {

/// Law of replacement: storing under a key and then storing under the
/// same key again leaves exactly the second entry there, never a mix of
/// the two, whatever was stored before.
pub proof fn lemma_put_replaces(
    m: Map<Seq<char>, EntryModel>,
    k: Seq<char>,
    e1: EntryModel,
    e2: EntryModel,
)
    ensures
        m.insert(k, e1).insert(k, e2) == m.insert(k, e2),
        m.insert(k, e1).insert(k, e2)[k] == e2,
{
    assert(m.insert(k, e1).insert(k, e2) =~= m.insert(k, e2));
}

/// Law of tag-intersection correctness: a bulk invalidation keeps a key
/// if and only if the store held it and its tag list shares no tag with
/// the requested list, and every kept entry is unchanged.
pub proof fn lemma_surviving_pointwise(m: Map<Seq<char>, EntryModel>, req: Seq<Seq<char>>)
    ensures
        forall|k: Seq<char>|
            #[trigger] surviving(m, req).contains_key(k) <==> m.contains_key(k)
                && !tags_intersect(m[k].1, req),
        forall|k: Seq<char>|
            #[trigger] surviving(m, req).contains_key(k) ==> surviving(m, req)[k] == m[k],
{
}

/// Law of the empty request: invalidating by an empty tag list removes
/// nothing, leaving every entry in place.
pub proof fn lemma_invalidate_empty_tags(m: Map<Seq<char>, EntryModel>, req: Seq<Seq<char>>)
    requires
        req.len() == 0,
    ensures
        surviving(m, req) == m,
{
    assert(surviving(m, req) =~= m);
}

/// Law of idempotence: invalidating twice by the same tag list, with no
/// insertion in between, changes nothing the second time; it also removes
/// zero further entries, since the two states are equal.
pub proof fn lemma_invalidate_idempotent(m: Map<Seq<char>, EntryModel>, req: Seq<Seq<char>>)
    ensures
        surviving(surviving(m, req), req) == surviving(m, req),
{
    lemma_surviving_pointwise(m, req);
    lemma_surviving_pointwise(surviving(m, req), req);
    assert(surviving(surviving(m, req), req) =~= surviving(m, req));
}

/// Law of the miss: a key that is not in the store is answered with a
/// not-found signal, and invalidation only ever shrinks the key space, so
/// an invalidated key stays a miss until a later insertion.
pub proof fn lemma_invalidated_key_is_miss(
    m: Map<Seq<char>, EntryModel>,
    req: Seq<Seq<char>>,
    k: Seq<char>,
)
    requires
        m.contains_key(k) ==> tags_intersect(m[k].1, req),
    ensures
        !surviving(m, req).contains_key(k),
{
    lemma_surviving_pointwise(m, req);
}

} // verus!
