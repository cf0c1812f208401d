use vstd::prelude::*;

use crate::store::CacheStore;
use crate::store::EntryModel;
use crate::store::Stored;
use crate::tags::tags_intersect;
use crate::tags::tags_intersect_exec;

verus! {

/// How many keys one removal batch processes before control is handed
/// back to the caller. Any positive size preserves correctness; this one
/// is a throughput/fairness tuning knob.
pub const BATCH_SIZE: usize = 100;

/// The keys of `m` whose entries share a tag with `requested`.
pub open spec fn matching_set(m: Map<Seq<char>, EntryModel>, requested: Seq<Seq<char>>) -> Set<
    Seq<char>,
> {
    m.dom().filter(|k: Seq<char>| tags_intersect(m[k].1, requested))
}

/// What a bulk invalidation leaves behind: exactly the entries of `m`
/// whose tag lists share nothing with `requested`, each unchanged.
pub open spec fn surviving(m: Map<Seq<char>, EntryModel>, requested: Seq<Seq<char>>) -> Map<
    Seq<char>,
    EntryModel,
> {
    m.remove_keys(matching_set(m, requested))
}

/// The position a batch starting at `pos` ends at, out of `len` keys.
pub open spec fn batch_end(pos: int, len: int) -> int {
    if pos + BATCH_SIZE <= len {
        pos + BATCH_SIZE
    } else {
        len
    }
}

/// Whether `k` is the key of some entry in the snapshot `snap` whose tag
/// list shares a tag with `req`.
spec fn key_from_matching(
    snap: Seq<(Seq<char>, Seq<Seq<char>>)>,
    req: Seq<Seq<char>>,
    k: Seq<char>,
) -> bool {
    exists|j: int| 0 <= j < snap.len() && (#[trigger] snap[j]).0 == k && tags_intersect(snap[j].1, req)
}

/// A planned bulk invalidation: the keys picked for removal, how far the
/// removal has proceeded, and how many entries it has removed so far.
pub struct InvalidationPlan {
    keys: Vec<String>,
    pos: usize,
    removed: usize,
}

impl InvalidationPlan {
    /// The keys the plan removes, in processing order.
    pub closed spec fn key_seq(&self) -> Seq<Seq<char>> {
        self.keys.deep_view()
    }

    /// How many of the planned keys have been processed.
    pub closed spec fn pos(&self) -> int {
        self.pos as int
    }

    /// How many entries the processed keys actually removed.
    pub closed spec fn removed(&self) -> int {
        self.removed as int
    }

    pub open spec fn wf(&self) -> bool {
        0 <= self.removed() <= self.pos() <= self.key_seq().len()
    }

    /// Whether every planned key has been processed.
    pub fn is_done(&self) -> (r: bool)
        ensures
            r == (self.pos() == self.key_seq().len()),
    {
        self.pos == self.keys.len()
    }

    /// How many entries the plan has removed so far.
    pub fn removed_count(&self) -> (r: usize)
        ensures
            r == self.removed(),
    {
        self.removed
    }
}

/// The keys of the snapshot entries whose tag lists intersect `requested`,
/// in snapshot order.
fn matching_keys(snap: &Vec<Stored>, requested: &Vec<String>) -> (r: Vec<String>)
    ensures
        forall|a: int|
            0 <= a < r.deep_view().len() ==> key_from_matching(
                snap.deep_view(),
                requested.deep_view(),
                #[trigger] r.deep_view()[a],
            ),
        forall|j: int|
            0 <= j < snap.deep_view().len() && tags_intersect(
                (#[trigger] snap.deep_view()[j]).1,
                requested.deep_view(),
            ) ==> r.deep_view().contains(snap.deep_view()[j].0),
{
    let mut r: Vec<String> = Vec::new();
    let mut i: usize = 0;
    while i < snap.len()
        invariant
            i <= snap.len(),
            forall|a: int|
                0 <= a < r.deep_view().len() ==> key_from_matching(
                    snap.deep_view(),
                    requested.deep_view(),
                    #[trigger] r.deep_view()[a],
                ),
            forall|j: int|
                0 <= j < i && tags_intersect(
                    (#[trigger] snap.deep_view()[j]).1,
                    requested.deep_view(),
                ) ==> r.deep_view().contains(snap.deep_view()[j].0),
        decreases snap.len() - i,
    {
        let entry = &snap[i];
        let hit = tags_intersect_exec(&entry.1, requested);
        proof {
            assert(snap.deep_view()[i as int] == (snap@[i as int].0@, snap@[i as int].1.deep_view()));
        }
        if hit {
            let ghost r_old = r.deep_view();
            let k = entry.0.clone();
            r.push(k);
            proof {
                assert(r.deep_view() =~= r_old.push(snap@[i as int].0@));
                assert forall|j: int|
                    0 <= j < i + 1 && tags_intersect(
                        (#[trigger] snap.deep_view()[j]).1,
                        requested.deep_view(),
                    ) implies r.deep_view().contains(snap.deep_view()[j].0) by {
                    if j < i {
                        let idx = choose|idx: int|
                            0 <= idx < r_old.len() && #[trigger] r_old[idx] == snap.deep_view()[j].0;
                        assert(r.deep_view()[idx] == snap.deep_view()[j].0);
                    } else {
                        assert(r.deep_view()[r_old.len() as int] == snap.deep_view()[i as int].0);
                    }
                }
            }
        } else {
            proof {
                assert(!tags_intersect(snap.deep_view()[i as int].1, requested.deep_view()));
            }
        }
        i += 1;
    }
    r
}

proof fn lemma_remove_keys_then_remove(m: Map<Seq<char>, EntryModel>, s: Set<Seq<char>>, k: Seq<char>)
    ensures
        m.remove_keys(s).remove(k) == m.remove_keys(s.insert(k)),
{
    assert(m.remove_keys(s).remove(k) =~= m.remove_keys(s.insert(k)));
}

proof fn lemma_remove_keys_union(m: Map<Seq<char>, EntryModel>, a: Set<Seq<char>>, b: Set<Seq<char>>)
    ensures
        m.remove_keys(a).remove_keys(b) == m.remove_keys(a.union(b)),
{
    assert(m.remove_keys(a).remove_keys(b) =~= m.remove_keys(a.union(b)));
}

proof fn lemma_subrange_to_set_push(s: Seq<Seq<char>>, a: int, i: int)
    requires
        0 <= a <= i < s.len(),
    ensures
        s.subrange(a, i + 1).to_set() == s.subrange(a, i).to_set().insert(s[i]),
{
    assert(s.subrange(a, i + 1) =~= s.subrange(a, i).push(s[i]));
    assert forall|x: Seq<char>|
        s.subrange(a, i + 1).to_set().contains(x) implies s.subrange(a, i).to_set().insert(
        s[i],
    ).contains(x) by {
        let idx = choose|idx: int|
            0 <= idx < s.subrange(a, i + 1).len() && #[trigger] s.subrange(a, i + 1)[idx] == x;
        if idx < i - a {
            assert(s.subrange(a, i)[idx] == x);
        }
    }
    assert forall|x: Seq<char>|
        s.subrange(a, i).to_set().insert(s[i]).contains(x) implies s.subrange(
        a,
        i + 1,
    ).to_set().contains(x) by {
        if s.subrange(a, i).to_set().contains(x) {
            let idx = choose|idx: int|
                0 <= idx < s.subrange(a, i).len() && #[trigger] s.subrange(a, i)[idx] == x;
            assert(s.subrange(a, i + 1)[idx] == x);
        } else {
            assert(s.subrange(a, i + 1)[i - a] == x);
        }
    }
    assert(s.subrange(a, i + 1).to_set() =~= s.subrange(a, i).to_set().insert(s[i]));
}

proof fn lemma_subrange_to_set_split(s: Seq<Seq<char>>, a: int, b: int)
    requires
        0 <= a <= b <= s.len(),
    ensures
        s.subrange(0, b).to_set() == s.subrange(0, a).to_set().union(s.subrange(a, b).to_set()),
{
    assert forall|x: Seq<char>|
        s.subrange(0, b).to_set().contains(x) implies s.subrange(0, a).to_set().union(
        s.subrange(a, b).to_set(),
    ).contains(x) by {
        let idx = choose|idx: int| 0 <= idx < s.subrange(0, b).len() && #[trigger] s.subrange(0, b)[idx] == x;
        if idx < a {
            assert(s.subrange(0, a)[idx] == x);
        } else {
            assert(s.subrange(a, b)[idx - a] == x);
        }
    }
    assert forall|x: Seq<char>|
        s.subrange(0, a).to_set().union(s.subrange(a, b).to_set()).contains(x) implies s.subrange(
        0,
        b,
    ).to_set().contains(x) by {
        if s.subrange(0, a).to_set().contains(x) {
            let idx = choose|idx: int|
                0 <= idx < s.subrange(0, a).len() && #[trigger] s.subrange(0, a)[idx] == x;
            assert(s.subrange(0, b)[idx] == x);
        } else {
            let idx = choose|idx: int|
                0 <= idx < s.subrange(a, b).len() && #[trigger] s.subrange(a, b)[idx] == x;
            assert(s.subrange(0, b)[idx + a] == x);
        }
    }
    assert(s.subrange(0, b).to_set() =~= s.subrange(0, a).to_set().union(
        s.subrange(a, b).to_set(),
    ));
}

impl CacheStore {
    /// Plans a bulk invalidation: takes a snapshot of the current entries
    /// and picks exactly the keys whose tag lists intersect `requested`.
    pub fn plan_invalidation(&self, requested: &Vec<String>) -> (plan: InvalidationPlan)
        ensures
            plan.wf(),
            plan.pos() == 0,
            plan.removed() == 0,
            plan.key_seq().to_set() == matching_set(self@, requested.deep_view()),
    {
        let snap = self.snapshot();
        let keys = matching_keys(&snap, requested);
        let plan = InvalidationPlan { keys, pos: 0, removed: 0 };
        proof {
            let m = self@;
            let req = requested.deep_view();
            let sdv = snap.deep_view();
            assert forall|k: Seq<char>| plan.key_seq().to_set().contains(k) implies matching_set(
                m,
                req,
            ).contains(k) by {
                let a = choose|a: int|
                    0 <= a < plan.key_seq().len() && #[trigger] plan.key_seq()[a] == k;
                assert(key_from_matching(sdv, req, k));
                let j = choose|j: int|
                    0 <= j < sdv.len() && (#[trigger] sdv[j]).0 == k && tags_intersect(
                        sdv[j].1,
                        req,
                    );
                assert(m.contains_key(sdv[j].0) && sdv[j].1 == m[sdv[j].0].1);
            }
            assert forall|k: Seq<char>| matching_set(m, req).contains(k) implies plan.key_seq()
                .to_set().contains(k) by {
                assert(m.contains_key(k));
                let i = choose|i: int| 0 <= i < sdv.len() && (#[trigger] sdv[i]).0 == k;
                assert(sdv[i].1 == m[k].1);
                assert(tags_intersect(sdv[i].1, req));
                assert(plan.key_seq().contains(k));
            }
            assert(plan.key_seq().to_set() =~= matching_set(m, req));
        }
        plan
    }

    /// Processes the next batch of a planned invalidation: removes up to
    /// `BATCH_SIZE` of the remaining planned keys from the store, then
    /// returns so the caller may hand control elsewhere before the next
    /// batch. Returns whether the plan is complete. Keys the plan picked
    /// that have since been removed by someone else are dropped silently.
    pub fn run_batch(&mut self, plan: &mut InvalidationPlan) -> (done: bool)
        requires
            old(self).wf(),
            old(plan).wf(),
        ensures
            final(self).wf(),
            final(plan).wf(),
            final(plan).key_seq() == old(plan).key_seq(),
            final(plan).pos() == batch_end(old(plan).pos(), old(plan).key_seq().len() as int),
            final(self)@ == old(self)@.remove_keys(
                old(plan).key_seq().subrange(old(plan).pos(), final(plan).pos()).to_set(),
            ),
            final(plan).removed() - old(plan).removed() == old(self)@.dom().len()
                - final(self)@.dom().len(),
            done == (final(plan).pos() == final(plan).key_seq().len()),
    {
        let len = plan.keys.len();
        let end = if len - plan.pos > BATCH_SIZE {
            plan.pos + BATCH_SIZE
        } else {
            len
        };
        let ghost m0 = self@;
        let ghost start = plan.pos as int;
        let mut i = plan.pos;
        let mut removed = plan.removed;
        proof {
            assert(m0.remove_keys(plan.key_seq().subrange(start, start).to_set()) =~= m0);
        }
        while i < end
            invariant
                self.wf(),
                0 <= start,
                start <= i <= end <= plan.keys@.len(),
                end as int == batch_end(start, plan.key_seq().len() as int),
                plan.key_seq().len() == plan.keys@.len(),
                removed <= i,
                self@ == m0.remove_keys(plan.key_seq().subrange(start, i as int).to_set()),
                removed as int - plan.removed() == m0.dom().len() - self@.dom().len(),
                m0.dom().finite(),
            decreases end - i,
        {
            let ghost prev = self@;
            let key = &plan.keys[i];
            let hit = self.remove(key);
            proof {
                assert(plan.key_seq()[i as int] == plan.keys@[i as int]@);
                lemma_remove_keys_then_remove(
                    m0,
                    plan.key_seq().subrange(start, i as int).to_set(),
                    key@,
                );
                lemma_subrange_to_set_push(plan.key_seq(), start, i as int);
                vstd::set::axiom_set_remove_len(prev.dom(), key@);
                assert(self@.dom() =~= prev.dom().remove(key@));
            }
            if hit {
                removed = removed + 1;
            }
            i += 1;
        }
        plan.pos = end;
        plan.removed = removed;
        end == len
    }

    /// Removes every entry whose tag list shares at least one tag with
    /// `requested` and returns how many entries were removed. An empty
    /// `requested` list matches nothing and removes nothing. The removal
    /// proceeds in batches of `BATCH_SIZE` keys; the store is fully
    /// cleared of matching entries by the time the call returns.
    pub fn invalidate_by_tags(&mut self, requested: &Vec<String>) -> (n: usize)
        requires
            old(self).wf(),
        ensures
            final(self).wf(),
            final(self)@ == surviving(old(self)@, requested.deep_view()),
            n as int == old(self)@.dom().len() - final(self)@.dom().len(),
    {
        let ghost m0 = self@;
        let ghost req = requested.deep_view();
        let mut plan = self.plan_invalidation(requested);
        let ghost keyseq = plan.key_seq();
        proof {
            assert(m0.remove_keys(keyseq.subrange(0, 0).to_set()) =~= m0);
        }
        let mut done = plan.is_done();
        while !done
            invariant
                self.wf(),
                plan.wf(),
                plan.key_seq() == keyseq,
                keyseq.to_set() == matching_set(m0, req),
                req == requested.deep_view(),
                self@ == m0.remove_keys(keyseq.subrange(0, plan.pos()).to_set()),
                plan.removed() == m0.dom().len() - self@.dom().len(),
                done == (plan.pos() == keyseq.len()),
            decreases keyseq.len() - plan.pos(),
        {
            let ghost pos_before = plan.pos();
            done = self.run_batch(&mut plan);
            proof {
                lemma_remove_keys_union(
                    m0,
                    keyseq.subrange(0, pos_before).to_set(),
                    keyseq.subrange(pos_before, plan.pos()).to_set(),
                );
                lemma_subrange_to_set_split(keyseq, pos_before, plan.pos());
            }
        }
        proof {
            assert(keyseq.subrange(0, plan.pos()) =~= keyseq);
        }
        plan.removed_count()
    }
}

} // verus!
