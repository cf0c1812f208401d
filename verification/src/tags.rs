use vstd::prelude::*;

verus! {

/// Whether `t` occurs in the tag list `tags`. Matching is literal,
/// case-sensitive equality of whole tags; there is no wildcarding.
pub open spec fn tag_in(tags: Seq<Seq<char>>, t: Seq<char>) -> bool {
    exists|i: int| 0 <= i < tags.len() && tags[i] == t
}

/// Whether an entry's tag list shares at least one tag with the requested
/// list. An empty list on either side intersects nothing.
pub open spec fn tags_intersect(tags: Seq<Seq<char>>, requested: Seq<Seq<char>>) -> bool {
    exists|i: int| 0 <= i < tags.len() && tag_in(requested, #[trigger] tags[i])
}

/// Whether `t` occurs in `tags`, by literal comparison.
pub fn tag_list_contains(tags: &Vec<String>, t: &String) -> (r: bool)
    ensures
        r == tag_in(tags.deep_view(), t@),
{
    let mut i: usize = 0;
    while i < tags.len()
        invariant
            i <= tags.len(),
            forall|j: int| 0 <= j < i ==> tags.deep_view()[j] != t@,
        decreases tags.len() - i,
    {
        let hit = tags[i] == *t;
        proof {
            assert(tags.deep_view()[i as int] == tags@[i as int]@);
        }
        if hit {
            return true;
        }
        i += 1;
    }
    false
}

/// Whether the two tag lists share at least one tag.
pub fn tags_intersect_exec(tags: &Vec<String>, requested: &Vec<String>) -> (r: bool)
    ensures
        r == tags_intersect(tags.deep_view(), requested.deep_view()),
{
    let mut i: usize = 0;
    while i < tags.len()
        invariant
            i <= tags.len(),
            forall|j: int| 0 <= j < i ==> !tag_in(requested.deep_view(), #[trigger] tags.deep_view()[j]),
        decreases tags.len() - i,
    {
        let hit = tag_list_contains(requested, &tags[i]);
        proof {
            assert(tags.deep_view()[i as int] == tags@[i as int]@);
        }
        if hit {
            return true;
        }
        i += 1;
    }
    false
}

} // verus!
