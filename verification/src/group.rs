//! Groups of repositories, the access users have to them, and which
//! groups a user reaches through that access.

use vstd::prelude::*;

use crate::clock::{format_utc, utc_formatted};

verus! {

/// A group, as stored; `added_at` in UNIX seconds. Two groups are the
/// same group where their ids are.
pub struct Group {
    pub id: i32,
    pub name: String,
    pub added_at: i64,
}

impl PartialEq for Group {
    fn eq(&self, other: &Self) -> (res: bool) {
        self.id == other.id
    }
}

impl vstd::std_specs::cmp::PartialEqSpecImpl for Group {
    open spec fn obeys_eq_spec() -> bool {
        true
    }

    open spec fn eq_spec(&self, other: &Self) -> bool {
        self.id == other.id
    }
}

impl Group {
    /// A copy of the group.
    pub fn duplicate(&self) -> (res: Group)
        ensures
            res == *self,
    {
        Group { id: self.id, name: self.name.clone(), added_at: self.added_at }
    }

    /// The group as answered, its time of creation written with the
    /// service's date format `date_format`. `None` where that time cannot
    /// be written so.
    pub fn attach(self, date_format: &str) -> (res: Option<GroupJson>)
        ensures
            res is Some <==> utc_formatted(self.added_at as int, date_format@) is Some,
            res matches Some(j) ==> {
                &&& j.id == self.id
                &&& j.name == self.name
                &&& utc_formatted(self.added_at as int, date_format@) == Some(j.added_at@)
            },
    {
        let added_at = match format_utc(self.added_at, date_format) {
            Some(t) => t,
            None => return None,
        };
        Some(GroupJson { id: self.id, name: self.name, added_at })
    }

    /// The group as answered together with the user's access to it, if
    /// any, its time of creation written with `date_format`. `None` where
    /// that time cannot be written so.
    pub fn attach_with_access(self, group_access: Option<GroupAccessJson>, date_format: &str) -> (res:
        Option<GroupWithAccessJson>)
        ensures
            res is Some <==> utc_formatted(self.added_at as int, date_format@) is Some,
            res matches Some(j) ==> {
                &&& j.id == self.id
                &&& j.name == self.name
                &&& utc_formatted(self.added_at as int, date_format@) == Some(j.added_at@)
                &&& j.group_access == group_access
            },
    {
        let added_at = match format_utc(self.added_at, date_format) {
            Some(t) => t,
            None => return None,
        };
        Some(GroupWithAccessJson { id: self.id, name: self.name, added_at, group_access })
    }
}

/// A group as answered.
pub struct GroupJson {
    pub id: i32,
    pub name: String,
    pub added_at: String,
}

/// A group as answered with a user's access to it.
pub struct GroupWithAccessJson {
    pub id: i32,
    pub name: String,
    pub added_at: String,
    pub group_access: Option<GroupAccessJson>,
}

/// That a group is a child of another.
pub struct GroupRelation {
    pub parent: i32,
    pub child: i32,
}

/// A user's access to a group, as stored; where it is recursive, the user
/// reaches the group's descendants too.
pub struct GroupAccess {
    pub user: i32,
    pub group: i32,
    pub access_level_recursive: bool,
}

/// A user's access to a group, as answered.
pub struct GroupAccessJson {
    pub user: i32,
    pub group: i32,
    pub access_level_recursive: bool,
}

impl GroupAccess {
    /// The access as answered. The user and group ids change places on
    /// the way, as they always have in this answer.
    pub fn attach(self) -> (res: GroupAccessJson)
        ensures
            res.user == self.group,
            res.group == self.user,
            res.access_level_recursive == self.access_level_recursive,
    {
        GroupAccessJson {
            user: self.group,
            group: self.user,
            access_level_recursive: self.access_level_recursive,
        }
    }
}

/// A group access to grant, as an administrator sends it.
pub struct NewGroupAccess {
    pub user: Option<i32>,
    pub group: Option<i32>,
    pub access_level_recursive: Option<bool>,
}

/// A group access to remove, as an administrator sends it.
pub struct DeleteGroupAccess {
    pub user: Option<i32>,
    pub group: Option<i32>,
}

/// The group access whose recursion an administrator toggles.
pub struct UserGroupAccess {
    pub user: Option<i32>,
    pub group: Option<i32>,
}

/// A count of group accesses.
pub struct GroupAccessCountDWH {
    pub sum: i64,
}

/// The first group of `groups` with the given id.
pub open spec fn first_group(groups: Seq<Group>, id: i32) -> Option<Group>
    decreases groups.len(),
{
    if groups.len() == 0 {
        None
    } else if groups[0].id == id {
        Some(groups[0])
    } else {
        first_group(groups.skip(1), id)
    }
}

/// The first group of `groups` with the given id.
pub fn find_group(groups: &Vec<Group>, id: i32) -> (res: Option<Group>)
    ensures
        res == first_group(groups@, id),
{
    let mut i: usize = 0;
    assert(groups@.skip(0) =~= groups@);
    while i < groups.len()
        invariant
            0 <= i <= groups@.len(),
            first_group(groups@, id) == first_group(groups@.skip(i as int), id),
        decreases groups@.len() - i,
    {
        assert(groups@.skip(i as int).skip(1) =~= groups@.skip(i + 1));
        if groups[i].id == id {
            return Some(groups[i].duplicate());
        }
        i = i + 1;
    }
    None
}

/// The descendants of group `id`, depth first: for each relation (in
/// order) whose parent is `id`, the child followed by the child's own
/// descendants. `None` where a child is not among `groups` or the
/// descent goes deeper than `fuel` levels.
pub open spec fn descendants(groups: Seq<Group>, rels: Seq<GroupRelation>, id: i32, fuel: nat) -> Option<
    Seq<Group>,
>
    decreases fuel, rels.len() + 1,
{
    descendants_from(groups, rels, id, 0, fuel)
}

/// The part of `descendants` that the relations from index `k` on give.
pub open spec fn descendants_from(
    groups: Seq<Group>,
    rels: Seq<GroupRelation>,
    id: i32,
    k: nat,
    fuel: nat,
) -> Option<Seq<Group>>
    decreases fuel, rels.len() - k,
{
    if k >= rels.len() {
        Some(Seq::empty())
    } else if rels[k as int].parent != id {
        descendants_from(groups, rels, id, k + 1, fuel)
    } else {
        match first_group(groups, rels[k as int].child) {
            None => None,
            Some(c) => if fuel == 0 {
                None
            } else {
                match descendants(groups, rels, c.id, (fuel - 1) as nat) {
                    None => None,
                    Some(d) => match descendants_from(groups, rels, id, k + 1, fuel) {
                        None => None,
                        Some(rest) => Some(seq![c] + d + rest),
                    },
                }
            },
        }
    }
}

proof fn lemma_first_group_id(groups: Seq<Group>, id: i32)
    ensures
        first_group(groups, id) matches Some(g) ==> g.id == id,
    decreases groups.len(),
{
    if groups.len() > 0 && groups[0].id != id {
        lemma_first_group_id(groups.skip(1), id);
    }
}

fn descend(groups: &Vec<Group>, rels: &Vec<GroupRelation>, id: i32, fuel: usize) -> (res: Option<
    Vec<Group>,
>)
    ensures
        match res {
            Some(v) => descendants(groups@, rels@, id, fuel as nat) == Some(v@),
            None => descendants(groups@, rels@, id, fuel as nat) is None,
        },
    decreases fuel, rels@.len() + 1,
{
    let mut children: Vec<Group> = Vec::new();
    let mut k: usize = 0;
    while k < rels.len()
        invariant
            0 <= k <= rels@.len(),
            descendants(groups@, rels@, id, fuel as nat) == match descendants_from(
                groups@,
                rels@,
                id,
                k as nat,
                fuel as nat,
            ) {
                Some(rest) => Some(children@ + rest),
                None => None,
            },
        decreases rels@.len() - k,
    {
        if rels[k].parent == id {
            let child = match find_group(groups, rels[k].child) {
                Some(c) => c,
                None => return None,
            };
            proof {
                lemma_first_group_id(groups@, rels@[k as int].child);
            }
            if fuel == 0 {
                return None;
            }
            let mut below = match descend(groups, rels, child.id, fuel - 1) {
                Some(d) => d,
                None => return None,
            };
            let ghost before = children@;
            children.push(child);
            children.append(&mut below);
            proof {
                let rest = descendants_from(groups@, rels@, id, (k + 1) as nat, fuel as nat);
                if rest is Some {
                    assert(children@ + rest->0 =~= before + (seq![first_group(groups@, rels@[k as int].child)->0] + descendants(groups@, rels@, rels@[k as int].child, (fuel - 1) as nat)->0 + rest->0));
                }
            }
        }
        k = k + 1;
    }
    assert(children@ + Seq::<Group>::empty() =~= children@);
    Some(children)
}

/// The groups below `group`, depth first: for each relation (in order)
/// whose parent is the group, the child followed by the groups below it.
/// `None` where a child is not among `groups`, or where the descent goes
/// deeper than there are relations, which it only does around a cycle,
/// along which the descent never ends.
pub fn get_groups_with_access_recursive(
    group: &Group,
    groups: &Vec<Group>,
    group_relations: &Vec<GroupRelation>,
) -> (res: Option<Vec<Group>>)
    ensures
        match res {
            Some(v) => descendants(groups@, group_relations@, group.id, group_relations@.len())
                == Some(v@),
            None => descendants(groups@, group_relations@, group.id, group_relations@.len()) is None,
        },
{
    descend(groups, group_relations, group.id, group_relations.len())
}

proof fn lemma_ranked_descent(
    groups: Seq<Group>,
    rels: Seq<GroupRelation>,
    id: i32,
    k: nat,
    fuel: nat,
    rank: spec_fn(i32) -> nat,
)
    requires
        forall|q: int| 0 <= q < rels.len() ==> rank(#[trigger] rels[q].parent) > rank(rels[q].child),
        forall|q: int| 0 <= q < rels.len() ==> first_group(groups, #[trigger] rels[q].child) is Some,
        rank(id) <= fuel,
    ensures
        descendants_from(groups, rels, id, k, fuel) is Some,
    decreases fuel, rels.len() - k,
{
    if k < rels.len() {
        let r = rels[k as int];
        assert(rank(rels[k as int].parent) > rank(rels[k as int].child));
        assert(first_group(groups, rels[k as int].child) is Some);
        lemma_ranked_descent(groups, rels, id, k + 1, fuel, rank);
        if r.parent == id {
            let c = first_group(groups, r.child)->0;
            lemma_first_group_id(groups, r.child);
            assert(fuel > 0);
            lemma_ranked_descent(groups, rels, c.id, 0, (fuel - 1) as nat, rank);
            assert(descendants(groups, rels, c.id, (fuel - 1) as nat) is Some);
        }
    }
}

/// Where the relations lead from parent to child down some ranking of the
/// groups (there is no cycle) that ranks the group no higher than there
/// are relations, and every child is a known group, the descent below the
/// group succeeds.
pub proof fn law_ranked_descent_succeeds(
    groups: Seq<Group>,
    rels: Seq<GroupRelation>,
    group: Group,
    rank: spec_fn(i32) -> nat,
)
    requires
        forall|q: int| 0 <= q < rels.len() ==> rank(#[trigger] rels[q].parent) > rank(rels[q].child),
        forall|q: int| 0 <= q < rels.len() ==> first_group(groups, #[trigger] rels[q].child) is Some,
        rank(group.id) <= rels.len(),
    ensures
        descendants(groups, rels, group.id, rels.len()) is Some,
{
    lemma_ranked_descent(groups, rels, group.id, 0, rels.len(), rank);
}

/// The groups that a list of accesses reaches, in order, with repeats:
/// for each access its group, followed, for a recursive access, by the
/// groups below it. `None` where a group is not among `groups`, or where
/// a descent goes deeper than there are relations.
pub open spec fn reached_groups(groups: Seq<Group>, rels: Seq<GroupRelation>, accesses: Seq<GroupAccess>) -> Option<
    Seq<Group>,
>
    decreases accesses.len(),
{
    if accesses.len() == 0 {
        Some(Seq::empty())
    } else {
        match reached_groups(groups, rels, accesses.drop_last()) {
            None => None,
            Some(prev) => {
                let a = accesses.last();
                match first_group(groups, a.group) {
                    None => None,
                    Some(g) => if a.access_level_recursive {
                        match descendants(groups, rels, g.id, rels.len()) {
                            None => None,
                            Some(d) => Some(prev + seq![g] + d),
                        }
                    } else {
                        Some(prev.push(g))
                    },
                }
            },
        }
    }
}

/// Where the relations lead from parent to child down some ranking of the
/// groups that ranks every accessed group no higher than there are
/// relations, every child is a known group and every access names a known
/// group, the groups a user reaches can be listed: they hold the group of
/// every access and, for a recursive access, every group below it.
pub proof fn law_ranked_accesses_reach(
    groups: Seq<Group>,
    rels: Seq<GroupRelation>,
    accesses: Seq<GroupAccess>,
    rank: spec_fn(i32) -> nat,
)
    requires
        forall|q: int| 0 <= q < rels.len() ==> rank(#[trigger] rels[q].parent) > rank(rels[q].child),
        forall|q: int| 0 <= q < rels.len() ==> first_group(groups, #[trigger] rels[q].child) is Some,
        forall|q: int| 0 <= q < accesses.len() ==> first_group(groups, #[trigger] accesses[q].group) is Some,
        forall|q: int| 0 <= q < accesses.len() ==> rank(#[trigger] accesses[q].group) <= rels.len(),
    ensures
        reached_groups(groups, rels, accesses) is Some,
        forall|q: int|
            #![trigger accesses[q]]
            0 <= q < accesses.len() ==> {
                &&& reached_groups(groups, rels, accesses)->0.contains(
                    first_group(groups, accesses[q].group)->0,
                )
                &&& accesses[q].access_level_recursive ==> (descendants(
                    groups,
                    rels,
                    accesses[q].group,
                    rels.len(),
                ) matches Some(d) && forall|k: int|
                    0 <= k < d.len() ==> reached_groups(groups, rels, accesses)->0.contains(#[trigger] d[k]))
            },
    decreases accesses.len(),
{
    if accesses.len() > 0 {
        let rest = accesses.drop_last();
        assert forall|q: int| 0 <= q < rest.len() implies first_group(groups, #[trigger] rest[q].group) is Some by {
            assert(rest[q] == accesses[q]);
        }
        assert forall|q: int| 0 <= q < rest.len() implies rank(#[trigger] rest[q].group) <= rels.len() by {
            assert(rest[q] == accesses[q]);
        }
        law_ranked_accesses_reach(groups, rels, rest, rank);
        let prev = reached_groups(groups, rels, rest)->0;
        let n = accesses.len() - 1;
        let a = accesses[n];
        assert(a == accesses.last());
        let g = first_group(groups, a.group)->0;
        lemma_first_group_id(groups, a.group);
        lemma_ranked_descent(groups, rels, g.id, 0, rels.len(), rank);
        let c = reached_groups(groups, rels, accesses)->0;
        assert forall|x: Group| prev.contains(x) implies c.contains(x) by {
            let k = choose|k: int| 0 <= k < prev.len() && prev[k] == x;
            assert(c[k] == x);
        }
        assert(c[prev.len() as int] == g);
        if a.access_level_recursive {
            let d = descendants(groups, rels, g.id, rels.len())->0;
            assert forall|k: int| 0 <= k < d.len() implies c.contains(#[trigger] d[k]) by {
                assert(c[prev.len() + 1 + k] == d[k]);
            }
        }
        assert forall|q: int| 0 <= q < accesses.len() implies {
            &&& c.contains(first_group(groups, #[trigger] accesses[q].group)->0)
            &&& accesses[q].access_level_recursive ==> (descendants(
                groups,
                rels,
                accesses[q].group,
                rels.len(),
            ) matches Some(d) && forall|k: int| 0 <= k < d.len() ==> c.contains(#[trigger] d[k]))
        } by {
            if q < n {
                assert(rest[q] == accesses[q]);
                let x = rest[q];
                assert(prev.contains(first_group(groups, x.group)->0));
                if x.access_level_recursive {
                    let d = descendants(groups, rels, x.group, rels.len())->0;
                    assert forall|k: int| 0 <= k < d.len() implies c.contains(#[trigger] d[k]) by {
                        assert(prev.contains(d[k]));
                    }
                }
            }
        }
    }
}

/// Whether `res` lists the groups of `collected` by increasing id, each id
/// once, with the first group of `collected` that has it.
pub open spec fn is_sorted_dedup(res: Seq<Group>, collected: Seq<Group>) -> bool {
    &&& forall|i: int, j: int| 0 <= i < j < res.len() ==> #[trigger] res[i].id < #[trigger] res[j].id
    &&& forall|i: int|
        #![trigger res[i]]
        0 <= i < res.len() ==> first_group(collected, res[i].id) == Some(res[i])
    &&& forall|k: int|
        #![trigger collected[k]]
        0 <= k < collected.len() ==> exists|i: int| 0 <= i < res.len() && #[trigger] res[i].id == collected[k].id
}

proof fn lemma_first_group_push(s: Seq<Group>, x: Group, id: i32)
    ensures
        first_group(s.push(x), id) == if first_group(s, id) is Some {
            first_group(s, id)
        } else if x.id == id {
            Some(x)
        } else {
            None
        },
    decreases s.len(),
{
    if s.len() > 0 {
        assert(s.push(x)[0] == s[0]);
        assert(s.push(x).skip(1) =~= s.skip(1).push(x));
        lemma_first_group_push(s.skip(1), x, id);
    } else {
        assert(s.push(x)[0] == x);
        assert(s.push(x).skip(1) =~= Seq::<Group>::empty());
        assert(first_group(Seq::<Group>::empty(), id) is None);
    }
}

proof fn lemma_first_group_witness(s: Seq<Group>, id: i32) -> (k: int)
    requires
        first_group(s, id) is Some,
    ensures
        0 <= k < s.len(),
        s[k].id == id,
    decreases s.len(),
{
    if s[0].id == id {
        0
    } else {
        let k = lemma_first_group_witness(s.skip(1), id);
        k + 1
    }
}

proof fn lemma_first_group_some(s: Seq<Group>, k: int)
    requires
        0 <= k < s.len(),
    ensures
        first_group(s, s[k].id) is Some,
    decreases s.len(),
{
    if k > 0 && s[0].id != s[k].id {
        assert(s.skip(1)[k - 1] == s[k]);
        lemma_first_group_some(s.skip(1), k - 1);
    }
}

/// Inserts `x` into `res`, kept by increasing id, unless its id is there.
fn insert_by_id(res: &mut Vec<Group>, x: Group, collected: Ghost<Seq<Group>>)
    requires
        is_sorted_dedup(old(res)@, collected@),
    ensures
        is_sorted_dedup(final(res)@, collected@.push(x)),
{
    let ghost c = collected@;
    let n = res.len();
    let mut p: usize = 0;
    while p < n && res[p].id < x.id
        invariant
            n == res@.len(),
            0 <= p <= n,
            forall|q: int| 0 <= q < p ==> #[trigger] res@[q].id < x.id,
        decreases n - p,
    {
        p = p + 1;
    }
    proof {
        assert forall|i: int| 0 <= i < res@.len() implies first_group(c.push(x), #[trigger] res@[i].id)
            == Some(res@[i]) by {
            lemma_first_group_push(c, x, res@[i].id);
        }
    }
    if p < n && res[p].id == x.id {
        proof {
            assert forall|k: int| 0 <= k < c.push(x).len() implies exists|i: int|
                0 <= i < res@.len() && #[trigger] res@[i].id == (#[trigger] c.push(x)[k]).id by {
                if k < c.len() {
                    assert(c.push(x)[k] == c[k]);
                } else {
                    assert(res@[p as int].id == x.id);
                }
            }
        }
        return;
    }
    proof {
        assert(first_group(c, x.id) is None) by {
            if first_group(c, x.id) is Some {
                let k = lemma_first_group_witness(c, x.id);
                let i = choose|i: int| 0 <= i < res@.len() && #[trigger] res@[i].id == c[k].id;
                if i < p {
                } else if i == p {
                } else {
                    assert(res@[p as int].id < res@[i].id);
                }
            }
        }
    }
    let ghost old_res = res@;
    res.insert(p, x);
    proof {
        lemma_first_group_push(c, x, x.id);
        assert(res@ == old_res.insert(p as int, x));
        assert forall|i: int| 0 <= i < res@.len() implies first_group(c.push(x), #[trigger] res@[i].id)
            == Some(res@[i]) by {
            if i < p {
                assert(res@[i] == old_res[i]);
            } else if i > p {
                assert(res@[i] == old_res[i - 1]);
            }
        }
        assert forall|i: int, j: int| 0 <= i < j < res@.len() implies #[trigger] res@[i].id
            < #[trigger] res@[j].id by {
            if j < p {
                assert(res@[i] == old_res[i] && res@[j] == old_res[j]);
            } else if j == p {
                assert(res@[i] == old_res[i]);
            } else if i > p {
                assert(res@[i] == old_res[i - 1] && res@[j] == old_res[j - 1]);
            } else if i == p {
                assert(res@[j] == old_res[j - 1]);
                assert(old_res[p as int].id > x.id);
                if j - 1 > p {
                    assert(old_res[p as int].id < old_res[j - 1].id);
                }
            } else {
                assert(res@[i] == old_res[i] && res@[j] == old_res[j - 1]);
            }
        }
        assert forall|k: int| 0 <= k < c.push(x).len() implies exists|i: int|
            0 <= i < res@.len() && #[trigger] res@[i].id == (#[trigger] c.push(x)[k]).id by {
            if k < c.len() {
                assert(c.push(x)[k] == c[k]);
                let i = choose|i: int| 0 <= i < old_res.len() && #[trigger] old_res[i].id == c[k].id;
                if i < p {
                    assert(res@[i] == old_res[i]);
                } else {
                    assert(res@[i + 1] == old_res[i]);
                }
            } else {
                assert(res@[p as int] == x);
            }
        }
    }
}

/// The groups that a user reaches through their accesses: by increasing
/// id, each once, the groups of the accesses and, for recursive ones, the
/// groups below them. `None` where a group is not among `groups`, or a
/// descent goes deeper than there are relations (only around a cycle).
pub fn get_groups_with_access(
    groups: &Vec<Group>,
    group_accesses: &Vec<GroupAccess>,
    group_relations: &Vec<GroupRelation>,
) -> (res: Option<Vec<Group>>)
    ensures
        match reached_groups(groups@, group_relations@, group_accesses@) {
            None => res is None,
            Some(c) => res matches Some(v) && is_sorted_dedup(v@, c),
        },
{
    let mut collected: Vec<Group> = Vec::new();
    let mut i: usize = 0;
    assert(group_accesses@.take(0) =~= Seq::<GroupAccess>::empty());
    while i < group_accesses.len()
        invariant
            0 <= i <= group_accesses@.len(),
            reached_groups(groups@, group_relations@, group_accesses@.take(i as int)) == Some(
                collected@,
            ),
        decreases group_accesses@.len() - i,
    {
        let access = &group_accesses[i];
        proof {
            assert(group_accesses@.take(i + 1).drop_last() =~= group_accesses@.take(i as int));
        }
        let group = match find_group(groups, access.group) {
            Some(g) => g,
            None => {
                proof {
                    lemma_reached_none_extends(groups@, group_relations@, group_accesses@, i + 1);
                }
                return None;
            },
        };
        if access.access_level_recursive {
            let mut below = match descend(groups, group_relations, group.id, group_relations.len()) {
                Some(d) => d,
                None => {
                    proof {
                        lemma_reached_none_extends(groups@, group_relations@, group_accesses@, i + 1);
                    }
                    return None;
                },
            };
            let ghost before = collected@;
            collected.push(group);
            collected.append(&mut below);
            proof {
                assert(collected@ =~= before + seq![first_group(groups@, access.group)->0] + descendants(
                    groups@,
                    group_relations@,
                    first_group(groups@, access.group)->0.id,
                    group_relations@.len(),
                )->0);
            }
        } else {
            collected.push(group);
        }
        i = i + 1;
    }
    proof {
        assert(group_accesses@.take(i as int) =~= group_accesses@);
    }
    let mut res: Vec<Group> = Vec::new();
    let mut k: usize = 0;
    proof {
        assert(collected@.take(0) =~= Seq::<Group>::empty());
    }
    while k < collected.len()
        invariant
            0 <= k <= collected@.len(),
            is_sorted_dedup(res@, collected@.take(k as int)),
        decreases collected@.len() - k,
    {
        proof {
            assert(collected@.take(k as int).push(collected@[k as int]) =~= collected@.take(k + 1));
        }
        insert_by_id(&mut res, collected[k].duplicate(), Ghost(collected@.take(k as int)));
        k = k + 1;
    }
    proof {
        assert(collected@.take(k as int) =~= collected@);
    }
    Some(res)
}

proof fn lemma_reached_none_extends(
    groups: Seq<Group>,
    rels: Seq<GroupRelation>,
    accesses: Seq<GroupAccess>,
    i: int,
)
    requires
        0 <= i <= accesses.len(),
        reached_groups(groups, rels, accesses.take(i)) is None,
    ensures
        reached_groups(groups, rels, accesses) is None,
    decreases accesses.len() - i,
{
    if i < accesses.len() {
        assert(accesses.take(i + 1).drop_last() =~= accesses.take(i));
        lemma_reached_none_extends(groups, rels, accesses, i + 1);
    } else {
        assert(accesses.take(i) =~= accesses);
    }
}

/// Whether a group with this id is in `s`.
pub open spec fn has_id(s: Seq<Group>, id: i32) -> bool {
    exists|k: int| 0 <= k < s.len() && #[trigger] s[k].id == id
}

/// The groups of `groups`, in order, whose id is not in `excluded`.
pub open spec fn groups_without(groups: Seq<Group>, excluded: Seq<Group>) -> Seq<Group>
    decreases groups.len(),
{
    if groups.len() == 0 {
        Seq::empty()
    } else {
        let prev = groups_without(groups.drop_last(), excluded);
        if has_id(excluded, groups.last().id) {
            prev
        } else {
            prev.push(groups.last())
        }
    }
}

/// The groups a user does not reach: those of `groups`, in order, that
/// are not among the groups they reach.
pub fn get_groups_without_access(groups: &Vec<Group>, groups_with_access: &Vec<Group>) -> (res: Vec<
    Group,
>)
    ensures
        res@ == groups_without(groups@, groups_with_access@),
{
    let mut res: Vec<Group> = Vec::new();
    let mut i: usize = 0;
    assert(groups@.take(0) =~= Seq::<Group>::empty());
    while i < groups.len()
        invariant
            0 <= i <= groups@.len(),
            res@ == groups_without(groups@.take(i as int), groups_with_access@),
        decreases groups@.len() - i,
    {
        proof {
            assert(groups@.take(i + 1).drop_last() =~= groups@.take(i as int));
        }
        let mut found = false;
        let mut q: usize = 0;
        while q < groups_with_access.len() && !found
            invariant
                0 <= i < groups@.len(),
                0 <= q <= groups_with_access@.len(),
                found ==> has_id(groups_with_access@, groups@[i as int].id),
                !found ==> forall|r: int| 0 <= r < q ==> #[trigger] groups_with_access@[r].id
                    != groups@[i as int].id,
            decreases groups_with_access@.len() - q,
        {
            if groups_with_access[q] == groups[i] {
                found = true;
                assert(groups_with_access@[q as int].id == groups@[i as int].id);
            }
            q = q + 1;
        }
        if !found {
            res.push(groups[i].duplicate());
        }
        i = i + 1;
    }
    proof {
        assert(groups@.take(i as int) =~= groups@);
    }
    res
}

/// The groups a user does not reach are exactly the listed groups whose
/// id is not among those they reach.
pub proof fn law_groups_without_access(groups: Seq<Group>, excluded: Seq<Group>, g: Group)
    ensures
        groups_without(groups, excluded).contains(g) <==> groups.contains(g) && !has_id(excluded, g.id),
    decreases groups.len(),
{
    if groups.len() > 0 {
        let d = groups.drop_last();
        law_groups_without_access(d, excluded, g);
        let prev = groups_without(d, excluded);
        assert(groups =~= d.push(groups.last()));
        if groups.contains(g) && g != groups.last() {
            let k = choose|k: int| 0 <= k < groups.len() && groups[k] == g;
            assert(d[k] == g);
        }
        if d.contains(g) {
            let k = choose|k: int| 0 <= k < d.len() && d[k] == g;
            assert(groups[k] == g);
        }
        if !has_id(excluded, groups.last().id) {
            assert(prev.push(groups.last()).last() == groups.last());
            if prev.push(groups.last()).contains(g) && g != groups.last() {
                let k = choose|k: int| 0 <= k < prev.len() + 1 && prev.push(groups.last())[k] == g;
                assert(prev[k] == g);
            }
            if prev.contains(g) {
                let k = choose|k: int| 0 <= k < prev.len() && prev[k] == g;
                assert(prev.push(groups.last())[k] == g);
            }
        }
    }
}

} // verus!
