//! The order in which the members of a workspace are built.
//!
//! A member is built after the members it depends on. The order is found
//! by a depth-first walk over the members, which also finds out whether
//! the members depend on each other in a cycle.

use vstd::prelude::*;
use crate::workspace::{first_member, has_member, Workspace, WorkspaceError, WorkspaceMember};

verus! {

/// Whether the member at position `from` depends on the member at position
/// `to`: it names a dependency of which `to` is the first member.
pub open spec fn member_edge(members: Seq<WorkspaceMember>, from: int, to: int) -> bool {
    &&& 0 <= from < members.len()
    &&& exists|k: int|
        0 <= k < members[from].workspace_deps@.len() && first_member(
            members,
            #[trigger] members[from].workspace_deps@[k]@,
            to,
        )
}

/// Whether the member at position `t` of a walk depends on the next one.
pub open spec fn walk_step(members: Seq<WorkspaceMember>, path: Seq<int>, t: int) -> bool {
    member_edge(members, path[t], path[t + 1])
}

/// Whether `path` leads from a member along dependencies back to it.
pub open spec fn is_cycle(members: Seq<WorkspaceMember>, path: Seq<int>) -> bool {
    &&& path.len() >= 2
    &&& path[0] == path.last()
    &&& forall|t: int| 0 <= t < path.len() - 1 ==> #[trigger] walk_step(members, path, t)
}

/// Whether the position `x` is in the order.
pub open spec fn placed(order: Seq<usize>, x: int) -> bool {
    exists|k: int| 0 <= k < order.len() && #[trigger] order[k] == x
}

/// Whether the position `x` is in the order before position `k` of it.
pub open spec fn placed_before(order: Seq<usize>, x: int, k: int) -> bool {
    exists|k2: int| 0 <= k2 < k && k2 < order.len() && #[trigger] order[k2] == x
}

/// Whether `order` is a build order of the members as far as it goes: it
/// names members, none twice, and every member it names stands behind the
/// members that it depends on.
pub open spec fn is_build_order(members: Seq<WorkspaceMember>, order: Seq<usize>) -> bool {
    &&& forall|k: int| 0 <= k < order.len() ==> (#[trigger] order[k]) < members.len()
    &&& forall|k1: int, k2: int|
        0 <= k1 < k2 < order.len() ==> (#[trigger] order[k1]) != (#[trigger] order[k2])
    &&& forall|k: int, j: int|
        0 <= k < order.len() && #[trigger] member_edge(members, order[k] as int, j)
            ==> placed_before(order, j, k)
}

/// The marks of the walk: a member is new, open while the walk is below
/// it, and done once it is in the order.
spec fn marks_fit(
    members: Seq<WorkspaceMember>,
    marks: Seq<u8>,
    order: Seq<usize>,
    stack: Seq<int>,
) -> bool {
    &&& marks.len() == members.len()
    &&& forall|x: int| 0 <= x < marks.len() ==> #[trigger] marks[x] <= 2
    &&& is_build_order(members, order)
    &&& forall|k: int| 0 <= k < order.len() ==> marks[(#[trigger] order[k]) as int] == 2
    &&& forall|x: int| 0 <= x < marks.len() && #[trigger] marks[x] == 2 ==> placed(order, x)
    &&& forall|t: int|
        0 <= t < stack.len() ==> 0 <= #[trigger] stack[t] < marks.len() && marks[stack[t]] == 1
    &&& forall|x: int| 0 <= x < marks.len() && #[trigger] marks[x] == 1 ==> stack.contains(x)
    &&& forall|t: int| 0 <= t < stack.len() - 1 ==> #[trigger] walk_step(members, stack, t)
}

/// The number of members that are new.
spec fn new_count(marks: Seq<u8>) -> nat
    decreases marks.len(),
{
    if marks.len() == 0 {
        0
    } else {
        new_count(marks.drop_last()) + (if marks.last() == 0 {
            1nat
        } else {
            0nat
        })
    }
}

proof fn lemma_mark_lowers(marks: Seq<u8>, i: int, value: u8)
    requires
        0 <= i < marks.len(),
        value != 0,
    ensures
        new_count(marks.update(i, value)) == new_count(marks) - (if marks[i] == 0 {
            1int
        } else {
            0int
        }),
    decreases marks.len(),
{
    let after = marks.update(i, value);
    if i == marks.len() - 1 {
        assert(after.drop_last() =~= marks.drop_last());
    } else {
        lemma_mark_lowers(marks.drop_last(), i, value);
        assert(after.drop_last() =~= marks.drop_last().update(i, value));
    }
}

impl Workspace {
    /// Walks the member at position `i` and what it depends on, and puts
    /// them into the order, a member behind its dependencies.
    fn visit(
        &self,
        i: usize,
        marks: &mut Vec<u8>,
        order: &mut Vec<usize>,
        Ghost(stack): Ghost<Seq<int>>,
    ) -> (r: Result<(), WorkspaceError>)
        requires
            marks_fit(self.members@, old(marks)@, old(order)@, stack),
            i < self.members@.len(),
            old(marks)@[i as int] == 0,
            stack.len() > 0 ==> member_edge(self.members@, stack.last(), i as int),
        ensures
            match r {
                Ok(_) => {
                    &&& marks_fit(self.members@, final(marks)@, final(order)@, stack)
                    &&& final(marks)@[i as int] == 2
                    &&& new_count(final(marks)@) < new_count(old(marks)@)
                    &&& forall|x: int|
                        0 <= x < old(marks)@.len() && old(marks)@[x] != 0 ==> final(marks)@[x]
                            == old(marks)@[x]
                },
                Err(e) => e matches WorkspaceError::CycleDetected { cycle } && exists|
                    path: Seq<int>,
                |
                    #![trigger is_cycle(self.members@, path)]
                    {
                        &&& is_cycle(self.members@, path)
                        &&& cycle@.len() == 2
                        &&& cycle@[0]@ == self.members@[path[path.len() - 2]].name@
                        &&& cycle@[1]@ == self.members@[path.last()].name@
                    },
            },
        decreases new_count(old(marks)@),
    {
        let ghost members = self.members@;
        marks.set(i, 1);
        let ghost below = stack.push(i as int);
        proof {
            lemma_mark_lowers(old(marks)@, i as int, 1);
            assert forall|t: int| 0 <= t < below.len() implies 0 <= #[trigger] below[t]
                < marks@.len() && marks@[below[t]] == 1 by {
                if t < stack.len() {
                    assert(below[t] == stack[t]);
                }
            }
            assert forall|x: int| 0 <= x < marks@.len() && #[trigger] marks@[x] == 1 implies below.contains(
                x,
            ) by {
                if x == i {
                    assert(below[below.len() - 1] == x);
                } else {
                    assert(stack.contains(x));
                    let t = choose|t: int| 0 <= t < stack.len() && stack[t] == x;
                    assert(below[t] == x);
                }
            }
            assert forall|t: int| 0 <= t < below.len() - 1 implies #[trigger] walk_step(
                members,
                below,
                t,
            ) by {
                if t < stack.len() - 1 {
                    assert(walk_step(members, stack, t));
                }
            }
            assert forall|x: int| 0 <= x < marks@.len() && #[trigger] marks@[x] == 2 implies placed(
                order@,
                x,
            ) by {
                assert(old(marks)@[x] == 2);
            }
        }
        let deps = &self.members[i].workspace_deps;
        let mut k: usize = 0;
        while k < deps.len()
            invariant
                k <= deps@.len(),
                i < self.members@.len(),
                members == self.members@,
                deps == &self.members@[i as int].workspace_deps,
                below == stack.push(i as int),
                marks_fit(members, marks@, order@, below),
                new_count(marks@) < new_count(old(marks)@),
                marks@.len() == old(marks)@.len(),
                forall|x: int|
                    0 <= x < old(marks)@.len() && old(marks)@[x] != 0 ==> #[trigger] marks@[x]
                        == old(marks)@[x],
                forall|k2: int, j: int|
                    0 <= k2 < k && first_member(members, #[trigger] deps@[k2]@, j)
                        ==> #[trigger] marks@[j] == 2,
            decreases deps@.len() - k,
        {
            let ghost before = marks@;
            match self.member_position(deps[k].as_str()) {
                Some(j) => {
                    assert(member_edge(members, i as int, j as int));
                    if marks[j] == 1 {
                        let mut cycle: Vec<String> = Vec::new();
                        cycle.push(self.members[i].name.clone());
                        cycle.push(deps[k].clone());
                        proof {
                            assert(below.contains(j as int));
                            let p = choose|p: int| 0 <= p < below.len() && below[p] == j;
                            let path = below.skip(p).push(j as int);
                            assert(path[0] == below[p]);
                            assert forall|t: int| 0 <= t < path.len() - 1 implies #[trigger] walk_step(
                                members,
                                path,
                                t,
                            ) by {
                                if t < path.len() - 2 {
                                    assert(walk_step(members, below, p + t));
                                    assert(path[t] == below[p + t]);
                                    assert(path[t + 1] == below[p + t + 1]);
                                } else {
                                    assert(path[t] == below[below.len() - 1]);
                                    assert(path[t + 1] == j);
                                }
                            }
                            assert(is_cycle(members, path));
                            assert(path[path.len() - 2] == i);
                        }
                        return Err(WorkspaceError::CycleDetected { cycle });
                    }
                    if marks[j] == 0 {
                        match self.visit(j, marks, order, Ghost(below)) {
                            Ok(_) => {},
                            Err(e) => {
                                return Err(e);
                            },
                        }
                    }
                    assert(marks@[j as int] == 2);
                },
                None => {},
            }
            proof {
                assert forall|x: int|
                    0 <= x < old(marks)@.len() && old(marks)@[x] != 0 implies #[trigger] marks@[x]
                    == old(marks)@[x] by {
                    assert(before[x] == old(marks)@[x]);
                }
                assert forall|k2: int, j: int|
                    0 <= k2 < k + 1 && first_member(
                        members,
                        #[trigger] deps@[k2]@,
                        j,
                    ) implies #[trigger] marks@[j] == 2 by {
                    if k2 < k {
                        assert(before[j] == 2);
                        assert(marks@[j] == before[j]);
                    } else {
                        lemma_first_member_unique(members, deps@[k2]@, j);
                    }
                }
            }
            k = k + 1;
        }
        let ghost mid_marks = marks@;
        let ghost mid_order = order@;
        marks.set(i, 2);
        order.push(i);
        proof {
            lemma_mark_lowers(mid_marks, i as int, 2);
            let last = mid_order.len() as int;
            assert(below[below.len() - 1] == i);
            assert(mid_marks[i as int] == 1);
            assert forall|x: int| 0 <= x < marks@.len() implies #[trigger] marks@[x] <= 2 by {
                if x != i {
                    assert(mid_marks[x] <= 2);
                }
            }
            assert(!placed(mid_order, i as int)) by {
                if placed(mid_order, i as int) {
                    let k0 = choose|k0: int|
                        0 <= k0 < mid_order.len() && #[trigger] mid_order[k0] == i;
                    assert(mid_marks[mid_order[k0] as int] == 2);
                }
            }
            assert forall|k0: int| 0 <= k0 < order@.len() implies marks@[(
            #[trigger] order@[k0]) as int] == 2 by {
                if k0 < last {
                    assert(order@[k0] == mid_order[k0]);
                    assert(mid_marks[mid_order[k0] as int] == 2);
                }
            }
            assert forall|k0: int| 0 <= k0 < order@.len() implies (#[trigger] order@[k0])
                < members.len() by {
                if k0 < last {
                    assert(order@[k0] == mid_order[k0]);
                }
            }
            assert forall|k1: int, k2: int| 0 <= k1 < k2 < order@.len() implies (
            #[trigger] order@[k1]) != (#[trigger] order@[k2]) by {
                assert(order@[k1] == mid_order[k1]);
                if k2 < last {
                    assert(order@[k2] == mid_order[k2]);
                } else {
                    if mid_order[k1] == i {
                        assert(placed(mid_order, i as int));
                    }
                }
            }
            assert forall|k0: int, j: int|
                0 <= k0 < order@.len() && #[trigger] member_edge(
                    members,
                    order@[k0] as int,
                    j,
                ) implies placed_before(order@, j, k0) by {
                if k0 < last {
                    assert(order@[k0] == mid_order[k0]);
                    assert(placed_before(mid_order, j, k0));
                    let k2 = choose|k2: int|
                        0 <= k2 < k0 && k2 < mid_order.len() && #[trigger] mid_order[k2] == j;
                    assert(order@[k2] == j);
                } else {
                    let d = choose|d: int|
                        0 <= d < deps@.len() && first_member(members, #[trigger] deps@[d]@, j);
                    assert(mid_marks[j] == 2);
                    assert(placed(mid_order, j));
                    let k2 = choose|k2: int|
                        0 <= k2 < mid_order.len() && #[trigger] mid_order[k2] == j;
                    assert(order@[k2] == j);
                }
            }
            assert forall|x: int| 0 <= x < marks@.len() && #[trigger] marks@[x] == 2 implies placed(
                order@,
                x,
            ) by {
                if x == i {
                    assert(order@[last] == i);
                } else {
                    assert(mid_marks[x] == 2);
                    assert(placed(mid_order, x));
                    let k2 = choose|k2: int|
                        0 <= k2 < mid_order.len() && #[trigger] mid_order[k2] == x;
                    assert(order@[k2] == x);
                }
            }
            assert forall|t: int| 0 <= t < stack.len() implies 0 <= #[trigger] stack[t]
                < marks@.len() && marks@[stack[t]] == 1 by {
                assert(below[t] == stack[t]);
                assert(mid_marks[below[t]] == 1);
                assert(old(marks)@[stack[t]] == 1);
            }
            assert forall|x: int| 0 <= x < marks@.len() && #[trigger] marks@[x] == 1 implies stack.contains(
                x,
            ) by {
                assert(mid_marks[x] == 1);
                assert(below.contains(x));
                let t = choose|t: int| 0 <= t < below.len() && below[t] == x;
                assert(t < stack.len());
                assert(stack[t] == x);
            }
        }
        Ok(())
    }

    /// The positions of the members in the order in which they are to be
    /// built: each member behind the members that it depends on. Of
    /// members with the same name only the first one is built. Members
    /// that depend on each other in a cycle cannot be ordered: the error
    /// names the member at which the cycle was found and the member that it
    /// depends on.
    pub fn build_positions(&self) -> (r: Result<Vec<usize>, WorkspaceError>)
        ensures
            match r {
                Ok(order) => {
                    &&& is_build_order(self.members@, order@)
                    &&& forall|i: int, c: int|
                        0 <= i < self.members@.len() && first_member(
                            self.members@,
                            #[trigger] self.members@[i].name@,
                            c,
                        ) ==> #[trigger] placed(order@, c)
                },
                Err(e) => e matches WorkspaceError::CycleDetected { cycle } && exists|
                    path: Seq<int>,
                |
                    #![trigger is_cycle(self.members@, path)]
                    {
                        &&& is_cycle(self.members@, path)
                        &&& cycle@.len() == 2
                        &&& cycle@[0]@ == self.members@[path[path.len() - 2]].name@
                        &&& cycle@[1]@ == self.members@[path.last()].name@
                    },
            },
    {
        let n = self.members.len();
        let mut marks: Vec<u8> = Vec::new();
        let mut f: usize = 0;
        while f < n
            invariant
                f <= n,
                n == self.members@.len(),
                marks@.len() == f,
                forall|x: int| 0 <= x < f ==> marks@[x] == 0,
            decreases n - f,
        {
            marks.push(0);
            f = f + 1;
        }
        let mut order: Vec<usize> = Vec::new();
        let ghost empty = Seq::<int>::empty();
        let mut i: usize = 0;
        while i < n
            invariant
                i <= n,
                n == self.members@.len(),
                empty == Seq::<int>::empty(),
                marks_fit(self.members@, marks@, order@, empty),
                forall|i2: int, c: int|
                    0 <= i2 < i && first_member(
                        self.members@,
                        #[trigger] self.members@[i2].name@,
                        c,
                    ) ==> #[trigger] marks@[c] == 2,
            decreases n - i,
        {
            let ghost before = marks@;
            match self.member_position(self.members[i].name.as_str()) {
                Some(c) => {
                    if marks[c] == 0 {
                        match self.visit(c, &mut marks, &mut order, Ghost(empty)) {
                            Ok(_) => {},
                            Err(e) => {
                                return Err(e);
                            },
                        }
                    } else {
                        assert(marks@[c as int] != 1) by {
                            if marks@[c as int] == 1 {
                                assert(empty.contains(c as int));
                            }
                        }
                        assert(marks@[c as int] <= 2);
                    }
                    proof {
                        assert forall|i2: int, c2: int|
                            0 <= i2 < i + 1 && first_member(
                                self.members@,
                                #[trigger] self.members@[i2].name@,
                                c2,
                            ) implies #[trigger] marks@[c2] == 2 by {
                            if i2 < i {
                                assert(before[c2] == 2);
                                assert(marks@[c2] == before[c2]);
                            } else {
                                lemma_first_member_unique(
                                    self.members@,
                                    self.members@[i2].name@,
                                    c2,
                                );
                            }
                        }
                    }
                },
                None => {
                    assert(has_member(self.members@, self.members@[i as int].name@));
                },
            }
            i = i + 1;
        }
        proof {
            assert forall|i2: int, c: int|
                0 <= i2 < self.members@.len() && first_member(
                    self.members@,
                    #[trigger] self.members@[i2].name@,
                    c,
                ) implies #[trigger] placed(order@, c) by {
                assert(marks@[c] == 2);
            }
        }
        Ok(order)
    }

    /// The members in the order in which they are to be built: see
    /// `build_positions`.
    pub fn build_order(&self) -> (r: Result<Vec<&WorkspaceMember>, WorkspaceError>)
        ensures
            match r {
                Ok(order) => exists|positions: Seq<usize>|
                    {
                        &&& #[trigger] is_build_order(self.members@, positions)
                        &&& positions.len() == order@.len()
                        &&& forall|k: int|
                            0 <= k < order@.len() ==> *(#[trigger] order@[k])
                                == self.members@[positions[k] as int]
                        &&& forall|i: int, c: int|
                            0 <= i < self.members@.len() && first_member(
                                self.members@,
                                #[trigger] self.members@[i].name@,
                                c,
                            ) ==> #[trigger] placed(positions, c)
                    },
                Err(e) => e matches WorkspaceError::CycleDetected { cycle } && exists|
                    path: Seq<int>,
                |
                    #![trigger is_cycle(self.members@, path)]
                    {
                        &&& is_cycle(self.members@, path)
                        &&& cycle@.len() == 2
                        &&& cycle@[0]@ == self.members@[path[path.len() - 2]].name@
                        &&& cycle@[1]@ == self.members@[path.last()].name@
                    },
            },
    {
        let positions = match self.build_positions() {
            Ok(p) => p,
            Err(e) => {
                return Err(e);
            },
        };
        let mut out: Vec<&WorkspaceMember> = Vec::new();
        let mut k: usize = 0;
        while k < positions.len()
            invariant
                k <= positions@.len(),
                is_build_order(self.members@, positions@),
                out@.len() == k,
                forall|j: int|
                    0 <= j < k ==> *(#[trigger] out@[j]) == self.members@[positions@[j] as int],
            decreases positions@.len() - k,
        {
            out.push(&self.members[positions[k]]);
            k = k + 1;
        }
        Ok(out)
    }
}

/// A name has one first member.
pub proof fn lemma_first_member_unique(members: Seq<WorkspaceMember>, name: Seq<char>, i: int)
    requires
        first_member(members, name, i),
    ensures
        forall|j: int| first_member(members, name, j) ==> j == i,
{
    assert forall|j: int| first_member(members, name, j) implies j == i by {
        if j < i {
            assert(members[j].name@ != name);
        } else if i < j {
            assert(members[i].name@ != name);
        }
    }
}

/// In a build order no member depends, by whatever chain, on itself: a
/// chain of members that are all in a build order is no cycle.
pub proof fn lemma_build_order_has_no_cycle(
    members: Seq<WorkspaceMember>,
    order: Seq<usize>,
    path: Seq<int>,
)
    requires
        is_build_order(members, order),
        forall|t: int| 0 <= t < path.len() ==> placed(order, #[trigger] path[t]),
    ensures
        !is_cycle(members, path),
{
    if is_cycle(members, path) {
        assert(placed(order, path[0]));
        let start = choose|k: int| 0 <= k < order.len() && #[trigger] order[k] == path[0];
        lemma_walk_descends(members, order, path, path.len() - 1, start);
        let k = choose|k: int| 0 <= k < start && #[trigger] order[k] == path[path.len() - 1];
        assert(order[k] != order[start]);
    }
}

proof fn lemma_walk_descends(
    members: Seq<WorkspaceMember>,
    order: Seq<usize>,
    path: Seq<int>,
    upto: int,
    start: int,
)
    requires
        is_build_order(members, order),
        path.len() >= 1,
        0 <= upto < path.len(),
        forall|t: int| 0 <= t < path.len() - 1 ==> #[trigger] walk_step(members, path, t),
        0 <= start < order.len(),
        order[start] == path[0],
    ensures
        upto > 0 ==> exists|k: int| 0 <= k < start && #[trigger] order[k] == path[upto],
    decreases upto,
{
    if upto > 0 {
        lemma_walk_descends(members, order, path, upto - 1, start);
        let at: int = if upto - 1 > 0 {
            choose|k: int| 0 <= k < start && #[trigger] order[k] == path[upto - 1]
        } else {
            start
        };
        assert(order[at] == path[upto - 1]);
        assert(walk_step(members, path, upto - 1));
        assert(member_edge(members, order[at] as int, path[upto]));
        assert(placed_before(order, path[upto], at));
        let k2 = choose|k2: int| 0 <= k2 < at && k2 < order.len() && #[trigger] order[k2] == path[upto];
        assert(0 <= k2 < start && order[k2] == path[upto]);
    }
}

} // verus!
