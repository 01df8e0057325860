//! Condition groups: trees of operators over term matches.
use vstd::prelude::*;

verus! {

/// Operator that combines the operands of a condition group.
#[derive(Debug, Clone, Copy, PartialEq, Eq)]
pub enum Operator {
    /// At least one operand must hold.
    Any,
    /// Every operand must hold.
    All,
    /// No operand may hold.
    Not,
}

/// Indices of the terms that matched.
#[derive(Debug, Clone, Default, PartialEq, Eq)]
pub struct Matches {
    /// Term indices, in the order they were recorded.
    pub terms: Vec<usize>,
}

/// Condition group.
#[derive(Debug, PartialEq, Eq)]
pub enum Group {
    /// Group with operator.
    Operator(Operator, Vec<Group>),
    /// Group with terms.
    Terms(Matches),
}

/// `r` is a possible result of rewriting `g` bottom-up with `f`: every
/// operand is rewritten first, and `f` is then applied to the node rebuilt
/// from the operator and the rewritten operands, in their original order.
pub open spec fn mapped_by<F: FnMut(Group) -> Group>(f: F, g: Group, r: Group) -> bool
    decreases g,
{
    match g {
        Group::Terms(_) => call_ensures(f, (g,), r),
        Group::Operator(op, operands) => exists|node: Group|
            {
                &&& #[trigger] call_ensures(f, (node,), r)
                &&& node matches Group::Operator(op2, rewritten)
                &&& op2 == op
                &&& rewritten@.len() == operands@.len()
                &&& forall|i: int|
                    0 <= i < operands@.len() ==> mapped_by(f, operands@[i], rewritten@[i])
            },
    }
}

/// Number of nodes in a sequence of groups, counting every nested node.
pub open spec fn size_of_groups(s: Seq<Group>) -> nat
    decreases s,
{
    if s.len() == 0 {
        0
    } else {
        match s.last() {
            Group::Operator(_, operands) => 1 + size_of_groups(operands@) + size_of_groups(
                s.drop_last(),
            ),
            Group::Terms(_) => 1 + size_of_groups(s.drop_last()),
        }
    }
}

/// Two groups have the same operators, operands and matched terms.
pub open spec fn same_group(a: Group, b: Group) -> bool
    decreases a,
{
    match a {
        Group::Terms(m) => b matches Group::Terms(m2) && m.terms@ == m2.terms@,
        Group::Operator(op, operands) => {
            &&& b matches Group::Operator(op2, operands2)
            &&& op2 == op
            &&& operands2@.len() == operands@.len()
            &&& forall|i: int|
                0 <= i < operands@.len() ==> same_group(operands@[i], operands2@[i])
        },
    }
}

/// Every group is the same group as itself.
pub proof fn lemma_same_group_reflexive(g: Group)
    ensures
        same_group(g, g),
    decreases g,
{
    if let Group::Operator(op, operands) = g {
        assert forall|i: int| 0 <= i < operands@.len() implies same_group(
            operands@[i],
            operands@[i],
        ) by {
            assert(decreases_to!(operands => operands@));
            lemma_same_group_reflexive(operands@[i]);
        }
    }
}

/// Being the same group is symmetric.
pub proof fn lemma_same_group_symmetric(a: Group, b: Group)
    requires
        same_group(a, b),
    ensures
        same_group(b, a),
    decreases a,
{
    if let Group::Operator(_, xs) = a {
        if let Group::Operator(_, ys) = b {
            assert forall|i: int| 0 <= i < ys@.len() implies same_group(ys@[i], xs@[i]) by {
                assert(decreases_to!(xs => xs@));
                lemma_same_group_symmetric(xs@[i], ys@[i]);
            }
        }
    }
}

/// Being the same group is transitive.
pub proof fn lemma_same_group_transitive(a: Group, b: Group, c: Group)
    requires
        same_group(a, b),
        same_group(b, c),
    ensures
        same_group(a, c),
    decreases a,
{
    if let Group::Operator(_, xs) = a {
        if let Group::Operator(_, ys) = b {
            if let Group::Operator(_, zs) = c {
                assert forall|i: int| 0 <= i < xs@.len() implies same_group(xs@[i], zs@[i]) by {
                    assert(decreases_to!(xs => xs@));
                    lemma_same_group_transitive(xs@[i], ys@[i], zs@[i]);
                }
            }
        }
    }
}

/// Mapping with a function that gives back its argument leaves a group as
/// it was.
pub proof fn lemma_map_identity<F: FnMut(Group) -> Group>(f: F, g: Group, r: Group)
    requires
        forall|x: Group, y: Group| call_ensures(f, (x,), y) ==> y == x,
        mapped_by(f, g, r),
    ensures
        same_group(g, r),
    decreases g,
{
    match g {
        Group::Terms(_) => {
            lemma_same_group_reflexive(g);
        },
        Group::Operator(op, operands) => {
            let node = choose|node: Group|
                {
                    &&& #[trigger] call_ensures(f, (node,), r)
                    &&& node matches Group::Operator(op2, rewritten)
                    &&& op2 == op
                    &&& rewritten@.len() == operands@.len()
                    &&& forall|i: int|
                        0 <= i < operands@.len() ==> mapped_by(f, operands@[i], rewritten@[i])
                };
            if let Group::Operator(_, rewritten) = node {
                assert forall|i: int| 0 <= i < operands@.len() implies same_group(
                    operands@[i],
                    rewritten@[i],
                ) by {
                    assert(decreases_to!(operands => operands@));
                    lemma_map_identity(f, operands@[i], rewritten@[i]);
                }
            }
        },
    }
}

/// What a function that only renames gives for `g`: matched terms go
/// through `h` and operators through `k`, and the operands stay as they are.
pub open spec fn renamed(
    h: spec_fn(Matches) -> Matches,
    k: spec_fn(Operator) -> Operator,
    g: Group,
) -> Group {
    match g {
        Group::Terms(m) => Group::Terms(h(m)),
        Group::Operator(op, operands) => Group::Operator(k(op), operands),
    }
}

/// Mapping with a function that only renames and then with a second
/// function gives the same group as one mapping with the two composed,
/// where the second function gives the same group for the same group.
pub proof fn lemma_map_compose<
    F1: FnMut(Group) -> Group,
    F2: FnMut(Group) -> Group,
    F3: FnMut(Group) -> Group,
>(
    f1: F1,
    f2: F2,
    f3: F3,
    h: spec_fn(Matches) -> Matches,
    k: spec_fn(Operator) -> Operator,
    g: Group,
    r1: Group,
    r2: Group,
    r3: Group,
)
    requires
        forall|x: Group, y: Group| #[trigger] call_ensures(f1, (x,), y) ==> y == renamed(h, k, x),
        forall|x: Group, z: Group| #[trigger]
            call_ensures(f3, (x,), z) ==> exists|y: Group|
                call_ensures(f1, (x,), y) && #[trigger] call_ensures(f2, (y,), z),
        forall|x1: Group, x2: Group, z1: Group, z2: Group|
            #![trigger call_ensures(f2, (x1,), z1), call_ensures(f2, (x2,), z2)]
            same_group(x1, x2) && call_ensures(f2, (x1,), z1) && call_ensures(f2, (x2,), z2)
                ==> same_group(z1, z2),
        mapped_by(f1, g, r1),
        mapped_by(f2, r1, r2),
        mapped_by(f3, g, r3),
    ensures
        same_group(r2, r3),
    decreases g,
{
    match g {
        Group::Terms(_) => {
            assert(r1 == renamed(h, k, g));
            let y = choose|y: Group| call_ensures(f1, (g,), y) && #[trigger] call_ensures(f2, (y,), r3);
            lemma_same_group_reflexive(r1);
        },
        Group::Operator(op, operands) => {
            let node1 = choose|node: Group|
                {
                    &&& #[trigger] call_ensures(f1, (node,), r1)
                    &&& node matches Group::Operator(op2, rewritten)
                    &&& op2 == op
                    &&& rewritten@.len() == operands@.len()
                    &&& forall|i: int|
                        0 <= i < operands@.len() ==> mapped_by(f1, operands@[i], rewritten@[i])
                };
            let node3 = choose|node: Group|
                {
                    &&& #[trigger] call_ensures(f3, (node,), r3)
                    &&& node matches Group::Operator(op2, rewritten)
                    &&& op2 == op
                    &&& rewritten@.len() == operands@.len()
                    &&& forall|i: int|
                        0 <= i < operands@.len() ==> mapped_by(f3, operands@[i], rewritten@[i])
                };
            if let Group::Operator(_, rw1) = node1 {
                if let Group::Operator(_, rw3) = node3 {
                    assert(r1 == Group::Operator(k(op), rw1));
                    let node2 = choose|node: Group|
                        {
                            &&& #[trigger] call_ensures(f2, (node,), r2)
                            &&& node matches Group::Operator(op2, rewritten)
                            &&& op2 == k(op)
                            &&& rewritten@.len() == rw1@.len()
                            &&& forall|i: int|
                                0 <= i < rw1@.len() ==> mapped_by(f2, rw1@[i], rewritten@[i])
                        };
                    let y3 = choose|y: Group|
                        call_ensures(f1, (node3,), y) && #[trigger] call_ensures(f2, (y,), r3);
                    assert(y3 == Group::Operator(k(op), rw3));
                    if let Group::Operator(_, rw2) = node2 {
                        assert forall|i: int| 0 <= i < operands@.len() implies same_group(
                            rw2@[i],
                            rw3@[i],
                        ) by {
                            assert(decreases_to!(operands => operands@));
                            lemma_map_compose(
                                f1,
                                f2,
                                f3,
                                h,
                                k,
                                operands@[i],
                                rw1@[i],
                                rw2@[i],
                                rw3@[i],
                            );
                        }
                        assert(same_group(node2, y3));
                    }
                }
            }
        },
    }
}

/// The result of mapping is always an output of the function: `f` is applied
/// to every node, an operator node of any arity included. For a group of
/// terms, `f` is applied to the group itself; for an operator node, to a node
/// with the same operator and as many operands.
pub proof fn lemma_map_result_from_function<F: FnMut(Group) -> Group>(f: F, g: Group, r: Group)
    requires
        mapped_by(f, g, r),
    ensures
        exists|x: Group|
            {
                &&& #[trigger] call_ensures(f, (x,), r)
                &&& match g {
                    Group::Terms(_) => x == g,
                    Group::Operator(op, operands) => {
                        &&& x matches Group::Operator(op2, rewritten)
                        &&& op2 == op
                        &&& rewritten@.len() == operands@.len()
                    },
                }
            },
{
    match g {
        Group::Terms(_) => {
            assert(call_ensures(f, (g,), r));
        },
        Group::Operator(op, operands) => {
            let x = choose|node: Group|
                {
                    &&& #[trigger] call_ensures(f, (node,), r)
                    &&& node matches Group::Operator(op2, rewritten)
                    &&& op2 == op
                    &&& rewritten@.len() == operands@.len()
                    &&& forall|i: int|
                        0 <= i < operands@.len() ==> mapped_by(f, operands@[i], rewritten@[i])
                };
            assert(call_ensures(f, (x,), r));
        },
    }
}

/// Mapping with a function that always gives `c` gives `c`, whatever the
/// group, however many operands its nodes have.
pub proof fn lemma_map_constant<F: FnMut(Group) -> Group>(f: F, c: Group, g: Group, r: Group)
    requires
        forall|x: Group, y: Group| #[trigger] call_ensures(f, (x,), y) ==> y == c,
        mapped_by(f, g, r),
    ensures
        r == c,
{
    lemma_map_result_from_function(f, g, r);
}

/// A pending piece of work of the post-order traversal in `Group::map`.
enum Task {
    /// Rewrite this group and push the result.
    Visit(Group),
    /// Pop the given number of rewritten operands and combine them.
    Finish(Operator, nat),
    /// An entry that the traversal never produces.
    Invalid,
}

/// Reads an entry of the work list of `Group::map`.
spec fn task_of(entry: (Group, bool, usize)) -> Task {
    if !entry.1 {
        Task::Visit(entry.0)
    } else {
        match entry.0 {
            Group::Operator(op, _) => Task::Finish(op, entry.2 as nat),
            Group::Terms(_) => Task::Invalid,
        }
    }
}

spec fn tasks_of(entries: Seq<(Group, bool, usize)>) -> Seq<Task> {
    entries.map_values(|e: (Group, bool, usize)| task_of(e))
}

/// Visits of the given groups, laid out so that the first group is on top.
spec fn visits(groups: Seq<Group>) -> Seq<Task> {
    Seq::new(groups.len(), |i: int| Task::Visit(groups[groups.len() - 1 - i]))
}

spec fn task_weight(t: Task) -> nat {
    match t {
        Task::Visit(g) => 2 * size_of_groups(seq![g]),
        _ => 1,
    }
}

/// Amount of work left in a task list; every step of the traversal lowers it.
spec fn weight(ts: Seq<Task>) -> nat
    decreases ts.len(),
{
    if ts.len() == 0 {
        0
    } else {
        weight(ts.drop_last()) + task_weight(ts.last())
    }
}

proof fn lemma_weight_concat(a: Seq<Task>, b: Seq<Task>)
    ensures
        weight(a + b) == weight(a) + weight(b),
    decreases b.len(),
{
    if b.len() == 0 {
        assert(a + b =~= a);
    } else {
        assert((a + b).drop_last() =~= a + b.drop_last());
        lemma_weight_concat(a, b.drop_last());
    }
}

proof fn lemma_weight_visits(groups: Seq<Group>)
    ensures
        weight(visits(groups)) == 2 * size_of_groups(groups),
    decreases groups.len(),
{
    if groups.len() > 0 {
        let rest = groups.drop_last();
        assert(visits(groups) =~= seq![Task::Visit(groups.last())] + visits(rest));
        lemma_weight_concat(seq![Task::Visit(groups.last())], visits(rest));
        lemma_weight_visits(rest);
        let single = seq![groups.last()];
        assert(single.drop_last() =~= Seq::<Group>::empty());
        assert(weight(seq![Task::Visit(groups.last())]) == task_weight(Task::Visit(groups.last())))
            by {
            assert(seq![Task::Visit(groups.last())].drop_last() =~= Seq::<Task>::empty());
            assert(weight(Seq::<Task>::empty()) == 0);
        }
        assert(size_of_groups(Seq::<Group>::empty()) == 0);
    }
}

/// Expanding a visit of an operator node lowers the weight of the task list.
proof fn lemma_expand_lowers_weight(rest: Seq<Task>, op: Operator, operands: Vec<Group>)
    ensures
        weight(rest.push(Task::Finish(op, operands@.len())) + visits(operands@)) < weight(
            rest.push(Task::Visit(Group::Operator(op, operands))),
        ),
{
    let g = Group::Operator(op, operands);
    lemma_weight_concat(rest.push(Task::Finish(op, operands@.len())), visits(operands@));
    lemma_weight_visits(operands@);
    assert(rest.push(Task::Visit(g)).drop_last() =~= rest);
    assert(rest.push(Task::Finish(op, operands@.len())).drop_last() =~= rest);
    assert(seq![g].drop_last() =~= Seq::<Group>::empty());
    assert(size_of_groups(Seq::<Group>::empty()) == 0);
}

/// The task list is processed without ever popping more results than the
/// result stack of height `height` holds, and never meets an invalid entry.
spec fn well_formed(ts: Seq<Task>, height: nat) -> bool
    decreases weight(ts),
{
    if ts.len() == 0 {
        true
    } else {
        let rest = ts.drop_last();
        proof {
            assert(rest.push(ts.last()) =~= ts);
        }
        match ts.last() {
            Task::Visit(g) => match g {
                Group::Terms(_) => {
                    proof {
                        assert(rest.push(ts.last()).drop_last() =~= rest);
                    }
                    well_formed(rest, height + 1)
                },
                Group::Operator(op, operands) => {
                    proof {
                        lemma_expand_lowers_weight(rest, op, operands);
                    }
                    well_formed(
                        rest.push(Task::Finish(op, operands@.len())) + visits(operands@),
                        height,
                    )
                },
            },
            Task::Finish(_, n) => n <= height && well_formed(rest, (height - n + 1) as nat),
            Task::Invalid => false,
        }
    }
}

/// Running the task list `ts` from the result stack `st`, with `f` applied
/// at every rewrite, can end with the result stack `fin`.
spec fn reaches<F: FnMut(Group) -> Group>(
    f: F,
    ts: Seq<Task>,
    st: Seq<Group>,
    fin: Seq<Group>,
) -> bool
    decreases weight(ts),
{
    if ts.len() == 0 {
        fin == st
    } else {
        let rest = ts.drop_last();
        proof {
            assert(rest.push(ts.last()) =~= ts);
        }
        match ts.last() {
            Task::Visit(g) => match g {
                Group::Terms(_) => exists|r: Group|
                    #[trigger] call_ensures(f, (g,), r) && reaches(f, rest, st.push(r), fin),
                Group::Operator(op, operands) => {
                    proof {
                        lemma_expand_lowers_weight(rest, op, operands);
                    }
                    reaches(
                        f,
                        rest.push(Task::Finish(op, operands@.len())) + visits(operands@),
                        st,
                        fin,
                    )
                },
            },
            Task::Finish(op, n) => {
                &&& n <= st.len()
                &&& exists|node: Group, r: Group|
                    {
                        &&& #[trigger] call_ensures(f, (node,), r)
                        &&& node matches Group::Operator(op2, operands)
                        &&& op2 == op
                        &&& operands@ == st.subrange(st.len() - n, st.len() as int)
                        &&& reaches(f, rest, st.subrange(0, st.len() - n).push(r), fin)
                    }
            },
            Task::Invalid => false,
        }
    }
}

spec fn operand_count(g: Group) -> nat {
    match g {
        Group::Operator(_, operands) => operands@.len(),
        Group::Terms(_) => 0,
    }
}

spec fn operands_of(g: Group) -> Seq<Group> {
    match g {
        Group::Operator(_, operands) => operands@,
        Group::Terms(_) => Seq::empty(),
    }
}

/// A visit of `g` on a well-formed task list keeps it well-formed.
proof fn lemma_visit_well_formed(g: Group, rest: Seq<Task>, height: nat)
    requires
        well_formed(rest, height + 1),
    ensures
        well_formed(rest.push(Task::Visit(g)), height),
    decreases g, operand_count(g) + 1,
{
    let ts = rest.push(Task::Visit(g));
    assert(ts.drop_last() =~= rest);
    match g {
        Group::Terms(_) => {},
        Group::Operator(op, operands) => {
            let n = operands@.len();
            let base = rest.push(Task::Finish(op, n));
            assert(base.drop_last() =~= rest);
            lemma_operands_well_formed(g, 0, base, height);
            assert(operands@.subrange(0, n as int) =~= operands@);
        },
    }
}

/// Visits of the operands of `g` from `idx` on keep a task list well-formed.
proof fn lemma_operands_well_formed(g: Group, idx: int, base: Seq<Task>, height: nat)
    requires
        g is Operator,
        0 <= idx <= operand_count(g),
        well_formed(base, (height + operand_count(g) - idx) as nat),
    ensures
        well_formed(base + visits(operands_of(g).subrange(idx, operand_count(g) as int)), height),
    decreases g, operand_count(g) - idx,
{
    let kids = operands_of(g);
    let n = operand_count(g) as int;
    if idx == n {
        assert(base + visits(kids.subrange(idx, n)) =~= base);
    } else {
        let tail = base + visits(kids.subrange(idx + 1, n));
        assert(base + visits(kids.subrange(idx, n)) =~= tail.push(Task::Visit(kids[idx])));
        lemma_operands_well_formed(g, idx + 1, base, height + 1);
        assert(decreases_to!(g => kids[idx])) by {
            if let Group::Operator(_, operands) = g {
                assert(decreases_to!(operands => operands@));
            }
        }
        lemma_visit_well_formed(kids[idx], tail, height);
    }
}

/// Any run that starts with a visit of `g` first turns `g` into one result
/// that `g` is mapped to, and then runs the remaining tasks.
proof fn lemma_visit_runs<F: FnMut(Group) -> Group>(
    f: F,
    g: Group,
    rest: Seq<Task>,
    st: Seq<Group>,
    fin: Seq<Group>,
)
    requires
        reaches(f, rest.push(Task::Visit(g)), st, fin),
    ensures
        exists|r: Group| #[trigger] mapped_by(f, g, r) && reaches(f, rest, st.push(r), fin),
    decreases g, operand_count(g) + 1,
{
    let ts = rest.push(Task::Visit(g));
    assert(ts.drop_last() =~= rest);
    match g {
        Group::Terms(_) => {
            let r = choose|r: Group| #[trigger]
                call_ensures(f, (g,), r) && reaches(f, rest, st.push(r), fin);
            assert(mapped_by(f, g, r));
        },
        Group::Operator(op, operands) => {
            let kids = operands@;
            let n = kids.len();
            let base = rest.push(Task::Finish(op, n));
            assert(kids.subrange(0, n as int) =~= kids);
            lemma_operands_run(f, g, 0, base, st, fin);
            let rs = choose|rs: Seq<Group>|
                {
                    &&& rs.len() == n
                    &&& (forall|i: int| 0 <= i < n ==> mapped_by(f, kids[i], #[trigger] rs[i]))
                    &&& reaches(f, base, st + rs, fin)
                };
            let all = st + rs;
            assert(base.drop_last() =~= rest);
            assert(all.subrange(all.len() - n, all.len() as int) =~= rs);
            assert(all.subrange(0, all.len() - n) =~= st);
            let (node, r) = choose|node: Group, r: Group|
                {
                    &&& #[trigger] call_ensures(f, (node,), r)
                    &&& node matches Group::Operator(op2, operands2)
                    &&& op2 == op
                    &&& operands2@ == all.subrange(all.len() - n, all.len() as int)
                    &&& reaches(f, rest, all.subrange(0, all.len() - n).push(r), fin)
                };
            assert(mapped_by(f, g, r));
        },
    }
}

/// Any run that starts with the visits of the operands of `g` from `idx` on
/// first turns each of them into a result, in order, and then runs `base`.
proof fn lemma_operands_run<F: FnMut(Group) -> Group>(
    f: F,
    g: Group,
    idx: int,
    base: Seq<Task>,
    st: Seq<Group>,
    fin: Seq<Group>,
)
    requires
        g is Operator,
        0 <= idx <= operand_count(g),
        reaches(f, base + visits(operands_of(g).subrange(idx, operand_count(g) as int)), st, fin),
    ensures
        exists|rs: Seq<Group>|
            {
                &&& rs.len() == operand_count(g) - idx
                &&& (forall|i: int|
                    0 <= i < rs.len() ==> mapped_by(f, operands_of(g)[idx + i], #[trigger] rs[i]))
                &&& reaches(f, base, st + rs, fin)
            },
    decreases g, operand_count(g) - idx,
{
    let kids = operands_of(g);
    let n = operand_count(g) as int;
    if idx == n {
        assert(base + visits(kids.subrange(idx, n)) =~= base);
        assert(st + Seq::<Group>::empty() =~= st);
        let rs = Seq::<Group>::empty();
        assert(rs.len() == n - idx);
    } else {
        let tail = base + visits(kids.subrange(idx + 1, n));
        assert(base + visits(kids.subrange(idx, n)) =~= tail.push(Task::Visit(kids[idx])));
        assert(decreases_to!(g => kids[idx])) by {
            if let Group::Operator(_, operands) = g {
                assert(decreases_to!(operands => operands@));
            }
        }
        lemma_visit_runs(f, kids[idx], tail, st, fin);
        let r0 = choose|r: Group| #[trigger]
            mapped_by(f, kids[idx], r) && reaches(f, tail, st.push(r), fin);
        lemma_operands_run(f, g, idx + 1, base, st.push(r0), fin);
        let rest_rs = choose|rs: Seq<Group>|
            {
                &&& rs.len() == n - (idx + 1)
                &&& (forall|i: int|
                    0 <= i < rs.len() ==> mapped_by(f, kids[idx + 1 + i], #[trigger] rs[i]))
                &&& reaches(f, base, st.push(r0) + rs, fin)
            };
        let rs = seq![r0] + rest_rs;
        assert(st.push(r0) + rest_rs =~= st + rs);
        assert forall|i: int| 0 <= i < rs.len() implies mapped_by(f, kids[idx + i], #[trigger] rs[i]) by {
            if i > 0 {
                assert(rs[i] == rest_rs[i - 1]);
            }
        }
    }
}

impl Group {
    /// Maps a condition operand in post-order with the given function.
    ///
    /// The function is applied after mapping the child nodes, so a condition
    /// can be rewritten from the bottom up. The traversal keeps an explicit
    /// stack rather than recursing, so deep conditions cannot overflow the
    /// call stack.
    #[verifier::spinoff_prover]
    pub fn map<F>(self, mut f: F) -> (mapped: Self) where F: FnMut(Group) -> Group
        requires
            forall|g: Group| call_requires(f, (g,)),
        ensures
            mapped_by(f, self, mapped),
    {
        let ghost root = self;
        let ghost rewrite = f;
        // Initialize stack for input and processed conditions
        let mut input: Vec<(Group, bool, usize)> = Vec::new();
        input.push((self, false, 0));
        let mut stack: Vec<Group> = Vec::new();
        proof {
            let empty = Seq::<Task>::empty();
            assert(tasks_of(input@) =~= empty.push(Task::Visit(root)));
            assert(well_formed(empty, 1));
            lemma_visit_well_formed(root, empty, 0);
            assert forall|fin: Seq<Group>| reaches(f, tasks_of(input@), stack@, fin) implies fin.len()
                == 1 && mapped_by(f, root, fin[0]) by {
                lemma_visit_runs(f, root, empty, stack@, fin);
                let r = choose|r: Group| #[trigger]
                    mapped_by(f, root, r) && reaches(f, empty, stack@.push(r), fin);
                assert(fin =~= seq![r]);
            }
        }
        // Process input stack until empty, transforming conditions in pre-
        // order, moving them onto the stack of processed conditions
        loop
            invariant
                f == rewrite,
                forall|g: Group| call_requires(f, (g,)),
                well_formed(tasks_of(input@), stack@.len()),
                forall|fin: Seq<Group>|
                    reaches(f, tasks_of(input@), stack@, fin) ==> fin.len() == 1 && mapped_by(
                        f,
                        root,
                        fin[0],
                    ),
            ensures
                f == rewrite,
                input@.len() == 0,
                forall|fin: Seq<Group>|
                    reaches(f, tasks_of(input@), stack@, fin) ==> fin.len() == 1 && mapped_by(
                        f,
                        root,
                        fin[0],
                    ),
            decreases weight(tasks_of(input@)),
        {
            let ghost before = input@;
            let ghost st = stack@;
            let entry = input.pop();
            let (condition, visited, arity) = match entry {
                Some(entry) => entry,
                None => break,
            };
            let ghost item = (condition, visited, arity);
            let ghost rest = tasks_of(input@);
            proof {
                assert(before =~= input@.push(item));
                assert(tasks_of(before) =~= rest.push(task_of(item)));
                assert(tasks_of(before).drop_last() =~= rest);
            }
            match condition {
                // 1st visit: push condition onto stack and mark as visited,
                // then push children in reverse onto stack for correct order
                Group::Operator(operator, operands) if !visited => {
                    let ghost kids = operands@;
                    let ghost node = Group::Operator(operator, operands);
                    proof {
                        lemma_expand_lowers_weight(rest, operator, operands);
                    }
                    let n = operands.len();
                    let condition = Group::Operator(operator, Vec::new());
                    input.push((condition, true, n));
                    let ghost base = tasks_of(input@);
                    proof {
                        assert(base =~= rest.push(Task::Finish(operator, kids.len())));
                        assert(kids.subrange(n as int, n as int) =~= Seq::<Group>::empty());
                        assert(base + visits(Seq::<Group>::empty()) =~= base);
                    }
                    // Push children in reverse onto stack
                    let mut operands = operands;
                    while operands.len() > 0
                        invariant
                            operands@.len() <= kids.len(),
                            operands@ == kids.subrange(0, operands@.len() as int),
                            tasks_of(input@) == base + visits(
                                kids.subrange(operands@.len() as int, kids.len() as int),
                            ),
                        decreases operands@.len(),
                    {
                        let ghost j = operands@.len() as int;
                        let ghost prev = input@;
                        let condition = operands.pop().unwrap();
                        input.push((condition, false, 0));
                        proof {
                            assert(operands@ =~= kids.subrange(0, j - 1));
                            assert(tasks_of(input@) =~= tasks_of(prev).push(
                                Task::Visit(condition),
                            ));
                            assert(visits(kids.subrange(j - 1, kids.len() as int)) =~= visits(
                                kids.subrange(j, kids.len() as int),
                            ).push(Task::Visit(kids[j - 1])));
                        }
                    }
                    proof {
                        assert(kids.subrange(0, kids.len() as int) =~= kids);
                        assert(task_of(item) == Task::Visit(node));
                        assert(tasks_of(input@) == rest.push(Task::Finish(operator, kids.len()))
                            + visits(kids));
                        assert forall|fin: Seq<Group>| reaches(
                            f,
                            tasks_of(input@),
                            stack@,
                            fin,
                        ) implies fin.len() == 1 && mapped_by(f, root, fin[0]) by {
                            assert(stack@ == st);
                            assert(tasks_of(before).last() == Task::Visit(node));
                            assert(tasks_of(before).len() > 0);
                            assert(reaches(f, tasks_of(before), st, fin));
                        }
                    }
                },
                // 2nd visit: pop exactly as many children as the condition
                // expects from the stack and process the condition
                Group::Operator(operator, ..) => {
                    proof {
                        assert(task_of(item) == Task::Finish(operator, arity as nat));
                    }
                    let operands = stack.split_off(stack.len() - arity);
                    let node = Group::Operator(operator, operands);
                    let ghost input_node = node;
                    let result = f(node);
                    stack.push(result);
                    proof {
                        assert(st.subrange(0, st.len() - arity).push(result) =~= stack@);
                        assert forall|fin: Seq<Group>| reaches(
                            f,
                            tasks_of(input@),
                            stack@,
                            fin,
                        ) implies fin.len() == 1 && mapped_by(f, root, fin[0]) by {
                            assert(call_ensures(f, (input_node,), result));
                            assert(reaches(f, tasks_of(before), st, fin));
                        }
                    }
                },
                // Push terms onto stack for processing
                Group::Terms(_) if !visited => {
                    let ghost input_node = condition;
                    let result = f(condition);
                    stack.push(result);
                    proof {
                        assert(task_of(item) == Task::Visit(input_node));
                        assert forall|fin: Seq<Group>| reaches(
                            f,
                            tasks_of(input@),
                            stack@,
                            fin,
                        ) implies fin.len() == 1 && mapped_by(f, root, fin[0]) by {
                            assert(call_ensures(f, (input_node,), result));
                            assert(reaches(f, tasks_of(before), st, fin));
                        }
                    }
                },
                // A visited entry always holds an operator
                Group::Terms(_) => {
                    proof {
                        assert(task_of(item) == Task::Invalid);
                    }
                },
            }
        }
        // Return the top-most processed condition
        proof {
            assert(tasks_of(input@) =~= Seq::<Task>::empty());
            assert(reaches(f, tasks_of(input@), stack@, stack@));
            assert(stack@.len() == 1 && mapped_by(f, root, stack@[0]));
            assert(stack@.last() == stack@[0]);
        }
        stack.pop().expect("invariant")
    }
}

} // verus!
