use vstd::prelude::*;

use crate::parser::expressions::util::name::Name;
use crate::text::same_text;

verus! {

/// The dependency trees as plain values: for each tracked variable, its name and the names of
/// the variables it directly depends on.
pub type Trees = Seq<(Seq<char>, Seq<Seq<char>>)>;

/// The texts of a list of names.
pub open spec fn name_texts(names: Seq<Name>) -> Seq<Seq<char>> {
    names.map_values(|n: Name| n.0@)
}

/// The plain value of the stored trees.
pub open spec fn trees_of(nodes: Seq<(Name, Vec<Name>)>) -> Trees {
    nodes.map_values(|e: (Name, Vec<Name>)| (e.0.0@, name_texts(e.1@)))
}

/// The position of the tree whose root is `n` (the first one, should there be several), or -1.
pub open spec fn tree_index(g: Trees, n: Seq<char>) -> int
    decreases g.len(),
{
    if g.len() == 0 {
        -1
    } else if g[0].0 == n {
        0
    } else {
        let rest = tree_index(g.drop_first(), n);
        if rest < 0 {
            -1
        } else {
            rest + 1
        }
    }
}

/// Whether a tree is stored for the variable `n`.
pub open spec fn is_tree(g: Trees, n: Seq<char>) -> bool {
    tree_index(g, n) >= 0
}

/// The direct dependencies recorded for `n`; none when no tree is stored for it.
pub open spec fn children_of(g: Trees, n: Seq<char>) -> Seq<Seq<char>> {
    if is_tree(g, n) {
        g[tree_index(g, n)].1
    } else {
        Seq::empty()
    }
}

/// A chain of variables, each with a stored tree, each directly depending on the next.
pub open spec fn is_walk(g: Trees, s: Seq<Seq<char>>) -> bool {
    &&& s.len() >= 1
    &&& forall|i: int| 0 <= i < s.len() ==> #[trigger] is_tree(g, s[i])
    &&& forall|i: int| 0 <= i < s.len() - 1 ==> #[trigger] children_of(g, s[i]).contains(s[i + 1])
}

/// Whether `parent` depends on `child`, directly or through other variables: a chain of stored
/// trees leads from `parent` to `child`. Every variable with a tree depends on itself.
pub open spec fn depends(g: Trees, parent: Seq<char>, child: Seq<char>) -> bool {
    exists|s: Seq<Seq<char>>| #[trigger] is_walk(g, s) && s[0] == parent && s.last() == child
}

/// No two different variables depend on each other.
pub open spec fn acyclic(g: Trees) -> bool {
    forall|a: Seq<char>, b: Seq<char>|
        #![trigger depends(g, a, b), depends(g, b, a)]
        a != b && depends(g, a, b) ==> !depends(g, b, a)
}

/// The trees after starting a fresh tree for `n`: an existing tree for it loses its
/// dependencies, and otherwise an empty tree is added.
pub open spec fn reset_tree(g: Trees, n: Seq<char>) -> Trees {
    let i = tree_index(g, n);
    if i >= 0 {
        g.update(i, (g[i].0, Seq::empty()))
    } else {
        g.push((n, Seq::empty()))
    }
}

/// The trees after recording that `current` depends directly on `dep`; nothing changes when it
/// already was recorded.
pub open spec fn with_dependency(g: Trees, current: Seq<char>, dep: Seq<char>) -> Trees {
    let i = tree_index(g, current);
    if g[i].1.contains(dep) {
        g
    } else {
        g.update(i, (g[i].0, g[i].1.push(dep)))
    }
}

/// What `tree_index` is: the first position whose root is `n`, or -1 when none is.
pub proof fn lemma_tree_index(g: Trees, n: Seq<char>)
    ensures
        tree_index(g, n) >= -1,
        tree_index(g, n) == -1 <==> (forall|x: int| 0 <= x < g.len() ==> #[trigger] g[x].0 != n),
        tree_index(g, n) >= 0 ==> {
            &&& tree_index(g, n) < g.len()
            &&& g[tree_index(g, n)].0 == n
            &&& forall|x: int| 0 <= x < tree_index(g, n) ==> #[trigger] g[x].0 != n
        },
    decreases g.len(),
{
    if g.len() > 0 && g[0].0 != n {
        let rest = g.drop_first();
        lemma_tree_index(rest, n);
        assert forall|x: int| 1 <= x < g.len() implies #[trigger] g[x].0 == rest[x - 1].0 by {}
        if tree_index(rest, n) == -1 {
            assert forall|x: int| 0 <= x < g.len() implies #[trigger] g[x].0 != n by {
                if x > 0 {
                    assert(rest[x - 1].0 != n);
                }
            }
        } else {
            let r = tree_index(rest, n);
            assert(g[r + 1].0 == n);
            assert forall|x: int| 0 <= x < r + 1 implies #[trigger] g[x].0 != n by {
                if x > 0 {
                    assert(rest[x - 1].0 != n);
                }
            }
        }
    }
}

/// Two lists of trees with the same roots, position by position, find every root at the same place.
pub proof fn lemma_tree_index_same_roots(a: Trees, b: Trees, n: Seq<char>)
    requires
        a.len() == b.len(),
        forall|x: int| 0 <= x < a.len() ==> #[trigger] a[x].0 == b[x].0,
    ensures
        tree_index(a, n) == tree_index(b, n),
{
    lemma_tree_index(a, n);
    lemma_tree_index(b, n);
    if tree_index(a, n) >= 0 {
        let i = tree_index(a, n);
        assert(b[i].0 == n);
        if tree_index(b, n) < i {
            assert(a[tree_index(b, n)].0 == n);
        }
    } else if tree_index(b, n) >= 0 {
        assert(a[tree_index(b, n)].0 == n);
    }
}

/// Appending a tree keeps every root where it was, and places a new root at the end.
pub proof fn lemma_tree_index_push(g: Trees, e: (Seq<char>, Seq<Seq<char>>), n: Seq<char>)
    ensures
        tree_index(g.push(e), n) == if tree_index(g, n) >= 0 {
            tree_index(g, n)
        } else if e.0 == n {
            g.len() as int
        } else {
            -1
        },
{
    let p = g.push(e);
    lemma_tree_index(g, n);
    lemma_tree_index(p, n);
    assert forall|x: int| 0 <= x < g.len() implies #[trigger] p[x] == g[x] by {}
    if tree_index(g, n) >= 0 {
        assert(p[tree_index(g, n)].0 == n);
    } else if e.0 == n {
        assert(p[g.len() as int].0 == n);
    } else {
        assert forall|x: int| 0 <= x < p.len() implies #[trigger] p[x].0 != n by {
            if x < g.len() {
                assert(g[x].0 != n);
            }
        }
    }
}

/// A chain can be extended by a direct dependency of its last variable.
pub proof fn lemma_depends_extend(g: Trees, a: Seq<char>, b: Seq<char>, c: Seq<char>)
    requires
        depends(g, a, b),
        is_tree(g, c),
        children_of(g, b).contains(c),
    ensures
        depends(g, a, c),
{
    let s = choose|s: Seq<Seq<char>>| #[trigger] is_walk(g, s) && s[0] == a && s.last() == b;
    let t = s.push(c);
    assert forall|i: int| 0 <= i < t.len() implies #[trigger] is_tree(g, t[i]) by {
        if i < s.len() {
            assert(t[i] == s[i]);
        }
    }
    assert forall|i: int| 0 <= i < t.len() - 1 implies #[trigger] children_of(g, t[i]).contains(t[i + 1]) by {
        if i < s.len() - 1 {
            assert(t[i] == s[i] && t[i + 1] == s[i + 1]);
            assert(children_of(g, s[i]).contains(s[i + 1]));
        } else {
            assert(t[i] == b && t[i + 1] == c);
        }
    }
    assert(is_walk(g, t));
}

/// Whatever `a` reaches along a chain from a variable it depends on, it depends on.
proof fn lemma_depends_along(g: Trees, a: Seq<char>, s: Seq<Seq<char>>)
    requires
        is_walk(g, s),
        depends(g, a, s[0]),
    ensures
        depends(g, a, s.last()),
    decreases s.len(),
{
    if s.len() > 1 {
        let t = s.drop_last();
        assert forall|i: int| 0 <= i < t.len() implies #[trigger] is_tree(g, t[i]) by {
            assert(t[i] == s[i]);
        }
        assert forall|i: int| 0 <= i < t.len() - 1 implies #[trigger] children_of(g, t[i]).contains(t[i + 1]) by {
            assert(t[i] == s[i] && t[i + 1] == s[i + 1]);
        }
        lemma_depends_along(g, a, t);
        assert(children_of(g, s[s.len() - 2]).contains(s[s.len() - 2 + 1]));
        assert(is_tree(g, s[s.len() - 1]));
        lemma_depends_extend(g, a, t.last(), s.last());
    }
}

/// Depending is transitive.
pub proof fn lemma_depends_transitive(g: Trees, a: Seq<char>, b: Seq<char>, c: Seq<char>)
    requires
        depends(g, a, b),
        depends(g, b, c),
    ensures
        depends(g, a, c),
{
    let s = choose|s: Seq<Seq<char>>| #[trigger] is_walk(g, s) && s[0] == b && s.last() == c;
    lemma_depends_along(g, a, s);
}

/// Only a variable with a tree depends on anything, and only variables with trees are depended on.
pub proof fn lemma_depends_needs_trees(g: Trees, a: Seq<char>, b: Seq<char>)
    ensures
        depends(g, a, b) ==> is_tree(g, a) && is_tree(g, b),
        is_tree(g, a) ==> depends(g, a, a),
{
    if depends(g, a, b) {
        let s = choose|s: Seq<Seq<char>>| #[trigger] is_walk(g, s) && s[0] == a && s.last() == b;
        assert(is_tree(g, s[0]));
        assert(is_tree(g, s[s.len() - 1]));
    }
    if is_tree(g, a) {
        let s = seq![a];
        assert(is_walk(g, s));
    }
}

/// The number of unmarked positions.
pub open spec fn count_unmarked(m: Seq<bool>) -> nat
    decreases m.len(),
{
    if m.len() == 0 {
        0
    } else {
        count_unmarked(m.drop_last()) + if m.last() {
            0nat
        } else {
            1nat
        }
    }
}

/// Marking an unmarked position leaves one fewer unmarked.
proof fn lemma_mark_one(m: Seq<bool>, j: int)
    requires
        0 <= j < m.len(),
        !m[j],
    ensures
        count_unmarked(m.update(j, true)) + 1 == count_unmarked(m),
    decreases m.len(),
{
    let u = m.update(j, true);
    if j == m.len() - 1 {
        assert(u.drop_last() =~= m.drop_last());
    } else {
        assert(u.drop_last() =~= m.drop_last().update(j, true));
        lemma_mark_one(m.drop_last(), j);
    }
}

/// Every variable with a tree that the marked tree at `x` directly depends on is marked.
pub open spec fn closed_at(g: Trees, m: Seq<bool>, x: int) -> bool {
    m[x] ==> forall|y: int|
        0 <= y < g[x].1.len() && #[trigger] tree_index(g, g[x].1[y]) >= 0 ==> m[tree_index(g, g[x].1[y])]
}

/// When marks are closed under direct dependency, a chain from a marked tree ends at a marked tree.
proof fn lemma_marks_follow_walk(g: Trees, m: Seq<bool>, s: Seq<Seq<char>>)
    requires
        m.len() == g.len(),
        is_walk(g, s),
        0 <= tree_index(g, s[0]) < g.len(),
        m[tree_index(g, s[0])],
        forall|x: int| 0 <= x < g.len() ==> #[trigger] closed_at(g, m, x),
    ensures
        0 <= tree_index(g, s.last()) < g.len(),
        m[tree_index(g, s.last())],
    decreases s.len(),
{
    if s.len() > 1 {
        let t = s.drop_last();
        assert forall|i: int| 0 <= i < t.len() implies #[trigger] is_tree(g, t[i]) by {
            assert(t[i] == s[i]);
        }
        assert forall|i: int| 0 <= i < t.len() - 1 implies #[trigger] children_of(g, t[i]).contains(t[i + 1]) by {
            assert(t[i] == s[i] && t[i + 1] == s[i + 1]);
        }
        lemma_marks_follow_walk(g, m, t);
        let u = s[s.len() - 2];
        let v = s[s.len() - 1];
        assert(children_of(g, s[s.len() - 2]).contains(s[s.len() - 2 + 1]));
        assert(children_of(g, u).contains(v));
        assert(is_tree(g, u));
        assert(is_tree(g, v));
        lemma_tree_index(g, u);
        let x = tree_index(g, u);
        assert(closed_at(g, m, x));
        let y = choose|y: int| 0 <= y < g[x].1.len() && g[x].1[y] == v;
        assert(tree_index(g, g[x].1[y]) >= 0);
    }
    assert(is_tree(g, s[s.len() - 1]));
    lemma_tree_index(g, s.last());
}

/// A chain without its last variable is still a chain.
proof fn lemma_walk_prefix(g: Trees, s: Seq<Seq<char>>)
    requires
        is_walk(g, s),
        s.len() > 1,
    ensures
        is_walk(g, s.drop_last()),
        s.drop_last()[0] == s[0],
        s.drop_last().last() == s[s.len() - 2],
        children_of(g, s[s.len() - 2]).contains(s.last()),
        is_tree(g, s.last()),
{
    let t = s.drop_last();
    assert forall|i: int| 0 <= i < t.len() implies #[trigger] is_tree(g, t[i]) by {
        assert(t[i] == s[i]);
    }
    assert forall|i: int| 0 <= i < t.len() - 1 implies #[trigger] children_of(g, t[i]).contains(t[i + 1]) by {
        assert(t[i] == s[i] && t[i + 1] == s[i + 1]);
    }
    assert(children_of(g, s[s.len() - 2]).contains(s[s.len() - 2 + 1]));
    assert(is_tree(g, s[s.len() - 1]));
}

/// Recording a dependency keeps every tree where it was, and changes only the dependencies of
/// `current`, by adding `dep` when it was missing.
proof fn lemma_with_dependency(g: Trees, current: Seq<char>, dep: Seq<char>, m: Seq<char>)
    requires
        is_tree(g, current),
    ensures
        tree_index(with_dependency(g, current, dep), m) == tree_index(g, m),
        children_of(with_dependency(g, current, dep), m) == if m == current && !children_of(g, m).contains(dep) {
            children_of(g, m).push(dep)
        } else {
            children_of(g, m)
        },
{
    let i = tree_index(g, current);
    let g2 = with_dependency(g, current, dep);
    lemma_tree_index(g, current);
    lemma_tree_index(g, m);
    if !g[i].1.contains(dep) {
        assert forall|x: int| 0 <= x < g.len() implies #[trigger] g[x].0 == g2[x].0 by {}
        lemma_tree_index_same_roots(g, g2, m);
        if tree_index(g, m) == i {
            assert(m == current);
        }
    }
}

/// A chain after recording that `current` depends on `dep` either was a chain already, or passes
/// from `current` to `dep`.
proof fn lemma_split_added(g: Trees, current: Seq<char>, dep: Seq<char>, s: Seq<Seq<char>>)
    requires
        is_tree(g, current),
        is_walk(with_dependency(g, current, dep), s),
    ensures
        depends(g, s[0], s.last()) || (depends(g, s[0], current) && depends(g, dep, s.last())),
    decreases s.len(),
{
    let g2 = with_dependency(g, current, dep);
    if s.len() == 1 {
        assert(is_tree(g2, s[0]));
        lemma_with_dependency(g, current, dep, s[0]);
        lemma_depends_needs_trees(g, s[0], s[0]);
    } else {
        let t = s.drop_last();
        lemma_walk_prefix(g2, s);
        lemma_split_added(g, current, dep, t);
        let u = s[s.len() - 2];
        let v = s.last();
        lemma_with_dependency(g, current, dep, u);
        lemma_with_dependency(g, current, dep, v);
        if children_of(g, u).contains(v) {
            if depends(g, s[0], u) {
                lemma_depends_extend(g, s[0], u, v);
            } else {
                lemma_depends_extend(g, dep, u, v);
            }
        } else {
            assert(u == current);
            assert(children_of(g2, u).contains(v));
            assert(v == dep);
            lemma_depends_needs_trees(g, dep, dep);
        }
    }
}

/// Recording a dependency that closes no cycle between different variables keeps the trees acyclic.
proof fn lemma_added_keeps_acyclic(g: Trees, current: Seq<char>, dep: Seq<char>)
    requires
        acyclic(g),
        is_tree(g, current),
        dep == current || !depends(g, dep, current),
    ensures
        acyclic(with_dependency(g, current, dep)),
{
    let g2 = with_dependency(g, current, dep);
    assert forall|a: Seq<char>, b: Seq<char>| a != b && depends(g2, a, b) implies !depends(g2, b, a) by {
        if depends(g2, b, a) {
            let s1 = choose|s: Seq<Seq<char>>| #[trigger] is_walk(g2, s) && s[0] == a && s.last() == b;
            let s2 = choose|s: Seq<Seq<char>>| #[trigger] is_walk(g2, s) && s[0] == b && s.last() == a;
            lemma_split_added(g, current, dep, s1);
            lemma_split_added(g, current, dep, s2);
            if dep == current {
                if !depends(g, a, b) {
                    lemma_depends_transitive(g, a, current, b);
                }
                if !depends(g, b, a) {
                    lemma_depends_transitive(g, b, current, a);
                }
                assert(depends(g, a, b) && depends(g, b, a));
            } else if depends(g, a, b) && depends(g, b, a) {
            } else if depends(g, a, b) {
                lemma_depends_transitive(g, dep, a, b);
                lemma_depends_transitive(g, dep, b, current);
            } else if depends(g, b, a) {
                lemma_depends_transitive(g, dep, b, a);
                lemma_depends_transitive(g, dep, a, current);
            } else {
                lemma_depends_transitive(g, dep, b, current);
            }
        }
    }
}

/// Starting a fresh tree for `n` gives `n` a tree with no dependencies and changes no other tree.
proof fn lemma_reset_tree(g: Trees, n: Seq<char>, m: Seq<char>)
    ensures
        is_tree(reset_tree(g, n), m) <==> (is_tree(g, m) || m == n),
        m != n ==> tree_index(reset_tree(g, n), m) == tree_index(g, m),
        m != n ==> children_of(reset_tree(g, n), m) == children_of(g, m),
        children_of(reset_tree(g, n), n) == Seq::<Seq<char>>::empty(),
{
    let g2 = reset_tree(g, n);
    let i = tree_index(g, n);
    lemma_tree_index(g, n);
    lemma_tree_index(g, m);
    if i >= 0 {
        assert forall|x: int| 0 <= x < g.len() implies #[trigger] g[x].0 == g2[x].0 by {}
        lemma_tree_index_same_roots(g, g2, m);
        lemma_tree_index_same_roots(g, g2, n);
    } else {
        lemma_tree_index_push(g, (n, Seq::empty()), m);
        lemma_tree_index_push(g, (n, Seq::empty()), n);
    }
}

/// A chain after starting a fresh tree for `n` that does not end at `n` was a chain before.
proof fn lemma_reset_walk(g: Trees, n: Seq<char>, s: Seq<Seq<char>>)
    requires
        is_walk(reset_tree(g, n), s),
        s.last() != n,
    ensures
        is_walk(g, s),
{
    let g2 = reset_tree(g, n);
    assert forall|i: int| 0 <= i < s.len() implies s[i] != n by {
        if i < s.len() - 1 {
            assert(children_of(g2, s[i]).contains(s[i + 1]));
            lemma_reset_tree(g, n, n);
        }
    }
    assert forall|i: int| 0 <= i < s.len() implies #[trigger] is_tree(g, s[i]) by {
        assert(is_tree(g2, s[i]));
        lemma_reset_tree(g, n, s[i]);
    }
    assert forall|i: int| 0 <= i < s.len() - 1 implies #[trigger] children_of(g, s[i]).contains(s[i + 1]) by {
        assert(children_of(g2, s[i]).contains(s[i + 1]));
        lemma_reset_tree(g, n, s[i]);
    }
}

/// Starting a fresh tree keeps the trees acyclic.
proof fn lemma_reset_keeps_acyclic(g: Trees, n: Seq<char>)
    requires
        acyclic(g),
    ensures
        acyclic(reset_tree(g, n)),
{
    let g2 = reset_tree(g, n);
    assert forall|a: Seq<char>, b: Seq<char>| a != b && depends(g2, a, b) implies !depends(g2, b, a) by {
        if depends(g2, b, a) {
            let s1 = choose|s: Seq<Seq<char>>| #[trigger] is_walk(g2, s) && s[0] == a && s.last() == b;
            let s2 = choose|s: Seq<Seq<char>>| #[trigger] is_walk(g2, s) && s[0] == b && s.last() == a;
            lemma_reset_tree(g, n, n);
            assert(s1.len() > 1);
            assert(s2.len() > 1);
            assert(children_of(g2, s1[0]).contains(s1[0int + 1]));
            assert(children_of(g2, s2[0]).contains(s2[0int + 1]));
            lemma_reset_walk(g, n, s1);
            lemma_reset_walk(g, n, s2);
            assert(depends(g, a, b) && depends(g, b, a));
        }
    }
}

/// Why a dependency tree operation was refused.
#[derive(Debug, Clone, PartialEq, Eq)]
pub enum DependencyError {
    /// No dependency tree is being built.
    NoCurrentTree,
    /// The dependency already depends on the variable being tracked.
    Cycle { current: Name, dependency: Name },
}

/// A chain of names, each recorded as a direct dependency of the one before it.
pub open spec fn is_chain(g: Trees, s: Seq<Seq<char>>) -> bool {
    forall|i: int| 0 <= i < s.len() - 1 ==> #[trigger] children_of(g, s[i]).contains(s[i + 1])
}

/// `d` is reached from `p` along one or more recorded direct dependencies.
pub open spec fn reaches(g: Trees, p: Seq<char>, d: Seq<char>) -> bool {
    exists|s: Seq<Seq<char>>| #[trigger] is_chain(g, s) && s.len() >= 2 && s[0] == p && s.last() == d
}

/// All recorded direct dependencies, tree after tree.
pub open spec fn all_children(g: Trees) -> Seq<Seq<char>>
    decreases g.len(),
{
    if g.len() == 0 {
        Seq::empty()
    } else {
        all_children(g.drop_last()) + g.last().1
    }
}

/// Every recorded direct dependency is among `all_children`.
proof fn lemma_in_all_children(g: Trees, i: int, c: Seq<char>)
    requires
        0 <= i < g.len(),
        g[i].1.contains(c),
    ensures
        all_children(g).contains(c),
    decreases g.len(),
{
    let rest = all_children(g.drop_last());
    if i == g.len() - 1 {
        let k = choose|k: int| 0 <= k < g[i].1.len() && g[i].1[k] == c;
        assert((rest + g.last().1)[rest.len() + k] == c);
    } else {
        assert(g.drop_last()[i] == g[i]);
        lemma_in_all_children(g.drop_last(), i, c);
        let k = choose|k: int| 0 <= k < rest.len() && rest[k] == c;
        assert((rest + g.last().1)[k] == c);
    }
}

/// The dependencies recorded for a name are among `all_children`.
proof fn lemma_children_in_all(g: Trees, n: Seq<char>, c: Seq<char>)
    requires
        children_of(g, n).contains(c),
    ensures
        all_children(g).contains(c),
{
    lemma_tree_index(g, n);
    lemma_in_all_children(g, tree_index(g, n), c);
}

/// A list without duplicates drawn from `u` is no longer than `u`.
proof fn lemma_distinct_within(r: Seq<Seq<char>>, u: Seq<Seq<char>>)
    requires
        r.no_duplicates(),
        forall|k: int| 0 <= k < r.len() ==> u.contains(#[trigger] r[k]),
    ensures
        r.len() <= u.len(),
{
    r.unique_seq_to_set();
    u.lemma_cardinality_of_set();
    vstd::seq_lib::seq_to_set_is_finite(u);
    assert forall|x: Seq<char>| r.to_set().contains(x) implies u.to_set().contains(x) by {
        let k = choose|k: int| 0 <= k < r.len() && r[k] == x;
        assert(u.contains(r[k]));
    }
    vstd::set_lib::lemma_len_subset(r.to_set(), u.to_set());
}

/// A chain extended by a direct dependency of its last name reaches that dependency.
proof fn lemma_reaches_extend(g: Trees, p: Seq<char>, d: Seq<char>, c: Seq<char>)
    requires
        reaches(g, p, d),
        children_of(g, d).contains(c),
    ensures
        reaches(g, p, c),
{
    let s = choose|s: Seq<Seq<char>>| #[trigger] is_chain(g, s) && s.len() >= 2 && s[0] == p && s.last() == d;
    let t = s.push(c);
    assert forall|i: int| 0 <= i < t.len() - 1 implies #[trigger] children_of(g, t[i]).contains(t[i + 1]) by {
        if i < s.len() - 1 {
            assert(t[i] == s[i] && t[i + 1] == s[i + 1]);
            assert(children_of(g, s[i]).contains(s[i + 1]));
        }
    }
    assert(is_chain(g, t));
}

/// A direct dependency is reached.
proof fn lemma_reaches_child(g: Trees, p: Seq<char>, c: Seq<char>)
    requires
        children_of(g, p).contains(c),
    ensures
        reaches(g, p, c),
{
    let s = seq![p, c];
    assert(children_of(g, s[0]).contains(s[0int + 1]));
    assert(is_chain(g, s));
}

/// When `r` holds the direct dependencies of `p` and of each of its own names, every name that a
/// chain from `p` reaches is in `r`.
proof fn lemma_closed_holds_chain(g: Trees, p: Seq<char>, r: Seq<Seq<char>>, s: Seq<Seq<char>>)
    requires
        is_chain(g, s),
        s.len() >= 2,
        s[0] == p,
        forall|c: Seq<char>| children_of(g, p).contains(c) ==> r.contains(c),
        forall|k: int, c: Seq<char>| 0 <= k < r.len() && #[trigger] children_of(g, r[k]).contains(c) ==> r.contains(c),
    ensures
        r.contains(s.last()),
    decreases s.len(),
{
    assert(children_of(g, s[0]).contains(s[0int + 1]));
    if s.len() > 2 {
        let t = s.drop_last();
        assert forall|i: int| 0 <= i < t.len() - 1 implies #[trigger] children_of(g, t[i]).contains(t[i + 1]) by {
            assert(t[i] == s[i] && t[i + 1] == s[i + 1]);
            assert(children_of(g, s[i]).contains(s[i + 1]));
        }
        lemma_closed_holds_chain(g, p, r, t);
        let k = choose|k: int| 0 <= k < r.len() && r[k] == t.last();
        assert(children_of(g, s[s.len() - 2]).contains(s[s.len() - 2 + 1]));
        assert(children_of(g, r[k]).contains(s.last()));
    }
}

/// Whether a list of names holds the name.
fn contains_name(names: &Vec<Name>, name: &Name) -> (res: bool)
    ensures
        res == name_texts(names@).contains(name.0@),
{
    let mut i: usize = 0;
    while i < names.len()
        invariant
            i <= names@.len(),
            forall|k: int| 0 <= k < i ==> names@[k].0@ != name.0@,
        decreases names@.len() - i,
    {
        if same_text(names[i].0.as_str(), name.0.as_str()) {
            assert(name_texts(names@)[i as int] == name.0@);
            return true;
        }
        i = i + 1;
    }
    proof {
        if name_texts(names@).contains(name.0@) {
            let k = choose|k: int| 0 <= k < name_texts(names@).len() && name_texts(names@)[k] == name.0@;
            assert(names@[k].0@ != name.0@);
        }
    }
    false
}

/// Finds the tree whose root is the name.
fn find_tree(nodes: &Vec<(Name, Vec<Name>)>, name: &Name) -> (res: Option<usize>)
    ensures
        match res {
            Some(i) => i < nodes@.len() && i as int == tree_index(trees_of(nodes@), name.0@),
            None => tree_index(trees_of(nodes@), name.0@) == -1,
        },
{
    let ghost g = trees_of(nodes@);
    proof {
        lemma_tree_index(g, name.0@);
    }
    let mut i: usize = 0;
    while i < nodes.len()
        invariant
            i <= nodes@.len(),
            g == trees_of(nodes@),
            forall|x: int| 0 <= x < i ==> #[trigger] g[x].0 != name.0@,
        decreases nodes@.len() - i,
    {
        if same_text(nodes[i].0.0.as_str(), name.0.as_str()) {
            proof {
                lemma_tree_index(g, name.0@);
                let t = tree_index(g, name.0@);
                assert(g[i as int].0 == name.0@);
                if t < i {
                    assert(g[t].0 != name.0@);
                }
                if t > i {
                    assert(g[i as int].0 != name.0@);
                }
            }
            return Some(i);
        }
        i = i + 1;
    }
    proof {
        lemma_tree_index(g, name.0@);
    }
    None
}

/// A copy of a name.
fn copy_name(n: &Name) -> (res: Name)
    ensures
        res.0@ == n.0@,
{
    Name(n.0.clone())
}

/// A set of trees representing variable dependencies, used to detect dependency cycles among the
/// variables of the global scope. In the program
///
/// ```cabin
/// let x = y;
/// let y = x;
/// ```
///
/// the variables `x` and `y` depend on each other, which this structure detects.
pub struct VariableDependencyTreeSet {
    /// For each tracked variable, its name and the variables it directly depends on.
    nodes: Vec<(Name, Vec<Name>)>,
    /// The variables whose trees are being built, innermost last.
    current_stack: Vec<Name>,
}

impl VariableDependencyTreeSet {
    /// The stored trees.
    pub closed spec fn trees(&self) -> Trees {
        trees_of(self.nodes@)
    }

    /// The variables whose trees are being built, innermost last.
    pub closed spec fn stack(&self) -> Seq<Seq<char>> {
        name_texts(self.current_stack@)
    }

    /// Every variable being tracked has a tree, no two different variables depend on each
    /// other, and no variable depends directly on itself.
    pub open spec fn wf(&self) -> bool {
        &&& forall|k: int| 0 <= k < self.stack().len() ==> #[trigger] is_tree(self.trees(), self.stack()[k])
        &&& acyclic(self.trees())
        &&& no_self_dependency(self.trees())
    }

    /// Whether `parent` depends on `possible_child`, directly or through other variables. A
    /// variable without a tree depends on nothing and nothing depends on it; a variable with a
    /// tree depends on itself.
    pub fn depends_on(&self, parent: &Name, possible_child: &Name) -> (res: bool)
        ensures
            res == depends(self.trees(), parent.0@, possible_child.0@),
    {
        let ghost g = self.trees();
        let ghost p = parent.0@;
        let start = match find_tree(&self.nodes, parent) {
            Some(i) => i,
            None => {
                proof {
                    lemma_depends_needs_trees(g, p, possible_child.0@);
                }
                return false;
            },
        };
        if same_text(parent.0.as_str(), possible_child.0.as_str()) {
            proof {
                lemma_depends_needs_trees(g, p, p);
            }
            return true;
        }
        proof {
            lemma_tree_index(g, p);
            lemma_depends_needs_trees(g, p, p);
        }
        let n = self.nodes.len();
        let mut marked: Vec<bool> = Vec::new();
        let mut k: usize = 0;
        while k < n
            invariant
                k <= n,
                n == self.nodes@.len(),
                start < n,
                marked@.len() == k,
                forall|j: int| 0 <= j < k ==> marked@[j] == (j == start),
            decreases n - k,
        {
            marked.push(k == start);
            k = k + 1;
        }
        let mut changed = true;
        while changed
            invariant
                n == self.nodes@.len(),
                g == self.trees(),
                g.len() == n,
                p == parent.0@,
                marked@.len() == n,
                start < n,
                start as int == tree_index(g, p),
                marked@[start as int],
                forall|j: int| 0 <= j < n && #[trigger] marked@[j] ==> j == tree_index(g, g[j].0) && depends(g, p, g[j].0),
                !changed ==> forall|x: int| 0 <= x < n ==> #[trigger] closed_at(g, marked@, x),
            decreases count_unmarked(marked@) + if changed {
                1int
            } else {
                0int
            },
        {
            let ghost before = marked@;
            changed = false;
            let mut i: usize = 0;
            while i < n
                invariant
                    n == self.nodes@.len(),
                    g == self.trees(),
                    g.len() == n,
                    p == parent.0@,
                    marked@.len() == n,
                    start < n,
                    start as int == tree_index(g, p),
                    marked@[start as int],
                    forall|j: int| 0 <= j < n && #[trigger] marked@[j] ==> j == tree_index(g, g[j].0) && depends(g, p, g[j].0),
                    i <= n,
                    before.len() == n,
                    changed ==> count_unmarked(marked@) < count_unmarked(before),
                    !changed ==> marked@ == before,
                    !changed ==> forall|x: int| 0 <= x < i ==> #[trigger] closed_at(g, marked@, x),
                decreases n - i,
            {
                if marked[i] {
                    let children = &self.nodes[i].1;
                    let ghost gi = g[i as int];
                    assert(gi.1 == name_texts(children@));
                    let mut c: usize = 0;
                    while c < children.len()
                        invariant
                            n == self.nodes@.len(),
                            g == self.trees(),
                            g.len() == n,
                            p == parent.0@,
                            marked@.len() == n,
                            start < n,
                            start as int == tree_index(g, p),
                            marked@[start as int],
                            forall|j: int| 0 <= j < n && #[trigger] marked@[j] ==> j == tree_index(g, g[j].0) && depends(g, p, g[j].0),
                            i < n,
                            marked@[i as int],
                            gi == g[i as int],
                            gi.1 == name_texts(children@),
                            c <= children@.len(),
                            before.len() == n,
                            changed ==> count_unmarked(marked@) < count_unmarked(before),
                            !changed ==> marked@ == before,
                            !changed ==> forall|x: int| 0 <= x < i ==> #[trigger] closed_at(g, marked@, x),
                            !changed ==> forall|y: int|
                                0 <= y < c && #[trigger] tree_index(g, gi.1[y]) >= 0 ==> marked@[tree_index(g, gi.1[y])],
                        decreases children@.len() - c,
                    {
                        match find_tree(&self.nodes, &children[c]) {
                            Some(j) => {
                                if !marked[j] {
                                    proof {
                                        let child = gi.1[c as int];
                                        assert(child == children@[c as int].0@);
                                        assert(i as int == tree_index(g, g[i as int].0));
                                        assert(children_of(g, g[i as int].0) == gi.1);
                                        assert(children_of(g, g[i as int].0).contains(child));
                                        lemma_tree_index(g, child);
                                        lemma_depends_extend(g, p, g[i as int].0, child);
                                        lemma_mark_one(marked@, j as int);
                                    }
                                    marked.set(j, true);
                                    changed = true;
                                }
                            },
                            None => {},
                        }
                        c = c + 1;
                    }
                    proof {
                        if !changed {
                            assert(closed_at(g, marked@, i as int));
                        }
                    }
                }
                i = i + 1;
            }
        }
        match find_tree(&self.nodes, possible_child) {
            Some(j) => {
                proof {
                    lemma_tree_index(g, possible_child.0@);
                    if !marked@[j as int] && depends(g, p, possible_child.0@) {
                        let s = choose|s: Seq<Seq<char>>| #[trigger] is_walk(g, s) && s[0] == p && s.last() == possible_child.0@;
                        lemma_marks_follow_walk(g, marked@, s);
                    }
                }
                marked[j]
            },
            None => {
                proof {
                    lemma_depends_needs_trees(g, p, possible_child.0@);
                }
                false
            },
        }
    }

    /// Creates a new empty set of trees.
    pub fn new() -> (res: Self)
        ensures
            res.wf(),
            res.trees() == Seq::<(Seq<char>, Seq<Seq<char>>)>::empty(),
            res.stack() == Seq::<Seq<char>>::empty(),
    {
        let res = VariableDependencyTreeSet { nodes: Vec::new(), current_stack: Vec::new() };
        proof {
            assert(res.trees() =~= Seq::<(Seq<char>, Seq<Seq<char>>)>::empty());
            assert(res.stack() =~= Seq::<Seq<char>>::empty());
            assert forall|a: Seq<char>, b: Seq<char>|
                a != b && depends(res.trees(), a, b) implies !depends(res.trees(), b, a) by {
                lemma_depends_needs_trees(res.trees(), a, b);
            }
        }
        res
    }

    /// Whether a dependency tree is currently being built.
    pub fn is_creating_dependency_tree(&self) -> (res: bool)
        ensures
            res == (self.stack().len() > 0),
    {
        self.current_stack.len() > 0
    }

    /// Starts a new dependency tree for `name` and makes it the current one; an earlier tree
    /// for `name` loses its dependencies. `close_tree` returns to the previous tree.
    pub fn create_new_tree_and_set_current(&mut self, name: Name)
        requires
            old(self).wf(),
        ensures
            final(self).wf(),
            final(self).trees() == reset_tree(old(self).trees(), name.0@),
            final(self).stack() == old(self).stack().push(name.0@),
    {
        let ghost g = self.trees();
        let ghost st = self.stack();
        match find_tree(&self.nodes, &name) {
            Some(i) => {
                let (root, _previous) = self.nodes.remove(i);
                self.nodes.insert(i, (root, Vec::new()));
                proof {
                    assert(name_texts(Seq::<Name>::empty()) =~= Seq::<Seq<char>>::empty());
                    assert(self.trees() =~= reset_tree(g, name.0@));
                }
            },
            None => {
                self.nodes.push((copy_name(&name), Vec::new()));
                proof {
                    assert(name_texts(Seq::<Name>::empty()) =~= Seq::<Seq<char>>::empty());
                    assert(self.trees() =~= reset_tree(g, name.0@));
                }
            },
        }
        let ghost n = name.0@;
        self.current_stack.push(name);
        proof {
            assert(self.stack() =~= st.push(n));
            lemma_reset_keeps_acyclic(g, n);
            assert forall|x: Seq<char>| #[trigger] is_tree(self.trees(), x) implies !children_of(self.trees(), x).contains(x) by {
                lemma_reset_tree(g, n, x);
                lemma_reset_tree(g, n, n);
                if x != n {
                    assert(is_tree(g, x));
                }
            }
            assert forall|k: int| 0 <= k < self.stack().len() implies #[trigger] is_tree(self.trees(), self.stack()[k]) by {
                lemma_reset_tree(g, n, self.stack()[k]);
                if k < st.len() {
                    assert(is_tree(g, st[k]));
                }
            }
        }
    }

    /// Returns to the tree that was current before the current one was created.
    pub fn close_tree(&mut self) -> (res: Result<(), DependencyError>)
        requires
            old(self).wf(),
        ensures
            final(self).wf(),
            final(self).trees() == old(self).trees(),
            old(self).stack().len() == 0 ==> res == Err::<(), DependencyError>(DependencyError::NoCurrentTree)
                && final(self).stack() == old(self).stack(),
            old(self).stack().len() > 0 ==> res is Ok && final(self).stack() == old(self).stack().drop_last(),
    {
        let ghost st = self.stack();
        match self.current_stack.pop() {
            Some(_) => {
                proof {
                    assert(self.stack() =~= st.drop_last());
                    assert forall|k: int| 0 <= k < self.stack().len() implies #[trigger] is_tree(self.trees(), self.stack()[k]) by {
                        assert(self.stack()[k] == st[k]);
                    }
                }
                Ok(())
            },
            None => Err(DependencyError::NoCurrentTree),
        }
    }

    /// Records `dependency` as a dependency of the variable whose tree is current. When the
    /// dependency already depends on the current variable (the current variable itself
    /// included), this would be a circular dependency: nothing is recorded and an error is
    /// returned.
    pub fn add_dependency(&mut self, dependency: Name) -> (res: Result<(), DependencyError>)
        requires
            old(self).wf(),
        ensures
            final(self).wf(),
            final(self).stack() == old(self).stack(),
            old(self).stack().len() == 0 ==> res == Err::<(), DependencyError>(DependencyError::NoCurrentTree)
                && final(self).trees() == old(self).trees(),
            old(self).stack().len() > 0 && depends(
                old(self).trees(),
                dependency.0@,
                old(self).stack().last(),
            ) ==> (res matches Err(DependencyError::Cycle { current, dependency: d })
                && current.0@ == old(self).stack().last() && d.0@ == dependency.0@)
                && final(self).trees() == old(self).trees(),
            old(self).stack().len() > 0 && !depends(
                old(self).trees(),
                dependency.0@,
                old(self).stack().last(),
            ) ==> res is Ok && final(self).trees() == with_dependency(
                old(self).trees(),
                old(self).stack().last(),
                dependency.0@,
            ),
    {
        let ghost g = self.trees();
        let ghost st = self.stack();
        let len = self.current_stack.len();
        if len == 0 {
            return Err(DependencyError::NoCurrentTree);
        }
        let current = copy_name(&self.current_stack[len - 1]);
        assert(current.0@ == st.last());
        if self.depends_on(&dependency, &current) {
            return Err(DependencyError::Cycle { current, dependency });
        }
        proof {
            assert(is_tree(g, st[len - 1]));
            lemma_tree_index(g, current.0@);
        }
        let i = match find_tree(&self.nodes, &current) {
            Some(i) => i,
            None => {
                return Err(DependencyError::NoCurrentTree);
            },
        };
        let mut found = false;
        let mut c: usize = 0;
        while c < self.nodes[i].1.len()
            invariant
                i < self.nodes@.len(),
                g == self.trees(),
                c <= self.nodes@[i as int].1@.len(),
                found == (exists|y: int| 0 <= y < c && #[trigger] self.nodes@[i as int].1@[y].0@ == dependency.0@),
            decreases self.nodes@[i as int].1@.len() - c,
        {
            if same_text(self.nodes[i].1[c].0.as_str(), dependency.0.as_str()) {
                found = true;
            }
            c = c + 1;
        }
        proof {
            let ch = g[i as int].1;
            assert(ch == name_texts(self.nodes@[i as int].1@));
            if found {
                let y = choose|y: int| 0 <= y < c && #[trigger] self.nodes@[i as int].1@[y].0@ == dependency.0@;
                assert(ch[y] == dependency.0@);
            } else {
                assert forall|y: int| 0 <= y < ch.len() implies ch[y] != dependency.0@ by {
                    assert(ch[y] == self.nodes@[i as int].1@[y].0@);
                }
            }
            assert(found == ch.contains(dependency.0@));
        }
        let ghost dv = dependency.0@;
        if !found {
            let (root, mut children) = self.nodes.remove(i);
            let ghost old_children = children@;
            children.push(dependency);
            proof {
                assert(name_texts(children@) =~= name_texts(old_children).push(dv));
            }
            self.nodes.insert(i, (root, children));
            proof {
                assert(self.trees() =~= g.update(i as int, (g[i as int].0, g[i as int].1.push(dv))));
            }
        }
        proof {
            assert(self.trees() == with_dependency(g, st.last(), dv));
            lemma_added_keeps_acyclic(g, st.last(), dv);
            lemma_depends_needs_trees(g, st.last(), st.last());
            assert(dv != st.last());
            assert forall|x: Seq<char>| #[trigger] is_tree(self.trees(), x) implies !children_of(self.trees(), x).contains(x) by {
                lemma_with_dependency(g, st.last(), dv, x);
                assert(is_tree(g, x));
                if x == st.last() && !children_of(g, x).contains(dv) {
                    let c = children_of(self.trees(), x);
                    if c.contains(x) {
                        let k = choose|k: int| 0 <= k < c.len() && c[k] == x;
                        if k < c.len() - 1 {
                            assert(children_of(g, x)[k] == x);
                        }
                    }
                }
            }
            assert forall|k: int| 0 <= k < self.stack().len() implies #[trigger] is_tree(self.trees(), self.stack()[k]) by {
                assert(self.stack()[k] == st[k]);
                assert(is_tree(g, st[k]));
                lemma_with_dependency(g, st.last(), dv, st[k]);
            }
        }
        Ok(())
    }

    /// Appends to `res` each direct dependency recorded in the tree at position `j` that `res`
    /// does not hold yet.
    fn add_new_children(&self, res: &mut Vec<Name>, j: usize)
        requires
            j < self.nodes@.len(),
            name_texts(old(res)@).no_duplicates(),
        ensures
            name_texts(final(res)@).no_duplicates(),
            final(res)@.len() >= old(res)@.len(),
            forall|k: int| 0 <= k < old(res)@.len() ==> #[trigger] final(res)@[k] == old(res)@[k],
            forall|c: Seq<char>| self.trees()[j as int].1.contains(c) ==> name_texts(final(res)@).contains(c),
            forall|k: int| old(res)@.len() <= k < final(res)@.len() ==> self.trees()[j as int].1.contains(#[trigger] final(res)@[k].0@),
    {
        let ghost g = self.trees();
        let ghost start = res@;
        let children = &self.nodes[j].1;
        let ghost ch = g[j as int].1;
        assert(ch == name_texts(children@));
        let mut c: usize = 0;
        while c < children.len()
            invariant
                g == self.trees(),
                ch == g[j as int].1,
                ch == name_texts(children@),
                c <= children@.len(),
                name_texts(res@).no_duplicates(),
                res@.len() >= start.len(),
                forall|k: int| 0 <= k < start.len() ==> #[trigger] res@[k] == start[k],
                forall|y: int| 0 <= y < c ==> name_texts(res@).contains(#[trigger] ch[y]),
                forall|k: int| start.len() <= k < res@.len() ==> ch.contains(#[trigger] res@[k].0@),
            decreases children@.len() - c,
        {
            let child = &children[c];
            assert(ch[c as int] == child.0@);
            if !contains_name(res, child) {
                let ghost before = res@;
                res.push(copy_name(child));
                proof {
                    assert(name_texts(res@) =~= name_texts(before).push(child.0@));
                    assert forall|y: int| 0 <= y <= c implies name_texts(res@).contains(#[trigger] ch[y]) by {
                        if y < c {
                            let k = choose|k: int| 0 <= k < name_texts(before).len() && name_texts(before)[k] == ch[y];
                            assert(name_texts(res@)[k] == ch[y]);
                        } else {
                            assert(name_texts(res@)[before.len() as int] == ch[y]);
                        }
                    }
                    assert(ch[c as int] == res@[before.len() as int].0@);
                }
            }
            c = c + 1;
        }
        proof {
            assert forall|x: Seq<char>| ch.contains(x) implies name_texts(res@).contains(x) by {
                let y = choose|y: int| 0 <= y < ch.len() && ch[y] == x;
                assert(name_texts(res@).contains(ch[y]));
            }
        }
    }

    /// All dependencies of the variable with the given name, including sub-dependencies: every
    /// name that a chain of recorded direct dependencies leads to from it, each listed once.
    /// A variable without a tree has none.
    pub fn dependencies(&self, parent: &Name) -> (res: Vec<Name>)
        ensures
            name_texts(res@).no_duplicates(),
            forall|d: Seq<char>| name_texts(res@).contains(d) <==> reaches(self.trees(), parent.0@, d),
    {
        let ghost g = self.trees();
        let ghost p = parent.0@;
        let mut res: Vec<Name> = Vec::new();
        proof {
            assert(name_texts(res@) =~= Seq::<Seq<char>>::empty());
        }
        let start = match find_tree(&self.nodes, parent) {
            Some(j) => j,
            None => {
                proof {
                    assert forall|d: Seq<char>| !reaches(g, p, d) by {
                        if reaches(g, p, d) {
                            let s = choose|s: Seq<Seq<char>>| #[trigger] is_chain(g, s) && s.len() >= 2 && s[0] == p && s.last() == d;
                            assert(children_of(g, s[0]).contains(s[0int + 1]));
                        }
                    }
                }
                return res;
            },
        };
        proof {
            lemma_tree_index(g, p);
        }
        self.add_new_children(&mut res, start);
        proof {
            assert(children_of(g, p) == g[start as int].1);
            assert forall|k: int| 0 <= k < res@.len() implies reaches(g, p, #[trigger] res@[k].0@) && all_children(g).contains(res@[k].0@) by {
                lemma_reaches_child(g, p, res@[k].0@);
                lemma_children_in_all(g, p, res@[k].0@);
            }
        }
        let mut i: usize = 0;
        while i < res.len()
            invariant
                g == self.trees(),
                p == parent.0@,
                i <= res@.len(),
                name_texts(res@).no_duplicates(),
                forall|k: int| 0 <= k < res@.len() ==> reaches(g, p, #[trigger] res@[k].0@) && all_children(g).contains(res@[k].0@),
                forall|c: Seq<char>| children_of(g, p).contains(c) ==> name_texts(res@).contains(c),
                forall|k: int, c: Seq<char>|
                    0 <= k < i && #[trigger] children_of(g, name_texts(res@)[k]).contains(c) ==> name_texts(res@).contains(c),
            decreases all_children(g).len() - i,
        {
            proof {
                assert forall|k: int| 0 <= k < name_texts(res@).len() implies all_children(g).contains(#[trigger] name_texts(res@)[k]) by {
                    assert(all_children(g).contains(res@[k].0@));
                }
                lemma_distinct_within(name_texts(res@), all_children(g));
            }
            let ghost before = res@;
            let ghost current = res@[i as int].0@;
            match find_tree(&self.nodes, &res[i]) {
                Some(j) => {
                    proof {
                        lemma_tree_index(g, current);
                    }
                    self.add_new_children(&mut res, j);
                    proof {
                        assert(children_of(g, current) == g[j as int].1);
                        assert forall|k: int| 0 <= k < res@.len() implies reaches(g, p, #[trigger] res@[k].0@)
                            && all_children(g).contains(res@[k].0@) by {
                            if k >= before.len() {
                                lemma_reaches_extend(g, p, current, res@[k].0@);
                                lemma_children_in_all(g, current, res@[k].0@);
                            } else {
                                assert(res@[k] == before[k]);
                            }
                        }
                        assert forall|x: Seq<char>| name_texts(before).contains(x) implies name_texts(res@).contains(x) by {
                            let k = choose|k: int| 0 <= k < name_texts(before).len() && name_texts(before)[k] == x;
                            assert(name_texts(res@)[k] == x);
                        }
                        assert forall|k: int, c: Seq<char>|
                            0 <= k < i + 1 && #[trigger] children_of(g, name_texts(res@)[k]).contains(c) implies name_texts(res@).contains(c) by {
                            assert(name_texts(res@)[k] == name_texts(before)[k]);
                        }
                    }
                },
                None => {
                    proof {
                        assert forall|k: int, c: Seq<char>|
                            0 <= k < i + 1 && #[trigger] children_of(g, name_texts(res@)[k]).contains(c) implies name_texts(res@).contains(c) by {
                            if k == i {
                                assert(name_texts(res@)[k] == current);
                            }
                        }
                    }
                },
            }
            i = i + 1;
        }
        proof {
            let r = name_texts(res@);
            assert forall|d: Seq<char>| r.contains(d) <==> reaches(g, p, d) by {
                if r.contains(d) {
                    let k = choose|k: int| 0 <= k < r.len() && r[k] == d;
                    assert(reaches(g, p, res@[k].0@));
                }
                if reaches(g, p, d) {
                    let s = choose|s: Seq<Seq<char>>| #[trigger] is_chain(g, s) && s.len() >= 2 && s[0] == p && s.last() == d;
                    lemma_closed_holds_chain(g, p, r, s);
                }
            }
        }
        res
    }
}

/// Every chain of the trees before a dependency is recorded is still a chain after.
proof fn lemma_with_dependency_keeps_walks(g: Trees, current: Seq<char>, dep: Seq<char>, s: Seq<Seq<char>>)
    requires
        is_tree(g, current),
        is_walk(g, s),
    ensures
        is_walk(with_dependency(g, current, dep), s),
{
    let g2 = with_dependency(g, current, dep);
    assert forall|i: int| 0 <= i < s.len() implies #[trigger] is_tree(g2, s[i]) by {
        assert(is_tree(g, s[i]));
        lemma_with_dependency(g, current, dep, s[i]);
    }
    assert forall|i: int| 0 <= i < s.len() - 1 implies #[trigger] children_of(g2, s[i]).contains(s[i + 1]) by {
        assert(children_of(g, s[i]).contains(s[i + 1]));
        lemma_with_dependency(g, current, dep, s[i]);
        if s[i] == current && !children_of(g, s[i]).contains(dep) {
            let j = choose|j: int| 0 <= j < children_of(g, s[i]).len() && children_of(g, s[i])[j] == s[i + 1];
            assert(children_of(g2, s[i])[j] == s[i + 1]);
        }
    }
}

/// A recorded dependency is seen: once `current` is recorded as depending on a variable that has
/// a tree, `current` depends on it, and everything that depended on something still does.
pub proof fn law_recorded_dependency_is_seen(g: Trees, current: Seq<char>, dep: Seq<char>, a: Seq<char>, b: Seq<char>)
    requires
        is_tree(g, current),
        is_tree(g, dep),
    ensures
        depends(with_dependency(g, current, dep), current, dep),
        depends(g, a, b) ==> depends(with_dependency(g, current, dep), a, b),
{
    let g2 = with_dependency(g, current, dep);
    lemma_with_dependency(g, current, dep, current);
    lemma_with_dependency(g, current, dep, dep);
    let s = seq![current, dep];
    if !children_of(g, current).contains(dep) {
        assert(children_of(g2, current).last() == dep);
    }
    assert(children_of(g2, s[0]).contains(s[0int + 1]));
    assert(is_walk(g2, s));
    if depends(g, a, b) {
        let w = choose|w: Seq<Seq<char>>| #[trigger] is_walk(g, w) && w[0] == a && w.last() == b;
        lemma_with_dependency_keeps_walks(g, current, dep, w);
    }
}

/// A dependency refused as a cycle is one that would make two different variables depend on each
/// other: the dependency already depends on the current variable, and recording it would make the
/// current variable depend on the dependency too.
pub proof fn law_refused_dependency_closes_cycle(g: Trees, current: Seq<char>, dep: Seq<char>)
    requires
        is_tree(g, current),
        dep != current,
        depends(g, dep, current),
    ensures
        depends(with_dependency(g, current, dep), current, dep),
        depends(with_dependency(g, current, dep), dep, current),
        !acyclic(with_dependency(g, current, dep)),
{
    lemma_depends_needs_trees(g, dep, current);
    law_recorded_dependency_is_seen(g, current, dep, dep, current);
}

/// The trees never hold two different variables that depend on each other.
pub proof fn law_no_mutual_dependency(t: &VariableDependencyTreeSet, a: Seq<char>, b: Seq<char>)
    requires
        t.wf(),
        a != b,
        depends(t.trees(), a, b),
    ensures
        !depends(t.trees(), b, a),
{
}

/// Closing a tree returns to the trees being built before the matching
/// `create_new_tree_and_set_current`.
pub proof fn law_close_undoes_create(stack: Seq<Seq<char>>, name: Seq<char>)
    ensures
        stack.push(name).len() > 0,
        stack.push(name).drop_last() == stack,
{
    assert(stack.push(name).drop_last() =~= stack);
}

/// No variable with a tree depends directly on itself.
pub open spec fn no_self_dependency(g: Trees) -> bool {
    forall|x: Seq<char>| #[trigger] is_tree(g, x) ==> !children_of(g, x).contains(x)
}

/// A dependency is recorded once: after `current` was recorded as depending on `dep`, recording
/// it again is accepted and changes nothing.
pub proof fn law_repeated_dependency_is_recorded_once(g: Trees, current: Seq<char>, dep: Seq<char>)
    requires
        acyclic(g),
        is_tree(g, current),
        !depends(g, dep, current),
    ensures
        !depends(with_dependency(g, current, dep), dep, current),
        with_dependency(with_dependency(g, current, dep), current, dep) == with_dependency(g, current, dep),
{
    let g2 = with_dependency(g, current, dep);
    lemma_depends_needs_trees(g, current, current);
    lemma_added_keeps_acyclic(g, current, dep);
    lemma_with_dependency(g, current, dep, current);
    lemma_with_dependency(g, current, dep, dep);
    if depends(g2, dep, current) {
        lemma_depends_needs_trees(g2, dep, current);
        assert(is_tree(g, dep));
        law_recorded_dependency_is_seen(g, current, dep, dep, current);
        assert(dep != current);
        assert(depends(g2, current, dep) && depends(g2, dep, current));
    }
    let i = tree_index(g2, current);
    lemma_tree_index(g, current);
    assert(children_of(g2, current).contains(dep)) by {
        if !children_of(g, current).contains(dep) {
            assert(children_of(g2, current).last() == dep);
        }
    }
    assert(g2[i].1 == children_of(g2, current));
}

} // verus!
