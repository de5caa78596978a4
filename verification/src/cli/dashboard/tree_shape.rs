//! What a built file tree holds: a node for each file under the root and for
//! each directory on the way to one, and nothing else; each node weighs as
//! much as the heaviest file placed at or under it.
use vstd::prelude::*;

use crate::cli::dashboard::file_node::{
    build_spec, child_named, first_named, insert_path, place_file, rank, relative_names,
    root_view, FileStatus, NodeView,
};
use crate::knot::file::KnotFile;

verus! {

/// The node reached from `n` by following `names`, each step taking the
/// first child of that name.
pub open spec fn node_at(n: NodeView, names: Seq<Seq<char>>) -> Option<NodeView>
    decreases names.len(),
{
    if names.len() == 0 {
        Some(n)
    } else {
        match child_named(n.children, names[0]) {
            Some(i) => node_at(n.children[i], names.drop_first()),
            None => None,
        }
    }
}

/// `p` leads from the root to `names`, or to a directory on the way to it.
pub open spec fn on_way(p: Seq<Seq<char>>, names: Seq<Seq<char>>) -> bool {
    0 < p.len() <= names.len() && p == names.take(p.len() as int)
}

/// The `j`-th file lies under the root, and `p` leads to it or to a
/// directory on the way to it.
pub open spec fn placed_under(
    items: Seq<(FileStatus, KnotFile)>,
    root: Seq<char>,
    p: Seq<Seq<char>>,
    j: int,
) -> bool {
    &&& 0 <= j < items.len()
    &&& relative_names(items[j].1.path@, root) matches Some(names)
    &&& on_way(p, names)
}

/// The node that the first step of a placement descends into, before the
/// rest of the names are placed under it.
spec fn next_node(n: NodeView, names: Seq<Seq<char>>, status: FileStatus, is_dir: bool) -> NodeView {
    let name = names[0];
    let last = names.len() == 1;
    let found = child_named(n.children, name);
    let base = match found {
        Some(i) => n.children[i],
        None => NodeView {
            path: crate::cli::dashboard::file_node::path_push(n.path, name),
            name,
            is_dir: if last {
                is_dir
            } else {
                true
            },
            status: FileStatus::Synced,
            children: Seq::<NodeView>::empty(),
        },
    };
    let upgraded = if rank(status) > rank(base.status) {
        NodeView { status, ..base }
    } else {
        base
    };
    if last {
        NodeView { is_dir, ..upgraded }
    } else {
        upgraded
    }
}

proof fn lemma_first_named_is_child_named(cs: Seq<NodeView>, name: Seq<char>, i: int)
    requires
        first_named(cs, name, i),
    ensures
        child_named(cs, name) == Some(i),
{
    let j = choose|j: int| first_named(cs, name, j);
    assert(first_named(cs, name, j));
    if j < i {
        assert(cs[j].name != name);
    } else if i < j {
        assert(cs[i].name != name);
    }
}

proof fn lemma_named_has_first(cs: Seq<NodeView>, name: Seq<char>, j: int)
    requires
        0 <= j < cs.len(),
        cs[j].name == name,
    ensures
        child_named(cs, name) is Some,
    decreases j,
{
    if forall|k: int| 0 <= k < j ==> (#[trigger] cs[k]).name != name {
        assert(first_named(cs, name, j));
    } else {
        let k = choose|k: int| 0 <= k < j && (#[trigger] cs[k]).name == name;
        lemma_named_has_first(cs, name, k);
    }
}

proof fn lemma_child_named_same(a: Seq<NodeView>, b: Seq<NodeView>, x: Seq<char>)
    requires
        forall|k: int| first_named(a, x, k) <==> first_named(b, x, k),
    ensures
        child_named(a, x) == child_named(b, x),
{
    if exists|k: int| first_named(a, x, k) {
        let k = choose|k: int| first_named(a, x, k);
        lemma_first_named_is_child_named(a, x, k);
        lemma_first_named_is_child_named(b, x, k);
    } else {
        assert(!exists|k: int| first_named(b, x, k));
    }
}

proof fn lemma_child_named_update(cs: Seq<NodeView>, i: int, v: NodeView, x: Seq<char>)
    requires
        0 <= i < cs.len(),
        v.name == cs[i].name,
    ensures
        child_named(cs.update(i, v), x) == child_named(cs, x),
{
    let u = cs.update(i, v);
    assert forall|j: int| #![trigger u[j]] #![trigger cs[j]] 0 <= j < cs.len() implies u[j].name
        == cs[j].name by {}
    assert forall|k: int| first_named(u, x, k) <==> first_named(cs, x, k) by {}
    lemma_child_named_same(u, cs, x);
}

proof fn lemma_child_named_push(cs: Seq<NodeView>, v: NodeView, x: Seq<char>)
    requires
        child_named(cs, v.name) is None,
    ensures
        x == v.name ==> child_named(cs.push(v), x) == Some(cs.len() as int),
        x != v.name ==> child_named(cs.push(v), x) == child_named(cs, x),
{
    let u = cs.push(v);
    if x == v.name {
        assert forall|j: int| 0 <= j < cs.len() implies (#[trigger] u[j]).name != x by {
            if cs[j].name == x {
                lemma_named_has_first(cs, x, j);
            }
        }
        assert(first_named(u, x, cs.len() as int));
        lemma_first_named_is_child_named(u, x, cs.len() as int);
    } else {
        assert forall|j: int| #![trigger u[j]] #![trigger cs[j]] 0 <= j < cs.len() implies u[j].name
            == cs[j].name by {}
        assert forall|k: int| first_named(u, x, k) <==> first_named(cs, x, k) by {
            if k == cs.len() {
                assert(u[k].name != x);
            }
        }
        lemma_child_named_same(u, cs, x);
    }
}

/// One step of a placement: the node keeps its status and name, the first
/// name now leads to the placed child, and every other name leads where it
/// led before.
proof fn lemma_insert_step(n: NodeView, names: Seq<Seq<char>>, s: FileStatus, d: bool)
    requires
        names.len() > 0,
    ensures
        ({
            let t = insert_path(n, names, s, d);
            let f = next_node(n, names, s, d);
            let done = insert_path(f, names.drop_first(), s, d);
            &&& t.status == n.status
            &&& f.name == names[0]
            &&& done.status == f.status
            &&& child_named(t.children, names[0]) matches Some(k) && 0 <= k < t.children.len()
                && t.children[k] == done
            &&& forall|x: Seq<char>|
                x != names[0] ==> child_named(#[trigger] t.children, x) == child_named(n.children, x)
            &&& forall|j: int|
                0 <= j < n.children.len() && n.children[j].name != names[0] ==> t.children[j]
                    == #[trigger] n.children[j]
            &&& rank(f.status) >= rank(s)
            &&& names.len() == 1 ==> f.is_dir == d
            &&& (child_named(n.children, names[0]) matches Some(i) ==> {
                &&& f.children == n.children[i].children
                &&& rank(f.status) >= rank(n.children[i].status)
                &&& (f.status == n.children[i].status || f.status == s)
            })
            &&& (child_named(n.children, names[0]) is None ==> {
                &&& f.children.len() == 0
                &&& (f.status == FileStatus::Synced || f.status == s)
            })
        }),
{
    let t = insert_path(n, names, s, d);
    let f = next_node(n, names, s, d);
    let rest = names.drop_first();
    let done = insert_path(f, rest, s, d);
    let name = names[0];
    assert(done.name == f.name && done.status == f.status) by {
        if rest.len() > 0 {
        }
    }
    match child_named(n.children, name) {
        Some(i) => {
            let j = choose|j: int| first_named(n.children, name, j);
            assert(first_named(n.children, name, j));
            assert(t.children == n.children.update(i, done));
            assert forall|x: Seq<char>| x != name implies child_named(
                #[trigger] t.children,
                x,
            ) == child_named(n.children, x) by {
                lemma_child_named_update(n.children, i, done, x);
            }
            lemma_child_named_update(n.children, i, done, name);
        },
        None => {
            assert(t.children == n.children.push(done));
            assert forall|x: Seq<char>| x != name implies child_named(
                #[trigger] t.children,
                x,
            ) == child_named(n.children, x) by {
                lemma_child_named_push(n.children, done, x);
            }
            lemma_child_named_push(n.children, done, name);
        },
    }
}

/// A placement loses no node and lowers no status.
proof fn lemma_insert_keeps(
    n: NodeView,
    names: Seq<Seq<char>>,
    s: FileStatus,
    d: bool,
    p: Seq<Seq<char>>,
)
    requires
        node_at(n, p) is Some,
    ensures
        node_at(insert_path(n, names, s, d), p) matches Some(m2) && rank(m2.status) >= rank(
            node_at(n, p)->0.status,
        ),
    decreases names.len(),
{
    if names.len() > 0 {
        lemma_insert_step(n, names, s, d);
        if p.len() > 0 {
            if p[0] == names[0] {
                let i = child_named(n.children, names[0])->0;
                let f = next_node(n, names, s, d);
                let q = p.drop_first();
                if q.len() > 0 {
                    assert(node_at(f, q) == node_at(n.children[i], q));
                }
                lemma_insert_keeps(f, names.drop_first(), s, d, q);
            } else {
                let j = child_named(n.children, p[0])->0;
                assert(first_named(n.children, p[0], j));
            }
        }
    }
}

/// A placement leads, by the names placed and by each part of them, to a
/// node at least as heavy as the placed status; the last node takes the
/// placed kind.
proof fn lemma_insert_reaches(n: NodeView, names: Seq<Seq<char>>, s: FileStatus, d: bool, k: int)
    requires
        1 <= k <= names.len(),
    ensures
        node_at(insert_path(n, names, s, d), names.take(k)) matches Some(m) && rank(m.status)
            >= rank(s) && (k == names.len() ==> m.is_dir == d),
    decreases names.len(),
{
    lemma_insert_step(n, names, s, d);
    let f = next_node(n, names, s, d);
    let rest = names.drop_first();
    let p = names.take(k);
    assert(p[0] == names[0]);
    assert(p.drop_first() =~= rest.take(k - 1));
    let done = insert_path(f, rest, s, d);
    assert(node_at(insert_path(n, names, s, d), p) == node_at(done, p.drop_first()));
    if k > 1 {
        lemma_insert_reaches(f, rest, s, d, k - 1);
    } else {
        assert(node_at(done, p.drop_first()) == Some(done));
        if names.len() == 1 {
            assert(rest.len() == 0);
            assert(done == f);
        }
    }
}

/// A node that a placement leads to was there before, with its status or
/// with the placed one on the way to the placed names, or it is new, on that
/// way, and synced or of the placed status.
proof fn lemma_insert_adds_only_on_way(
    n: NodeView,
    names: Seq<Seq<char>>,
    s: FileStatus,
    d: bool,
    p: Seq<Seq<char>>,
)
    requires
        node_at(insert_path(n, names, s, d), p) is Some,
    ensures
        ({
            let m2 = node_at(insert_path(n, names, s, d), p)->0;
            ||| (node_at(n, p) matches Some(m) && (m2.status == m.status || (on_way(p, names)
                && m2.status == s)))
            ||| (on_way(p, names) && node_at(n, p) is None && (m2.status == s || m2.status
                == FileStatus::Synced))
        }),
    decreases names.len(),
{
    if names.len() > 0 {
        lemma_insert_step(n, names, s, d);
        if p.len() > 0 {
            if p[0] == names[0] {
                let f = next_node(n, names, s, d);
                let rest = names.drop_first();
                let q = p.drop_first();
                let done = insert_path(f, rest, s, d);
                assert(node_at(insert_path(n, names, s, d), p) == node_at(done, q));
                match child_named(n.children, names[0]) {
                    Some(i) => {
                        assert(node_at(n, p) == node_at(n.children[i], q));
                    },
                    None => {
                        assert(node_at(n, p) is None);
                    },
                }
                if q.len() == 0 {
                    assert(p =~= names.take(1));
                    assert(node_at(done, q) == Some(done));
                } else {
                    lemma_insert_adds_only_on_way(f, rest, s, d, q);
                    match child_named(n.children, names[0]) {
                        Some(i) => {
                            assert(node_at(f, q) == node_at(n.children[i], q));
                        },
                        None => {
                            assert(child_named(f.children, q[0]) is None);
                        },
                    }
                    if on_way(q, rest) {
                        assert forall|idx: int| 0 <= idx < p.len() implies p[idx] == names.take(
                            p.len() as int,
                        )[idx] by {
                            if idx > 0 {
                                assert(p[idx] == q[idx - 1]);
                                assert(q[idx - 1] == rest.take(q.len() as int)[idx - 1]);
                            }
                        }
                        assert(p =~= names.take(p.len() as int));
                    }
                }
            } else {
                let t = insert_path(n, names, s, d);
                assert(child_named(t.children, p[0]) == child_named(n.children, p[0]));
                match child_named(n.children, p[0]) {
                    Some(j) => {
                        assert(first_named(n.children, p[0], j));
                        assert(t.children[j] == n.children[j]);
                        assert(node_at(t, p) == node_at(n, p));
                    },
                    None => {},
                }
            }
        }
    }
}

/// Law: every file under the root has its node in the built tree, and so
/// has each directory on the way to it; each of these nodes weighs at least
/// as much as the file's status.
pub proof fn lemma_built_tree_holds_each_file(
    items: Seq<(FileStatus, KnotFile)>,
    root: Seq<char>,
    j: int,
    k: int,
)
    requires
        0 <= j < items.len(),
        relative_names(items[j].1.path@, root) matches Some(names) && 1 <= k <= names.len(),
    ensures
        node_at(build_spec(items, root), relative_names(items[j].1.path@, root)->0.take(k)) matches Some(
            m,
        ) && rank(m.status) >= rank(items[j].0),
    decreases items.len(),
{
    let prev_items = items.drop_last();
    let prev = build_spec(prev_items, root);
    let last = items.last();
    let names = relative_names(items[j].1.path@, root)->0;
    if j == items.len() - 1 {
        lemma_insert_reaches(prev, names, last.0, last.1.is_dir, k);
    } else {
        assert(prev_items[j] == items[j]);
        lemma_built_tree_holds_each_file(prev_items, root, j, k);
        match relative_names(last.1.path@, root) {
            Some(ln) => {
                lemma_insert_keeps(prev, ln, last.0, last.1.is_dir, names.take(k));
            },
            None => {},
        }
    }
}

/// Law: below its root, the built tree holds only the files under the root
/// and the directories on the way to them, and each node is synced or has
/// the status of a file placed at or under it; with the law above, a node
/// weighs exactly as much as the heaviest file at or under it.
pub proof fn lemma_built_tree_holds_nothing_else(
    items: Seq<(FileStatus, KnotFile)>,
    root: Seq<char>,
    p: Seq<Seq<char>>,
)
    requires
        p.len() > 0,
        node_at(build_spec(items, root), p) is Some,
    ensures
        exists|j: int| placed_under(items, root, p, j),
        ({
            let m = node_at(build_spec(items, root), p)->0;
            ||| m.status == FileStatus::Synced
            ||| exists|j: int| placed_under(items, root, p, j) && items[j].0 == m.status
        }),
    decreases items.len(),
{
    if items.len() == 0 {
        assert(child_named(root_view(root).children, p[0]) is None);
    } else {
        let prev_items = items.drop_last();
        let prev = build_spec(prev_items, root);
        let last = items.last();
        let t = build_spec(items, root);
        let m = node_at(t, p)->0;
        assert forall|j: int| placed_under(prev_items, root, p, j) implies placed_under(
            items,
            root,
            p,
            j,
        ) && items[j] == prev_items[j] by {
            assert(prev_items[j] == items[j]);
        }
        match relative_names(last.1.path@, root) {
            None => {
                lemma_built_tree_holds_nothing_else(prev_items, root, p);
                let j = choose|j: int| placed_under(prev_items, root, p, j);
                assert(placed_under(items, root, p, j));
                if m.status != FileStatus::Synced {
                    let j2 = choose|j: int|
                        placed_under(prev_items, root, p, j) && prev_items[j].0 == m.status;
                    assert(placed_under(items, root, p, j2) && items[j2].0 == m.status);
                }
            },
            Some(ln) => {
                lemma_insert_adds_only_on_way(prev, ln, last.0, last.1.is_dir, p);
                let w = items.len() - 1;
                if on_way(p, ln) {
                    assert(placed_under(items, root, p, w));
                }
                if node_at(prev, p) is Some {
                    lemma_built_tree_holds_nothing_else(prev_items, root, p);
                    let j = choose|j: int| placed_under(prev_items, root, p, j);
                    assert(placed_under(items, root, p, j));
                    let pm = node_at(prev, p)->0;
                    if m.status == pm.status && pm.status != FileStatus::Synced {
                        let j2 = choose|j: int|
                            placed_under(prev_items, root, p, j) && prev_items[j].0 == pm.status;
                        assert(placed_under(items, root, p, j2) && items[j2].0 == m.status);
                    }
                }
                if m.status == last.0 && on_way(p, ln) {
                    assert(placed_under(items, root, p, w) && items[w].0 == m.status);
                }
            },
        }
    }
}

} // verus!
