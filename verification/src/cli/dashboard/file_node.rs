//! The file trees of the dashboard: one per side of a comparison, each file
//! placed under its directories with the status that the comparison gave it,
//! and the rows the tree shows once some directories are expanded.
use vstd::prelude::*;

use crate::knot::file::KnotFile;
use crate::paths::{
    comps_view, components_of, file_name_of, file_name_spec, path_components, strip_prefix_comps,
    strip_prefix_len, Comp, PathComponent,
};
use crate::text::{chars_eq, chars_of, lex_less, lex_lt, lowercase_of, string_of, to_lowercase};

verus! {

/// What a comparison says of a file.
#[derive(Debug, Clone, Copy, PartialEq, Eq, Structural)]
pub enum FileStatus {
    Conflict,
    Unique,
    Modified,
    Synced,
    Archived,
}

/// The text shown for a status.
pub open spec fn status_label(s: FileStatus) -> Seq<char> {
    match s {
        FileStatus::Conflict => "Conflict"@,
        FileStatus::Unique => "Unique"@,
        FileStatus::Modified => "Modified"@,
        FileStatus::Synced => "Synced"@,
        FileStatus::Archived => "Archived"@,
    }
}

/// How much a status weighs: conflicts over unique files over modified ones;
/// any other text weighs nothing.
pub open spec fn status_weight_spec(status: Seq<char>) -> u8 {
    if status == "Conflict"@ {
        3
    } else if status == "Unique"@ {
        2
    } else if status == "Modified"@ {
        1
    } else {
        0
    }
}

/// The weight of a status, by its text.
pub open spec fn rank(s: FileStatus) -> u8 {
    match s {
        FileStatus::Conflict => 3,
        FileStatus::Unique => 2,
        FileStatus::Modified => 1,
        _ => 0,
    }
}

pub fn status_weight(status: &str) -> (r: u8)
    ensures
        r == status_weight_spec(status@),
{
    let s = chars_of(status);
    if chars_eq(s.as_slice(), chars_of("Conflict").as_slice()) {
        3
    } else if chars_eq(s.as_slice(), chars_of("Unique").as_slice()) {
        2
    } else if chars_eq(s.as_slice(), chars_of("Modified").as_slice()) {
        1
    } else {
        0
    }
}

/// Law: a status weighs what its text weighs.
pub proof fn lemma_rank_is_weight_of_label(s: FileStatus)
    ensures
        rank(s) == status_weight_spec(status_label(s)),
{
    reveal_strlit("Conflict");
    reveal_strlit("Unique");
    reveal_strlit("Modified");
    reveal_strlit("Synced");
    reveal_strlit("Archived");
    assert("Unique"@[0] != "Conflict"@[0]);
    assert("Modified"@[0] != "Conflict"@[0]);
    assert("Synced"@[0] != "Conflict"@[0] && "Synced"@[0] != "Unique"@[0]);
    assert("Archived"@[0] != "Conflict"@[0] && "Archived"@[0] != "Modified"@[0]);
}

impl FileStatus {
    pub fn label(&self) -> (r: &'static str)
        ensures
            r@ == status_label(*self),
    {
        match self {
            FileStatus::Conflict => "Conflict",
            FileStatus::Unique => "Unique",
            FileStatus::Modified => "Modified",
            FileStatus::Synced => "Synced",
            FileStatus::Archived => "Archived",
        }
    }

    pub fn weight(&self) -> (r: u8)
        ensures
            r == rank(*self),
    {
        match self {
            FileStatus::Conflict => 3,
            FileStatus::Unique => 2,
            FileStatus::Modified => 1,
            _ => 0,
        }
    }
}

/// A node of a file tree: a file or a directory with its children.
pub struct UiFileNode {
    pub path: String,
    pub name: String,
    pub is_dir: bool,
    pub status: FileStatus,
    pub children: Vec<UiFileNode>,
}

/// The number of levels of the tree under and including `n`.
pub open spec fn height(n: UiFileNode) -> nat
    decreases n, n.children.len() + 1,
{
    1 + max_child_height(n, 0)
}

/// The greatest height among the children of `n` from the `i`-th on.
pub open spec fn max_child_height(n: UiFileNode, i: nat) -> nat
    decreases n, n.children.len() - i,
{
    if i >= n.children.len() {
        0
    } else {
        let h = height(n.children[i as int]);
        let rest = max_child_height(n, i + 1);
        if h > rest {
            h
        } else {
            rest
        }
    }
}


/// `a` is shown before `b` among siblings: directories first, then the heavier
/// status, then the name without regard to case, then the name.
pub open spec fn shown_before(a: UiFileNode, b: UiFileNode) -> bool {
    if a.is_dir != b.is_dir {
        a.is_dir
    } else if rank(a.status) != rank(b.status) {
        rank(a.status) > rank(b.status)
    } else if lowercase_of(a.name@) != lowercase_of(b.name@) {
        lex_lt(lowercase_of(a.name@), lowercase_of(b.name@))
    } else {
        lex_lt(a.name@, b.name@)
    }
}

/// `x` put into the ordered `s` before the first node it is shown before.
pub open spec fn insert_ordered(x: UiFileNode, s: Seq<UiFileNode>) -> Seq<UiFileNode>
    decreases s.len(),
{
    if s.len() == 0 {
        seq![x]
    } else if shown_before(x, s[0]) {
        seq![x] + s
    } else {
        seq![s[0]] + insert_ordered(x, s.drop_first())
    }
}

/// The nodes in the order they are shown (a stable insertion sort).
pub open spec fn display_order(s: Seq<UiFileNode>) -> Seq<UiFileNode>
    decreases s.len(),
{
    if s.len() == 0 {
        Seq::<UiFileNode>::empty()
    } else {
        insert_ordered(s.last(), display_order(s.drop_last()))
    }
}

/// A row of a tree as it is shown.
pub ghost struct RowView {
    pub depth: nat,
    pub path: Seq<char>,
    pub name: Seq<char>,
    pub is_dir: bool,
    pub status: FileStatus,
}

/// A row of a tree: a node at its depth.
pub struct UiRow {
    pub depth: usize,
    pub path: String,
    pub name: String,
    pub is_dir: bool,
    pub status: FileStatus,
}

impl View for UiRow {
    type V = RowView;

    open spec fn view(&self) -> RowView {
        RowView {
            depth: self.depth as nat,
            path: self.path@,
            name: self.name@,
            is_dir: self.is_dir,
            status: self.status,
        }
    }
}

pub open spec fn rows_view(rows: Seq<UiRow>) -> Seq<RowView> {
    rows.map_values(|r: UiRow| r@)
}

pub open spec fn row_of(n: UiFileNode, depth: nat) -> RowView {
    RowView { depth, path: n.path@, name: n.name@, is_dir: n.is_dir, status: n.status }
}

/// The rows of the tree under `n` at `depth`: the node itself unless it is
/// the root, then, for the root and for each expanded directory, the rows of
/// its children in the order they are shown.
pub open spec fn node_rows(n: UiFileNode, depth: nat, expanded: Set<Seq<char>>) -> Seq<RowView>
    decreases height(n) + 1, 0nat,
{
    let own = if depth > 0 {
        seq![row_of(n, (depth - 1) as nat)]
    } else {
        Seq::<RowView>::empty()
    };
    if depth == 0 || (n.is_dir && expanded.contains(n.path@)) {
        own + children_rows(display_order(n.children@), depth + 1, expanded, height(n))
    } else {
        own
    }
}

/// The rows of each node of `cs` in turn.
pub open spec fn children_rows(
    cs: Seq<UiFileNode>,
    depth: nat,
    expanded: Set<Seq<char>>,
    bound: nat,
) -> Seq<RowView>
    decreases bound, cs.len(),
    when forall|i: int| 0 <= i < cs.len() ==> height(#[trigger] cs[i]) < bound
{
    if cs.len() == 0 {
        Seq::<RowView>::empty()
    } else {
        node_rows(cs[0], depth, expanded) + children_rows(cs.drop_first(), depth, expanded, bound)
    }
}

proof fn lemma_max_child_height(n: UiFileNode, j: nat, i: int)
    requires
        j <= i < n.children.len(),
    ensures
        height(n.children[i]) <= max_child_height(n, j),
    decreases n.children.len() - j,
{
    if j < i {
        lemma_max_child_height(n, j + 1, i);
    }
}

pub proof fn lemma_child_height(n: UiFileNode, i: int)
    requires
        0 <= i < n.children.len(),
    ensures
        height(n.children[i]) < height(n),
{
    lemma_max_child_height(n, 0, i);
}

proof fn lemma_insert_ordered_members(x: UiFileNode, s: Seq<UiFileNode>)
    ensures
        insert_ordered(x, s).len() == s.len() + 1,
        forall|k: int|
            0 <= k < insert_ordered(x, s).len() ==> #[trigger] insert_ordered(x, s)[k] == x
                || s.contains(insert_ordered(x, s)[k]),
    decreases s.len(),
{
    if s.len() > 0 && !shown_before(x, s[0]) {
        lemma_insert_ordered_members(x, s.drop_first());
        let r = insert_ordered(x, s);
        assert forall|k: int| 0 <= k < r.len() implies #[trigger] r[k] == x || s.contains(r[k]) by {
            if k > 0 {
                let r2 = insert_ordered(x, s.drop_first());
                assert(r[k] == r2[k - 1]);
                if r2[k - 1] != x {
                    let w = choose|w: int| 0 <= w < s.drop_first().len() && s.drop_first()[w] == r2[k - 1];
                    assert(s[w + 1] == r[k]);
                }
            } else {
                assert(s[0] == r[0]);
            }
        }
    } else if s.len() > 0 {
        let r = insert_ordered(x, s);
        assert forall|k: int| 0 <= k < r.len() implies #[trigger] r[k] == x || s.contains(r[k]) by {
            if k > 0 {
                assert(r[k] == s[k - 1]);
            }
        }
    }
}

/// The nodes shown are those of `s`, as many of them.
pub proof fn lemma_display_order_members(s: Seq<UiFileNode>)
    ensures
        display_order(s).len() == s.len(),
        forall|k: int| 0 <= k < s.len() ==> s.contains(#[trigger] display_order(s)[k]),
    decreases s.len(),
{
    if s.len() > 0 {
        lemma_display_order_members(s.drop_last());
        let prev = display_order(s.drop_last());
        lemma_insert_ordered_members(s.last(), prev);
        assert forall|k: int| 0 <= k < s.len() implies s.contains(#[trigger] display_order(s)[k]) by {
            let y = display_order(s)[k];
            if y == s.last() {
                assert(s[s.len() - 1] == y);
            } else {
                assert(prev.contains(y));
                let w = choose|w: int| 0 <= w < prev.len() && prev[w] == y;
                assert(s.drop_last().contains(y));
                let v = choose|v: int| 0 <= v < s.drop_last().len() && s.drop_last()[v] == y;
                assert(s[v] == y);
            }
        }
    }
}

/// Every node shown among the children of `n` is lower than `n`.
pub proof fn lemma_display_heights(n: UiFileNode)
    ensures
        display_order(n.children@).len() == n.children@.len(),
        forall|i: int|
            0 <= i < display_order(n.children@).len() ==> height(
                #[trigger] display_order(n.children@)[i],
            ) < height(n),
{
    lemma_display_order_members(n.children@);
    assert forall|i: int| 0 <= i < display_order(n.children@).len() implies height(
        #[trigger] display_order(n.children@)[i],
    ) < height(n) by {
        let y = display_order(n.children@)[i];
        assert(n.children@.contains(y));
        let w = choose|w: int| 0 <= w < n.children@.len() && n.children@[w] == y;
        lemma_child_height(n, w);
    }
}


/// The paths held by a list of paths.
pub open spec fn path_set(v: Seq<String>) -> Set<Seq<char>> {
    Set::new(|p: Seq<char>| exists|i: int| 0 <= i < v.len() && #[trigger] v[i]@ == p)
}

pub fn contains_path(v: &Vec<String>, p: &String) -> (r: bool)
    ensures
        r == path_set(v@).contains(p@),
{
    let mut i: usize = 0;
    while i < v.len()
        invariant
            i <= v@.len(),
            forall|j: int| 0 <= j < i ==> v@[j]@ != p@,
        decreases v@.len() - i,
    {
        if v[i] == *p {
            return true;
        }
        i = i + 1;
    }
    false
}

/// Whether `a` is shown before `b` among siblings.
pub fn is_shown_before(a: &UiFileNode, b: &UiFileNode) -> (r: bool)
    ensures
        r == shown_before(*a, *b),
{
    if a.is_dir != b.is_dir {
        return a.is_dir;
    }
    let wa = a.status.weight();
    let wb = b.status.weight();
    if wa != wb {
        return wa > wb;
    }
    let la = to_lowercase(a.name.as_str());
    let lb = to_lowercase(b.name.as_str());
    names_in_order(la.as_str(), lb.as_str(), a.name.as_str(), b.name.as_str())
}

/// Whether the name `a` comes before the name `b`, given both in lower case:
/// by the lower-case names, and by the names themselves when those are equal.
pub fn names_in_order(lower_a: &str, lower_b: &str, a: &str, b: &str) -> (r: bool)
    ensures
        r == (if lower_a@ != lower_b@ {
            lex_lt(lower_a@, lower_b@)
        } else {
            lex_lt(a@, b@)
        }),
{
    let la = chars_of(lower_a);
    let lb = chars_of(lower_b);
    if !chars_eq(la.as_slice(), lb.as_slice()) {
        lex_less(la.as_slice(), lb.as_slice())
    } else {
        let na = chars_of(a);
        let nb = chars_of(b);
        lex_less(na.as_slice(), nb.as_slice())
    }
}

/// The children picked by `order`, in its order.
pub open spec fn picked(cs: Seq<UiFileNode>, order: Seq<usize>) -> Seq<UiFileNode> {
    order.map_values(|i: usize| cs[i as int])
}

proof fn lemma_insert_at_first_after(x: UiFileNode, s: Seq<UiFileNode>, j: int)
    requires
        0 <= j <= s.len(),
        forall|k: int| 0 <= k < j ==> !shown_before(x, #[trigger] s[k]),
        j < s.len() ==> shown_before(x, s[j]),
    ensures
        insert_ordered(x, s) == s.take(j) + seq![x] + s.skip(j),
    decreases s.len(),
{
    if s.len() == 0 {
        assert(s.take(j) + seq![x] + s.skip(j) =~= seq![x]);
    } else if j == 0 {
        assert(s.take(j) + seq![x] + s.skip(j) =~= seq![x] + s);
    } else {
        assert(!shown_before(x, s[0]));
        lemma_insert_at_first_after(x, s.drop_first(), j - 1);
        assert(s.take(j) + seq![x] + s.skip(j) =~= seq![s[0]] + (s.drop_first().take(j - 1)
            + seq![x] + s.drop_first().skip(j - 1)));
    }
}

/// The positions of the children of `n` in the order they are shown.
pub fn display_indices(n: &UiFileNode) -> (order: Vec<usize>)
    ensures
        forall|k: int| 0 <= k < order@.len() ==> order@[k] < n.children@.len(),
        picked(n.children@, order@) == display_order(n.children@),
{
    let mut order: Vec<usize> = Vec::new();
    let mut k: usize = 0;
    while k < n.children.len()
        invariant
            k <= n.children@.len(),
            forall|q: int| 0 <= q < order@.len() ==> order@[q] < n.children@.len(),
            picked(n.children@, order@) == display_order(n.children@.take(k as int)),
        decreases n.children@.len() - k,
    {
        let ghost cur = picked(n.children@, order@);
        let x = &n.children[k];
        let mut j: usize = 0;
        while j < order.len() && !is_shown_before(x, &n.children[order[j]])
            invariant
                j <= order@.len(),
                k < n.children@.len(),
                *x == n.children@[k as int],
                forall|q: int| 0 <= q < order@.len() ==> order@[q] < n.children@.len(),
                cur == picked(n.children@, order@),
                forall|q: int| 0 <= q < j ==> !shown_before(*x, #[trigger] cur[q]),
            decreases order@.len() - j,
        {
            j = j + 1;
        }
        proof {
            lemma_insert_at_first_after(*x, cur, j as int);
            assert(n.children@.take(k + 1).drop_last() =~= n.children@.take(k as int));
            assert(n.children@.take(k + 1).last() == *x);
        }
        order.insert(j, k);
        proof {
            assert(picked(n.children@, order@) =~= cur.take(j as int) + seq![*x] + cur.skip(j as int));
        }
        k = k + 1;
    }
    proof {
        assert(n.children@.take(n.children@.len() as int) =~= n.children@);
    }
    order
}


/// Appends the rows of the tree under `node` at `depth` to `rows`, with the
/// directories of `expanded` open.
pub fn flatten_into_rows(
    node: &UiFileNode,
    depth: usize,
    expanded: &Vec<String>,
    rows: &mut Vec<UiRow>,
)
    requires
        depth + height(*node) <= usize::MAX,
    ensures
        rows_view(final(rows)@) == rows_view(old(rows)@) + node_rows(
            *node,
            depth as nat,
            path_set(expanded@),
        ),
    decreases height(*node),
{
    let ghost ex = path_set(expanded@);
    let ghost start = rows_view(rows@);
    if depth > 0 {
        rows.push(
            UiRow {
                depth: depth - 1,
                path: node.path.clone(),
                name: node.name.clone(),
                is_dir: node.is_dir,
                status: node.status,
            },
        );
        proof {
            assert(rows_view(rows@) =~= start + seq![row_of(*node, (depth - 1) as nat)]);
        }
    }
    if depth == 0 || (node.is_dir && contains_path(expanded, &node.path)) {
        let order = display_indices(node);
        let ghost sorted = display_order(node.children@);
        let ghost h = height(*node);
        let ghost own = rows_view(rows@);
        proof {
            lemma_display_heights(*node);
            assert(sorted.skip(0) =~= sorted);
        }
        let mut k: usize = 0;
        while k < order.len()
            invariant
                k <= order@.len(),
                order@.len() == sorted.len(),
                sorted == picked(node.children@, order@),
                forall|q: int| 0 <= q < order@.len() ==> order@[q] < node.children@.len(),
                forall|i: int| 0 <= i < sorted.len() ==> height(#[trigger] sorted[i]) < h,
                h == height(*node),
                depth + h <= usize::MAX,
                ex == path_set(expanded@),
                rows_view(rows@) + children_rows(sorted.skip(k as int), (depth + 1) as nat, ex, h) == own
                    + children_rows(sorted, (depth + 1) as nat, ex, h),
            decreases order@.len() - k,
        {
            let ghost before = rows_view(rows@);
            let ghost rest = sorted.skip(k as int);
            proof {
                assert(forall|i: int| 0 <= i < rest.len() ==> height(#[trigger] rest[i]) < h) by {
                    assert forall|i: int| 0 <= i < rest.len() implies height(#[trigger] rest[i]) < h by {
                        assert(rest[i] == sorted[k + i]);
                    }
                }
                assert(rest.drop_first() =~= sorted.skip(k + 1));
                assert(rest[0] == node.children@[order@[k as int] as int]);
                lemma_child_height(*node, order@[k as int] as int);
            }
            let child = &node.children[order[k]];
            flatten_into_rows(child, depth + 1, expanded, rows);
            proof {
                assert(rows_view(rows@) + children_rows(sorted.skip(k + 1), (depth + 1) as nat, ex, h) =~= before
                    + children_rows(rest, (depth + 1) as nat, ex, h));
            }
            k = k + 1;
        }
        proof {
            assert(sorted.skip(order@.len() as int) =~= Seq::<UiFileNode>::empty());
            assert(rows_view(rows@) =~= own + children_rows(sorted, (depth + 1) as nat, ex, h));
        }
    }
}


/// A node of a file tree as a mathematical value.
pub ghost struct NodeView {
    pub path: Seq<char>,
    pub name: Seq<char>,
    pub is_dir: bool,
    pub status: FileStatus,
    pub children: Seq<NodeView>,
}

/// The value of a node and of everything under it.
pub open spec fn node_view(n: UiFileNode) -> NodeView
    decreases n, 0nat,
{
    NodeView {
        path: n.path@,
        name: n.name@,
        is_dir: n.is_dir,
        status: n.status,
        children: views_from(n.children, 0),
    }
}

/// The values of the nodes of `cs` from the `i`-th on.
pub open spec fn views_from(cs: Vec<UiFileNode>, i: nat) -> Seq<NodeView>
    decreases cs, cs.len() - i,
{
    if i >= cs.len() {
        Seq::<NodeView>::empty()
    } else {
        seq![node_view(cs[i as int])] + views_from(cs, i + 1)
    }
}

pub open spec fn views_of(cs: Seq<UiFileNode>) -> Seq<NodeView> {
    cs.map_values(|c: UiFileNode| node_view(c))
}

proof fn lemma_views_from(cs: Vec<UiFileNode>, i: nat)
    requires
        i <= cs.len(),
    ensures
        views_from(cs, i) == views_of(cs@).skip(i as int),
    decreases cs.len() - i,
{
    if i < cs.len() {
        lemma_views_from(cs, i + 1);
        assert(views_of(cs@).skip(i as int) =~= seq![node_view(cs[i as int])] + views_of(
            cs@,
        ).skip(i + 1int));
    } else {
        assert(views_of(cs@).skip(i as int) =~= Seq::<NodeView>::empty());
    }
}

/// The children of a node, as values, are the values of its children.
pub proof fn lemma_children_view(n: UiFileNode)
    ensures
        node_view(n).children == views_of(n.children@),
{
    lemma_views_from(n.children, 0);
    assert(views_of(n.children@).skip(0) =~= views_of(n.children@));
}

/// The text of a component of a path.
pub open spec fn comp_name(c: Comp) -> Seq<char> {
    match c {
        Comp::RootDir => seq!['/'],
        Comp::CurDir => seq!['.'],
        Comp::ParentDir => seq!['.', '.'],
        Comp::Normal(n) => n,
    }
}

/// `p` with `name` pushed onto it, as a path buffer pushes a relative name.
pub open spec fn path_push(p: Seq<char>, name: Seq<char>) -> Seq<char> {
    if name.len() > 0 && name[0] == '/' {
        name
    } else if p.len() == 0 || p.last() == '/' {
        p + name
    } else {
        p + seq!['/'] + name
    }
}

/// The child at `i` is the first one named `name`.
pub open spec fn first_named(cs: Seq<NodeView>, name: Seq<char>, i: int) -> bool {
    &&& 0 <= i < cs.len()
    &&& cs[i].name == name
    &&& forall|j: int| 0 <= j < i ==> (#[trigger] cs[j]).name != name
}

/// The first child named `name`.
pub open spec fn child_named(cs: Seq<NodeView>, name: Seq<char>) -> Option<int> {
    if exists|i: int| first_named(cs, name, i) {
        Some(choose|i: int| first_named(cs, name, i))
    } else {
        None
    }
}

/// The tree with the file at `names` (under `n`) given `status` where it
/// weighs more than what is there: the missing nodes are made (directories
/// but for the last, which takes `is_dir`), and each node on the way takes
/// the heavier status.
pub open spec fn insert_path(
    n: NodeView,
    names: Seq<Seq<char>>,
    status: FileStatus,
    is_dir: bool,
) -> NodeView
    decreases names.len(),
{
    if names.len() == 0 {
        n
    } else {
        let name = names[0];
        let last = names.len() == 1;
        let found = child_named(n.children, name);
        let base = match found {
            Some(i) => n.children[i],
            None => NodeView {
                path: path_push(n.path, name),
                name,
                is_dir: if last {
                    is_dir
                } else {
                    true
                },
                status: FileStatus::Synced,
                children: Seq::<NodeView>::empty(),
            },
        };
        let upgraded = if rank(status) > rank(base.status) {
            NodeView { status, ..base }
        } else {
            base
        };
        let fixed = if last {
            NodeView { is_dir, ..upgraded }
        } else {
            upgraded
        };
        let done = insert_path(fixed, names.drop_first(), status, is_dir);
        NodeView {
            children: match found {
                Some(i) => n.children.update(i, done),
                None => n.children.push(done),
            },
            ..n
        }
    }
}

/// The names on the way from `root` down to `path`, when `path` lies under
/// `root`.
pub open spec fn relative_names(path: Seq<char>, root: Seq<char>) -> Option<Seq<Seq<char>>> {
    match strip_prefix_comps(path_components(path), path_components(root)) {
        Some(rel) => Some(rel.map_values(|c: Comp| comp_name(c))),
        None => None,
    }
}

/// The tree after placing one file; files outside the root, and the root
/// itself, change nothing.
pub open spec fn place_file(t: NodeView, status: FileStatus, file: KnotFile, root: Seq<char>) -> NodeView {
    match relative_names(file.path@, root) {
        Some(names) => insert_path(t, names, status, file.is_dir),
        None => t,
    }
}

/// The root of a tree: a directory named after the last component of its
/// path (the whole path when it has none), synced, with no children.
pub open spec fn root_view(root: Seq<char>) -> NodeView {
    NodeView {
        path: root,
        name: match file_name_spec(root) {
            Some(n) => n,
            None => root,
        },
        is_dir: true,
        status: FileStatus::Synced,
        children: Seq::<NodeView>::empty(),
    }
}

/// The tree of the files, placed in order.
pub open spec fn build_spec(items: Seq<(FileStatus, KnotFile)>, root: Seq<char>) -> NodeView
    decreases items.len(),
{
    if items.len() == 0 {
        root_view(root)
    } else {
        place_file(build_spec(items.drop_last(), root), items.last().0, items.last().1, root)
    }
}


fn comp_text(c: &PathComponent) -> (r: String)
    ensures
        r@ == comp_name(c@),
{
    match c {
        PathComponent::RootDir => {
            let v: Vec<char> = vec!['/'];
            proof {
                assert(v@ =~= seq!['/']);
            }
            string_of(v.as_slice())
        },
        PathComponent::CurDir => {
            let v: Vec<char> = vec!['.'];
            proof {
                assert(v@ =~= seq!['.']);
            }
            string_of(v.as_slice())
        },
        PathComponent::ParentDir => {
            let v: Vec<char> = vec!['.', '.'];
            proof {
                assert(v@ =~= seq!['.', '.']);
            }
            string_of(v.as_slice())
        },
        PathComponent::Normal(n) => string_of(n.as_slice()),
    }
}

/// `p` with the relative name `name` pushed onto it.
pub fn push_path_str(p: &str, name: &str) -> (r: String)
    ensures
        r@ == path_push(p@, name@),
{
    let ps = string_of(chars_of(p).as_slice());
    let ns = string_of(chars_of(name).as_slice());
    push_path(&ps, &ns)
}

fn push_path(p: &String, name: &String) -> (r: String)
    ensures
        r@ == path_push(p@, name@),
{
    let pc = chars_of(p.as_str());
    let nc = chars_of(name.as_str());
    if nc.len() > 0 && nc[0] == '/' {
        return name.clone();
    }
    let mut out = pc.clone();
    if pc.len() > 0 && pc[pc.len() - 1] != '/' {
        out.push('/');
    }
    let ghost base = out@;
    let mut i: usize = 0;
    while i < nc.len()
        invariant
            i <= nc@.len(),
            out@ == base + nc@.take(i as int),
        decreases nc@.len() - i,
    {
        out.push(nc[i]);
        proof {
            assert(nc@.take(i + 1) =~= nc@.take(i as int).push(nc@[i as int]));
        }
        i = i + 1;
    }
    proof {
        assert(nc@.take(nc@.len() as int) =~= nc@);
        if pc@.len() == 0 || pc@.last() == '/' {
            assert(out@ =~= p@ + name@);
        } else {
            assert(out@ =~= p@ + seq!['/'] + name@);
        }
    }
    string_of(out.as_slice())
}

fn find_child(cs: &Vec<UiFileNode>, name: &String) -> (r: Option<usize>)
    ensures
        match r {
            Some(i) => first_named(views_of(cs@), name@, i as int),
            None => forall|j: int| 0 <= j < cs@.len() ==> (#[trigger] cs@[j]).name@ != name@,
        },
{
    let mut i: usize = 0;
    while i < cs.len()
        invariant
            i <= cs@.len(),
            forall|j: int| 0 <= j < i ==> (#[trigger] cs@[j]).name@ != name@,
        decreases cs@.len() - i,
    {
        if cs[i].name == *name {
            proof {
                assert forall|j: int| 0 <= j < i implies (#[trigger] views_of(cs@)[j]).name != name@ by {
                    assert(views_of(cs@)[j] == node_view(cs@[j]));
                }
            }
            return Some(i);
        }
        i = i + 1;
    }
    None
}

proof fn lemma_child_named_found(cs: Seq<NodeView>, name: Seq<char>, i: int)
    requires
        first_named(cs, name, i),
    ensures
        child_named(cs, name) == Some(i),
{
    let k = choose|k: int| first_named(cs, name, k);
    if k < i {
        assert(cs[k].name != name);
    } else if i < k {
        assert(cs[i].name != name);
    }
}

fn place_names(
    n: UiFileNode,
    names: &Vec<String>,
    k: usize,
    status: FileStatus,
    is_dir: bool,
) -> (r: UiFileNode)
    requires
        k <= names@.len(),
    ensures
        node_view(r) == insert_path(
            node_view(n),
            names@.skip(k as int).map_values(|s: String| s@),
            status,
            is_dir,
        ),
    decreases names@.len() - k,
{
    let ghost rest = names@.skip(k as int).map_values(|s: String| s@);
    if k >= names.len() {
        proof {
            assert(rest =~= Seq::<Seq<char>>::empty());
        }
        return n;
    }
    let ghost nv = node_view(n);
    proof {
        lemma_children_view(n);
        assert(rest[0] == names@[k as int]@);
        assert(rest.drop_first() =~= names@.skip(k + 1).map_values(|s: String| s@));
    }
    let name = &names[k];
    let last = k + 1 == names.len();
    let UiFileNode { path, name: own_name, is_dir: own_dir, status: own_status, mut children } = n;
    let found = find_child(&children, name);
    let ghost found_spec = child_named(nv.children, rest[0]);
    proof {
        match found {
            Some(i) => {
                lemma_child_named_found(nv.children, rest[0], i as int);
            },
            None => {
                assert forall|i: int| !first_named(nv.children, rest[0], i) by {
                    if 0 <= i < nv.children.len() {
                        assert(nv.children[i] == node_view(children@[i]));
                    }
                }
            },
        }
    }
    let mut base = match found {
        Some(i) => children.remove(i),
        None => UiFileNode {
            path: push_path(&path, name),
            name: name.clone(),
            is_dir: if last {
                is_dir
            } else {
                true
            },
            status: FileStatus::Synced,
            children: Vec::new(),
        },
    };
    proof {
        lemma_children_view(base);
        if found is None {
            assert(views_of(base.children@) =~= Seq::<NodeView>::empty());
        }
    }
    if status.weight() > base.status.weight() {
        base.status = status;
    }
    if last {
        base.is_dir = is_dir;
    }
    let done = place_names(base, names, k + 1, status, is_dir);
    let ghost before_children = children@;
    match found {
        Some(i) => children.insert(i, done),
        None => children.push(done),
    }
    let r = UiFileNode { path, name: own_name, is_dir: own_dir, status: own_status, children };
    proof {
        lemma_children_view(r);
        lemma_children_view(base);
        match found {
            Some(i) => {
                assert(views_of(r.children@) =~= nv.children.update(i as int, node_view(done)));
            },
            None => {
                assert(views_of(r.children@) =~= nv.children.push(node_view(done)));
            },
        }
    }
    r
}

impl UiFileNode {
    /// The tree of the files under `root_path`, each with its status; a node
    /// on the way to a file takes the file's status where it weighs more.
    pub fn build_tree(items: &Vec<(FileStatus, KnotFile)>, root_path: &str) -> (r: UiFileNode)
        ensures
            node_view(r) == build_spec(items@, root_path@),
    {
        let root_string = string_of(chars_of(root_path).as_slice());
        let root_name = match file_name_of(root_path) {
            Some(n) => n,
            None => string_of(chars_of(root_path).as_slice()),
        };
        let mut root = UiFileNode {
            path: root_string,
            name: root_name,
            is_dir: true,
            status: FileStatus::Synced,
            children: Vec::new(),
        };
        let root_comps = components_of(&chars_of(root_path));
        proof {
            lemma_children_view(root);
            assert(views_of(root.children@) =~= Seq::<NodeView>::empty());
            assert(items@.take(0) =~= Seq::<(FileStatus, KnotFile)>::empty());
        }
        let mut i: usize = 0;
        while i < items.len()
            invariant
                i <= items@.len(),
                comps_view(root_comps@) == path_components(root_path@),
                node_view(root) == build_spec(items@.take(i as int), root_path@),
            decreases items@.len() - i,
        {
            proof {
                assert(items@.take(i + 1).drop_last() =~= items@.take(i as int));
                assert(items@.take(i + 1).last() == items@[i as int]);
            }
            let status = items[i].0;
            let file = &items[i].1;
            let comps = components_of(&chars_of(file.path.as_str()));
            match strip_prefix_len(&comps, &root_comps) {
                Some(start) => {
                    let mut names: Vec<String> = Vec::new();
                    let mut j: usize = start;
                    let ghost rel = comps_view(comps@).skip(start as int);
                    while j < comps.len()
                        invariant
                            start <= j <= comps@.len(),
                            rel == comps_view(comps@).skip(start as int),
                            names@.map_values(|s: String| s@) == rel.take(j - start).map_values(
                                |c: Comp| comp_name(c),
                            ),
                        decreases comps@.len() - j,
                    {
                        let t = comp_text(&comps[j]);
                        let ghost before = names@.map_values(|s: String| s@);
                        names.push(t);
                        proof {
                            assert(rel[j - start] == comps@[j as int]@);
                            assert(rel.take(j - start + 1) =~= rel.take(j - start).push(rel[j - start]));
                            assert(names@.map_values(|s: String| s@) =~= before.push(t@));
                            assert(names@.map_values(|s: String| s@) =~= rel.take(j - start + 1).map_values(
                                |c: Comp| comp_name(c),
                            ));
                        }
                        j = j + 1;
                    }
                    proof {
                        assert(rel.take(comps@.len() - start) =~= rel);
                        assert(names@.skip(0) =~= names@);
                    }
                    root = place_names(root, &names, 0, status, file.is_dir);
                },
                None => {},
            }
            i = i + 1;
        }
        proof {
            assert(items@.take(items@.len() as int) =~= items@);
        }
        root
    }
}


proof fn lemma_closed_children_rows(cs: Seq<UiFileNode>, bound: nat)
    requires
        forall|i: int| 0 <= i < cs.len() ==> height(#[trigger] cs[i]) < bound,
    ensures
        children_rows(cs, 1, Set::<Seq<char>>::empty(), bound) == cs.map_values(
            |c: UiFileNode| row_of(c, 0),
        ),
    decreases cs.len(),
{
    if cs.len() > 0 {
        let rest = cs.drop_first();
        assert forall|i: int| 0 <= i < rest.len() implies height(#[trigger] rest[i]) < bound by {
            assert(rest[i] == cs[i + 1]);
        }
        lemma_closed_children_rows(rest, bound);
        assert(node_rows(cs[0], 1, Set::<Seq<char>>::empty()) =~= seq![row_of(cs[0], 0)]);
        assert(cs.map_values(|c: UiFileNode| row_of(c, 0)) =~= seq![row_of(cs[0], 0)]
            + rest.map_values(|c: UiFileNode| row_of(c, 0)));
    } else {
        assert(cs.map_values(|c: UiFileNode| row_of(c, 0)) =~= Seq::<RowView>::empty());
    }
}

/// Law: with no directory open, a tree shows its root's children and nothing
/// else, one row each at depth 0, in the order they are shown.
pub proof fn lemma_closed_tree_rows(t: UiFileNode)
    ensures
        node_rows(t, 0, Set::<Seq<char>>::empty()) == display_order(t.children@).map_values(
            |c: UiFileNode| row_of(c, 0),
        ),
        node_rows(t, 0, Set::<Seq<char>>::empty()).len() == t.children@.len(),
{
    lemma_display_heights(t);
    lemma_closed_children_rows(display_order(t.children@), height(t));
    assert(Seq::<RowView>::empty() + children_rows(
        display_order(t.children@),
        1,
        Set::<Seq<char>>::empty(),
        height(t),
    ) =~= children_rows(display_order(t.children@), 1, Set::<Seq<char>>::empty(), height(t)));
}


/// Opening a path changes no tree none of whose rows has that path.
pub(crate) proof fn lemma_rows_without_path(
    n: UiFileNode,
    depth: nat,
    ex: Set<Seq<char>>,
    p: Seq<char>,
)
    requires
        forall|j: int|
            0 <= j < node_rows(n, depth, ex).len() ==> (#[trigger] node_rows(n, depth, ex)[j]).path
                != p,
    ensures
        node_rows(n, depth, ex.insert(p)) == node_rows(n, depth, ex),
    decreases height(n) + 1, 0nat,
{
    let r = node_rows(n, depth, ex);
    lemma_display_heights(n);
    let cs = display_order(n.children@);
    if depth > 0 {
        assert(r[0] == row_of(n, (depth - 1) as nat));
        assert(n.path@ != p);
    }
    if depth == 0 || (n.is_dir && ex.contains(n.path@)) {
        let own = if depth > 0 {
            seq![row_of(n, (depth - 1) as nat)]
        } else {
            Seq::<RowView>::empty()
        };
        let c = children_rows(cs, depth + 1, ex, height(n));
        assert(r == own + c);
        assert forall|j: int| 0 <= j < c.len() implies (#[trigger] c[j]).path != p by {
            assert(c[j] == r[j + own.len()]);
        }
        lemma_children_rows_without_path(cs, depth + 1, ex, height(n), p);
    }
}

pub(crate) proof fn lemma_children_rows_without_path(
    cs: Seq<UiFileNode>,
    depth: nat,
    ex: Set<Seq<char>>,
    bound: nat,
    p: Seq<char>,
)
    requires
        forall|i: int| 0 <= i < cs.len() ==> height(#[trigger] cs[i]) < bound,
        forall|j: int|
            0 <= j < children_rows(cs, depth, ex, bound).len() ==> (#[trigger] children_rows(
                cs,
                depth,
                ex,
                bound,
            )[j]).path != p,
    ensures
        children_rows(cs, depth, ex.insert(p), bound) == children_rows(cs, depth, ex, bound),
    decreases bound, cs.len(),
{
    if cs.len() > 0 {
        let rest = cs.drop_first();
        assert forall|i: int| 0 <= i < rest.len() implies height(#[trigger] rest[i]) < bound by {
            assert(rest[i] == cs[i + 1]);
        }
        let a = node_rows(cs[0], depth, ex);
        let b = children_rows(rest, depth, ex, bound);
        let r = children_rows(cs, depth, ex, bound);
        assert(r == a + b);
        assert forall|j: int| 0 <= j < a.len() implies (#[trigger] a[j]).path != p by {
            assert(a[j] == r[j]);
        }
        assert forall|j: int| 0 <= j < b.len() implies (#[trigger] b[j]).path != p by {
            assert(b[j] == r[j + a.len()]);
        }
        lemma_rows_without_path(cs[0], depth, ex, p);
        lemma_children_rows_without_path(rest, depth, ex, bound, p);
    }
}

/// Opening a path keeps the rows of a tree up to the first row with that
/// path: the rows it adds come after that row.
pub(crate) proof fn lemma_rows_prefix(
    n: UiFileNode,
    depth: nat,
    ex: Set<Seq<char>>,
    p: Seq<char>,
    k: int,
)
    requires
        0 <= k < node_rows(n, depth, ex).len(),
        forall|j: int| 0 <= j < k ==> (#[trigger] node_rows(n, depth, ex)[j]).path != p,
    ensures
        node_rows(n, depth, ex.insert(p)).len() > k,
        node_rows(n, depth, ex.insert(p)).take(k + 1) == node_rows(n, depth, ex).take(k + 1),
    decreases height(n) + 1, 0nat,
{
    let r = node_rows(n, depth, ex);
    let r2 = node_rows(n, depth, ex.insert(p));
    lemma_display_heights(n);
    let cs = display_order(n.children@);
    let own = if depth > 0 {
        seq![row_of(n, (depth - 1) as nat)]
    } else {
        Seq::<RowView>::empty()
    };
    if depth > 0 && k == 0 {
        assert(r[0] == row_of(n, (depth - 1) as nat));
        assert(r2[0] == row_of(n, (depth - 1) as nat));
        assert(r2.take(1) =~= r.take(1));
    } else {
        if depth > 0 {
            assert(r[0] == row_of(n, (depth - 1) as nat));
            assert(n.path@ != p);
        }
        // with rows past the node's own, its children are shown on both sides
        assert(depth == 0 || (n.is_dir && ex.contains(n.path@)));
        let c = children_rows(cs, depth + 1, ex, height(n));
        let c2 = children_rows(cs, depth + 1, ex.insert(p), height(n));
        assert(r == own + c);
        assert(r2 == own + c2);
        let kc = k - own.len();
        assert forall|j: int| 0 <= j < kc implies (#[trigger] c[j]).path != p by {
            assert(c[j] == r[j + own.len()]);
        }
        lemma_children_rows_prefix(cs, depth + 1, ex, height(n), p, kc);
        assert(r2.take(k + 1) =~= own + c2.take(kc + 1));
        assert(r.take(k + 1) =~= own + c.take(kc + 1));
    }
}

pub(crate) proof fn lemma_children_rows_prefix(
    cs: Seq<UiFileNode>,
    depth: nat,
    ex: Set<Seq<char>>,
    bound: nat,
    p: Seq<char>,
    k: int,
)
    requires
        forall|i: int| 0 <= i < cs.len() ==> height(#[trigger] cs[i]) < bound,
        0 <= k < children_rows(cs, depth, ex, bound).len(),
        forall|j: int|
            0 <= j < k ==> (#[trigger] children_rows(cs, depth, ex, bound)[j]).path != p,
    ensures
        children_rows(cs, depth, ex.insert(p), bound).len() > k,
        children_rows(cs, depth, ex.insert(p), bound).take(k + 1) == children_rows(
            cs,
            depth,
            ex,
            bound,
        ).take(k + 1),
    decreases bound, cs.len(),
{
    let rest = cs.drop_first();
    assert forall|i: int| 0 <= i < rest.len() implies height(#[trigger] rest[i]) < bound by {
        assert(rest[i] == cs[i + 1]);
    }
    let a = node_rows(cs[0], depth, ex);
    let b = children_rows(rest, depth, ex, bound);
    let a2 = node_rows(cs[0], depth, ex.insert(p));
    let b2 = children_rows(rest, depth, ex.insert(p), bound);
    let r = children_rows(cs, depth, ex, bound);
    let r2 = children_rows(cs, depth, ex.insert(p), bound);
    assert(r == a + b);
    assert(r2 == a2 + b2);
    if k < a.len() {
        assert forall|j: int| 0 <= j < k implies (#[trigger] a[j]).path != p by {
            assert(a[j] == r[j]);
        }
        lemma_rows_prefix(cs[0], depth, ex, p, k);
        assert(r2.take(k + 1) =~= a2.take(k + 1));
        assert(r.take(k + 1) =~= a.take(k + 1));
    } else {
        assert forall|j: int| 0 <= j < a.len() implies (#[trigger] a[j]).path != p by {
            assert(a[j] == r[j]);
        }
        lemma_rows_without_path(cs[0], depth, ex, p);
        let kb = k - a.len();
        assert forall|j: int| 0 <= j < kb implies (#[trigger] b[j]).path != p by {
            assert(b[j] == r[j + a.len()]);
        }
        lemma_children_rows_prefix(rest, depth, ex, bound, p, kb);
        assert(r2.take(k + 1) =~= a + b2.take(kb + 1));
        assert(r.take(k + 1) =~= a + b.take(kb + 1));
    }
}

} // verus!
