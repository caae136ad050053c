//! The windows of sway's container tree.

use crate::recency::stands_before;
use crate::state::StateView;
use crate::state_laws::law_last_seeded_window_is_most_recent;
use vstd::prelude::*;

verus! {

/// The kinds of container in sway's tree.
pub enum NodeType {
    Root,
    Output,
    Workspace,
    Con,
    FloatingCon,
    Dockarea,
    /// A kind that this daemon does not know.
    Other,
}

/// A container of sway's tree, as far as the daemon looks at it.
pub struct Node {
    pub id: i64,
    pub node_type: NodeType,
    pub focused: bool,
    /// The tiling children.
    pub nodes: Vec<Node>,
    /// The floating children.
    pub floating_nodes: Vec<Node>,
}

/// A window: its con_id, and whether it has the focus.
pub type Window = (i64, bool);

impl Node {
    /// A window is a container, tiling or floating, without children.
    pub open spec fn spec_is_leaf(&self) -> bool {
        &&& self.node_type is Con || self.node_type is FloatingCon
        &&& self.nodes@.len() == 0
        &&& self.floating_nodes@.len() == 0
    }

    /// The windows in this tree, depth first, tiling children before floating
    /// ones.
    pub open spec fn windows(&self) -> Seq<Window>
        decreases *self, 0nat,
    {
        if self.spec_is_leaf() {
            seq![(self.id, self.focused)]
        } else {
            windows_of(self.nodes@, self.nodes@.len()) + windows_of(
                self.floating_nodes@,
                self.floating_nodes@.len(),
            )
        }
    }

    /// Whether this container is a window.
    pub fn is_leaf(&self) -> (leaf: bool)
        ensures
            leaf == self.spec_is_leaf(),
    {
        let window: bool = match self.node_type {
            NodeType::Con => true,
            NodeType::FloatingCon => true,
            _ => false,
        };
        window && self.nodes.len() == 0 && self.floating_nodes.len() == 0
    }
}

/// The windows in the first `count` trees of `forest`, in order.
pub open spec fn windows_of(forest: Seq<Node>, count: nat) -> Seq<Window>
    decreases forest, count,
{
    if count == 0 || count > forest.len() {
        Seq::empty()
    } else {
        windows_of(forest, (count - 1) as nat) + forest[count - 1].windows()
    }
}

/// The con_ids of `windows`.
pub open spec fn ids_of(windows: Seq<Window>) -> Seq<i64> {
    windows.map_values(|window: Window| window.0)
}

/// The last window of `windows` that has the focus.
pub open spec fn last_focused(windows: Seq<Window>) -> Option<i64>
    decreases windows.len(),
{
    if windows.len() == 0 {
        None
    } else if windows.last().1 {
        Some(windows.last().0)
    } else {
        last_focused(windows.drop_last())
    }
}

/// `ids` with the first occurrence of `id` moved to the end.
pub open spec fn moved_last(ids: Seq<i64>, id: i64) -> Seq<i64> {
    match ids.index_of_first(id) {
        Some(pos) => ids.remove(pos).push(id),
        None => ids,
    }
}

/// All windows of `tree`, the focused one last.
pub open spec fn all_windows(tree: Node) -> Seq<i64> {
    let windows = tree.windows();
    match last_focused(windows) {
        Some(id) => moved_last(ids_of(windows), id),
        None => ids_of(windows),
    }
}

/// The windows of two sequences, one after the other.
proof fn lemma_windows_add(a: Seq<Window>, b: Seq<Window>)
    ensures
        ids_of(a + b) == ids_of(a) + ids_of(b),
        last_focused(a + b) == match last_focused(b) {
            Some(id) => Some(id),
            None => last_focused(a),
        },
    decreases b.len(),
{
    assert(ids_of(a + b) =~= ids_of(a) + ids_of(b));
    if b.len() == 0 {
        assert(a + b == a);
    } else {
        assert((a + b).drop_last() == a + b.drop_last());
        lemma_windows_add(a, b.drop_last());
    }
}

/// The window that has the focus is one of the windows.
proof fn lemma_last_focused_is_window(windows: Seq<Window>)
    ensures
        last_focused(windows) matches Some(id) ==> ids_of(windows).contains(id),
        last_focused(windows) is None <==> forall|i: int|
            0 <= i < windows.len() ==> !(#[trigger] windows[i]).1,
    decreases windows.len(),
{
    if windows.len() > 0 {
        let init = windows.drop_last();
        lemma_last_focused_is_window(init);
        assert(ids_of(windows)[windows.len() - 1] == windows.last().0);
        if windows.last().1 {
            assert(windows[windows.len() - 1].1);
        } else {
            if let Some(id) = last_focused(init) {
                assert(ids_of(windows)[ids_of(init).index_of(id)] == id);
                let i = choose|i: int| 0 <= i < init.len() && (#[trigger] init[i]).1;
                assert(windows[i].1);
            } else {
                assert forall|i: int| 0 <= i < windows.len() implies !(#[trigger] windows[i]).1 by {
                    if i < init.len() {
                        assert(!init[i].1);
                    }
                }
            }
        }
    }
}

/// Walks `node` once: appends the con_ids of its windows to `ids` and returns
/// the focused one, if there is one.
pub fn walk(node: &Node, ids: &mut Vec<i64>) -> (focused: Option<i64>)
    ensures
        final(ids)@ == old(ids)@ + ids_of(node.windows()),
        focused == last_focused(node.windows()),
    decreases *node, 0nat,
{
    if node.is_leaf() {
        ids.push(node.id);
        proof {
            let windows = node.windows();
            assert(ids_of(windows) == seq![node.id]);
            assert(windows.drop_last() == Seq::<Window>::empty());
            assert(last_focused(windows.drop_last()) is None);
        }
        return if node.focused {
            Some(node.id)
        } else {
            None
        };
    }
    let tiling: Option<i64> = walk_all(&node.nodes, ids);
    let floating: Option<i64> = walk_all(&node.floating_nodes, ids);
    proof {
        lemma_windows_add(
            windows_of(node.nodes@, node.nodes@.len()),
            windows_of(node.floating_nodes@, node.floating_nodes@.len()),
        );
    }
    match floating {
        Some(id) => Some(id),
        None => tiling,
    }
}

/// Walks the trees of `forest`, in order.
fn walk_all(forest: &Vec<Node>, ids: &mut Vec<i64>) -> (focused: Option<i64>)
    ensures
        final(ids)@ == old(ids)@ + ids_of(windows_of(forest@, forest@.len())),
        focused == last_focused(windows_of(forest@, forest@.len())),
    decreases forest@, 0nat,
{
    let mut focused: Option<i64> = None;
    let mut i: usize = 0;
    while i < forest.len()
        invariant
            i <= forest.len(),
            ids@ == old(ids)@ + ids_of(windows_of(forest@, i as nat)),
            focused == last_focused(windows_of(forest@, i as nat)),
        decreases forest.len() - i,
    {
        proof {
            lemma_windows_add(windows_of(forest@, i as nat), forest@[i as int].windows());
        }
        let child: Option<i64> = walk(&forest[i], ids);
        if child.is_some() {
            focused = child;
        }
        i += 1;
    }
    focused
}

/// All window con_ids of sway's tree. The focused window (if any) is placed
/// last so that it ends up at the front of the history after seeding.
pub fn get_all_windows(tree: &Node) -> (ids: Vec<i64>)
    ensures
        ids@ == all_windows(*tree),
{
    let mut ids: Vec<i64> = Vec::new();
    let focused: Option<i64> = walk(tree, &mut ids);
    let ghost all = ids@;
    assert(all == ids_of(tree.windows()));
    if let Some(focused_id) = focused {
        let mut pos: usize = 0;
        while pos < ids.len() && ids[pos] != focused_id
            invariant
                pos <= ids.len(),
                forall|i: int| 0 <= i < pos ==> ids@[i] != focused_id,
            decreases ids.len() - pos,
        {
            pos += 1;
        }
        proof {
            all.index_of_first_ensures(focused_id);
        }
        if pos < ids.len() {
            proof {
                assert(all.contains(focused_id));
            }
            ids.remove(pos);
            ids.push(focused_id);
        } else {
            assert(!all.contains(focused_id));
        }
    }
    ids
}

/// Listing the windows neither adds nor drops one.
pub proof fn law_listing_keeps_windows(tree: Node)
    ensures
        all_windows(tree).to_multiset() == ids_of(tree.windows()).to_multiset(),
{
    let ids = ids_of(tree.windows());
    if let Some(id) = last_focused(tree.windows()) {
        ids.index_of_first_ensures(id);
        if let Some(pos) = ids.index_of_first(id) {
            vstd::seq_lib::to_multiset_remove(ids, pos);
            vstd::seq_lib::to_multiset_build(ids.remove(pos), id);
            vstd::seq_lib::to_multiset_contains(ids, id);
            assert(all_windows(tree).to_multiset() =~= ids.to_multiset());
        }
    }
}

/// A tree in which some window has the focus lists such a window last.
pub proof fn law_focused_window_is_listed_last(tree: Node)
    requires
        exists|i: int| 0 <= i < tree.windows().len() && (#[trigger] tree.windows()[i]).1,
    ensures
        last_focused(tree.windows()) is Some,
        all_windows(tree).len() > 0,
        all_windows(tree).last() == last_focused(tree.windows())->0,
{
    let windows = tree.windows();
    lemma_last_focused_is_window(windows);
    let id = last_focused(windows)->0;
    ids_of(windows).index_of_first_ensures(id);
}

/// A history seeded from the tree starts with the focused window.
pub proof fn law_seeding_puts_focused_window_first(tree: Node)
    requires
        last_focused(tree.windows()) is Some,
    ensures
        StateView::initial().seeded(all_windows(tree)).history.len() > 0,
        StateView::initial().seeded(all_windows(tree)).history[0] == last_focused(
            tree.windows(),
        )->0,
{
    lemma_last_focused_is_window(tree.windows());
    law_focused_window_is_listed_last(tree);
    law_last_seeded_window_is_most_recent(StateView::initial(), all_windows(tree));
}

impl Node {
    /// All children, tiling ones first.
    pub open spec fn children(&self) -> Seq<Node> {
        self.nodes@ + self.floating_nodes@
    }

    /// The container that `path` leads to from this one, where each entry of
    /// `path` is the index of a child.
    pub open spec fn reached(&self, path: Seq<int>) -> Option<Node>
        decreases path.len(),
    {
        if path.len() == 0 {
            Some(*self)
        } else if 0 <= path[0] < self.children().len() {
            self.children()[path[0]].reached(path.skip(1))
        } else {
            None
        }
    }

    /// `path` leads to a tiling or floating container without children, whose
    /// con_id and focus are those of `window`.
    pub open spec fn has_window_at(&self, path: Seq<int>, window: Window) -> bool {
        self.reached(path) matches Some(node) && {
            &&& node.node_type is Con || node.node_type is FloatingCon
            &&& node.nodes@.len() == 0
            &&& node.floating_nodes@.len() == 0
            &&& window == (node.id, node.focused)
        }
    }
}

/// Where the windows of the tree at `index` stand among those of the forest.
proof fn lemma_windows_of_tree(forest: Seq<Node>, count: nat, index: int) -> (start: int)
    requires
        0 <= index < count <= forest.len(),
    ensures
        0 <= start,
        start + forest[index].windows().len() <= windows_of(forest, count).len(),
        windows_of(forest, count).subrange(start, start + forest[index].windows().len())
            == forest[index].windows(),
    decreases count,
{
    let before = windows_of(forest, (count - 1) as nat);
    let last = forest[count - 1].windows();
    if index == count - 1 {
        assert((before + last).subrange(before.len() as int, (before.len() + last.len()) as int)
            =~= last);
        before.len() as int
    } else {
        let start = lemma_windows_of_tree(forest, (count - 1) as nat, index);
        let end = start + forest[index].windows().len();
        assert((before + last).subrange(start, end) =~= before.subrange(start, end));
        start
    }
}

/// Each window of a forest is a window of one of its trees.
proof fn lemma_window_of_forest(forest: Seq<Node>, count: nat, window: Window) -> (index: int)
    requires
        count <= forest.len(),
        windows_of(forest, count).contains(window),
    ensures
        0 <= index < count,
        forest[index].windows().contains(window),
    decreases count,
{
    let all = windows_of(forest, count);
    let before = windows_of(forest, (count - 1) as nat);
    let k = all.index_of(window);
    assert(all[k] == window);
    if k < before.len() {
        assert(before[k] == window);
        lemma_window_of_forest(forest, (count - 1) as nat, window)
    } else {
        assert(forest[count - 1].windows()[k - before.len()] == window);
        count - 1
    }
}

/// The windows of a forest, one tree after the other.
proof fn lemma_windows_of_flatten(forest: Seq<Node>, count: nat)
    requires
        count <= forest.len(),
    ensures
        windows_of(forest, count) == forest.take(count as int).map_values(
            |child: Node| child.windows(),
        ).flatten(),
    decreases count,
{
    let f = |child: Node| child.windows();
    if count == 0 {
        assert(forest.take(0).map_values(f) =~= Seq::<Seq<Window>>::empty());
    } else {
        lemma_windows_of_flatten(forest, (count - 1) as nat);
        let before = forest.take(count - 1).map_values(f);
        assert(forest.take(count as int).map_values(f) =~= before.push(f(forest[count - 1])));
        before.lemma_flatten_push(f(forest[count - 1]));
    }
}

/// A tiling or floating container without children is one window. Any other
/// container has the windows of its children, one child after the other, the
/// tiling ones first, and no others.
pub proof fn law_windows_are_those_of_the_children(node: Node)
    ensures
        (node.node_type is Con || node.node_type is FloatingCon) && node.children().len() == 0
            ==> node.windows() == seq![(node.id, node.focused)],
        !((node.node_type is Con || node.node_type is FloatingCon) && node.children().len() == 0)
            ==> node.windows() == node.children().map_values(
            |child: Node| child.windows(),
        ).flatten(),
{
    let f = |child: Node| child.windows();
    if !((node.node_type is Con || node.node_type is FloatingCon) && node.children().len() == 0) {
        lemma_windows_of_flatten(node.nodes@, node.nodes@.len());
        lemma_windows_of_flatten(node.floating_nodes@, node.floating_nodes@.len());
        assert(node.nodes@.take(node.nodes@.len() as int) =~= node.nodes@);
        assert(node.floating_nodes@.take(node.floating_nodes@.len() as int)
            =~= node.floating_nodes@);
        assert(node.children().map_values(f) =~= node.nodes@.map_values(f)
            + node.floating_nodes@.map_values(f));
        vstd::seq_lib::lemma_flatten_concat(
            node.nodes@.map_values(f),
            node.floating_nodes@.map_values(f),
        );
    }
}

/// The windows of every child occur, together and in their order, among the
/// windows of the container.
pub proof fn law_every_child_is_walked(node: Node, index: int)
    requires
        0 <= index < node.children().len(),
    ensures
        exists|start: int|
            0 <= start && start + node.children()[index].windows().len() <= node.windows().len()
                && #[trigger] node.windows().subrange(
                start,
                start + node.children()[index].windows().len(),
            ) == node.children()[index].windows(),
{
    let n = node.nodes@.len() as int;
    let tiling = windows_of(node.nodes@, node.nodes@.len());
    let floating = windows_of(node.floating_nodes@, node.floating_nodes@.len());
    let child = node.children()[index].windows();
    assert(node.windows() == tiling + floating);
    if index < n {
        let start = lemma_windows_of_tree(node.nodes@, node.nodes@.len(), index);
        assert(node.windows().subrange(start, start + child.len()) =~= tiling.subrange(
            start,
            start + child.len(),
        ));
    } else {
        let start = lemma_windows_of_tree(
            node.floating_nodes@,
            node.floating_nodes@.len(),
            index - n,
        );
        let at = tiling.len() + start;
        assert(node.windows().subrange(at, at + child.len()) =~= floating.subrange(
            start,
            start + child.len(),
        ));
    }
}

/// Every childless tiling or floating container of the tree, at any depth and
/// behind any children, is among its windows.
pub proof fn law_every_window_is_found(tree: Node, path: Seq<int>, window: Window)
    requires
        tree.has_window_at(path, window),
    ensures
        tree.windows().contains(window),
    decreases path.len(),
{
    if path.len() == 0 {
        assert(tree.windows()[0] == window);
    } else {
        let child = tree.children()[path[0]];
        assert(child.has_window_at(path.skip(1), window));
        law_every_window_is_found(child, path.skip(1), window);
        law_every_child_is_walked(tree, path[0]);
        let start = choose|start: int|
            0 <= start && start + child.windows().len() <= tree.windows().len()
                && #[trigger] tree.windows().subrange(start, start + child.windows().len())
                == child.windows();
        let k = child.windows().index_of(window);
        assert(tree.windows().subrange(start, start + child.windows().len())[k] == window);
        assert(tree.windows()[start + k] == window);
    }
}

/// Every window of the tree is a childless tiling or floating container of it.
pub proof fn law_every_found_window_is_in_the_tree(tree: Node, window: Window)
    requires
        tree.windows().contains(window),
    ensures
        exists|path: Seq<int>| tree.has_window_at(path, window),
    decreases tree,
{
    if tree.spec_is_leaf() {
        assert(tree.windows()[0] == window);
        assert(tree.has_window_at(Seq::empty(), window));
    } else {
        let n = tree.nodes@.len() as int;
        let tiling = windows_of(tree.nodes@, tree.nodes@.len());
        let floating = windows_of(tree.floating_nodes@, tree.floating_nodes@.len());
        assert(tree.windows() == tiling + floating);
        let k = tree.windows().index_of(window);
        assert(tree.windows()[k] == window);
        let index: int = if k < tiling.len() {
            assert(tiling[k] == window);
            let i = lemma_window_of_forest(tree.nodes@, tree.nodes@.len(), window);
            assert(decreases_to!(tree => tree.nodes@));
            assert(decreases_to!(tree.nodes@ => tree.nodes@[i]));
            law_every_found_window_is_in_the_tree(tree.nodes@[i], window);
            i
        } else {
            assert(floating[k - tiling.len()] == window);
            let i = lemma_window_of_forest(
                tree.floating_nodes@,
                tree.floating_nodes@.len(),
                window,
            );
            assert(decreases_to!(tree => tree.floating_nodes@));
            assert(decreases_to!(tree.floating_nodes@ => tree.floating_nodes@[i]));
            law_every_found_window_is_in_the_tree(tree.floating_nodes@[i], window);
            n + i
        };
        let child = tree.children()[index];
        let rest = choose|rest: Seq<int>| child.has_window_at(rest, window);
        let path = seq![index] + rest;
        assert(path.skip(1) =~= rest);
        assert(tree.has_window_at(path, window));
    }
}

/// The listing holds exactly the con_ids of the childless tiling and floating
/// containers that can be reached from the root.
pub proof fn law_listing_holds_exactly_the_windows(tree: Node, id: i64)
    ensures
        all_windows(tree).contains(id) <==> exists|path: Seq<int>, focused: bool|
            tree.has_window_at(path, (id, focused)),
{
    let windows = tree.windows();
    let ids = ids_of(windows);
    law_listing_keeps_windows(tree);
    vstd::seq_lib::to_multiset_contains(ids, id);
    vstd::seq_lib::to_multiset_contains(all_windows(tree), id);
    if all_windows(tree).contains(id) {
        let k = ids.index_of(id);
        assert(ids[k] == windows[k].0);
        assert(windows.contains(windows[k]));
        law_every_found_window_is_in_the_tree(tree, windows[k]);
        let path = choose|path: Seq<int>| tree.has_window_at(path, windows[k]);
        assert(windows[k] == (id, windows[k].1));
        assert(tree.has_window_at(path, (id, windows[k].1)));
    }
    if exists|path: Seq<int>, focused: bool| tree.has_window_at(path, (id, focused)) {
        let (path, focused) = choose|path: Seq<int>, focused: bool|
            tree.has_window_at(path, (id, focused));
        law_every_window_is_found(tree, path, (id, focused));
        let k = windows.index_of((id, focused));
        assert(ids[k] == id);
    }
}

/// The last focused window, told by its place among the windows.
proof fn lemma_last_focused_at(windows: Seq<Window>, at: int)
    requires
        0 <= at < windows.len(),
        windows[at].1,
        forall|i: int| at < i < windows.len() ==> !(#[trigger] windows[i]).1,
    ensures
        last_focused(windows) == Some(windows[at].0),
    decreases windows.len(),
{
    if at < windows.len() - 1 {
        assert(!windows[windows.len() - 1].1);
        let init = windows.drop_last();
        assert forall|i: int| at < i < init.len() implies !(#[trigger] init[i]).1 by {
            assert(!windows[i].1);
        }
        lemma_last_focused_at(init, at);
    }
}

/// If the window at `at` is the last one in the tree that has the focus, it is
/// the focused one, it is listed last, a history seeded from the tree starts
/// with it, and the other windows are listed in the order of the tree.
pub proof fn law_last_focused_window_is_listed_last(tree: Node, at: int, a: i64, b: i64)
    requires
        0 <= at < tree.windows().len(),
        tree.windows()[at].1,
        forall|i: int| at < i < tree.windows().len() ==> !(#[trigger] tree.windows()[i]).1,
        a != tree.windows()[at].0,
        b != tree.windows()[at].0,
    ensures
        last_focused(tree.windows()) == Some(tree.windows()[at].0),
        all_windows(tree).len() == tree.windows().len(),
        all_windows(tree).last() == tree.windows()[at].0,
        StateView::initial().seeded(all_windows(tree)).history[0] == tree.windows()[at].0,
        stands_before(all_windows(tree), a, b) <==> stands_before(ids_of(tree.windows()), a, b),
{
    let windows = tree.windows();
    let ids = ids_of(windows);
    let id = windows[at].0;
    lemma_last_focused_at(windows, at);
    law_focused_window_is_listed_last(tree);
    law_seeding_puts_focused_window_first(tree);
    ids.index_of_first_ensures(id);
    assert(ids[at] == id);
    let pos = ids.index_of_first(id)->0;
    let listed = all_windows(tree);
    assert(listed == ids.remove(pos).push(id));
    if stands_before(ids, a, b) {
        let (i, j) = choose|i: int, j: int|
            #![trigger ids[i], ids[j]]
            0 <= i < j < ids.len() && ids[i] == a && ids[j] == b;
        let k = if i < pos {
            i
        } else {
            i - 1
        };
        let l = if j < pos {
            j
        } else {
            j - 1
        };
        assert(listed[k] == a && listed[l] == b);
    }
    if stands_before(listed, a, b) {
        let (i, j) = choose|i: int, j: int|
            #![trigger listed[i], listed[j]]
            0 <= i < j < listed.len() && listed[i] == a && listed[j] == b;
        let k = if i < pos {
            i
        } else {
            i + 1
        };
        let l = if j < pos {
            j
        } else {
            j + 1
        };
        assert(ids[k] == a && ids[l] == b);
    }
}

/// If no window has the focus, all are listed in the order of the tree.
pub proof fn law_without_focus_the_tree_order_stays(tree: Node)
    requires
        forall|i: int| 0 <= i < tree.windows().len() ==> !(#[trigger] tree.windows()[i]).1,
    ensures
        last_focused(tree.windows()) is None,
        all_windows(tree).len() == tree.windows().len(),
        forall|i: int|
            0 <= i < tree.windows().len() ==> all_windows(tree)[i] == (
            #[trigger] tree.windows()[i]).0,
{
    lemma_last_focused_is_window(tree.windows());
}

/// The con_ids of windows, one for one.
pub proof fn law_ids_are_those_of_the_windows(windows: Seq<Window>)
    ensures
        ids_of(windows).len() == windows.len(),
        forall|i: int| 0 <= i < windows.len() ==> ids_of(windows)[i] == (#[trigger] windows[i]).0,
{
}

/// A window is a tiling or floating container without children.
pub proof fn law_leaf_is_childless_container(node: Node)
    ensures
        node.spec_is_leaf() <==> (node.node_type is Con || node.node_type is FloatingCon)
            && node.children().len() == 0,
{
}

} // verus!
