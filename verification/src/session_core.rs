//! The in-process session core: panes, a binary split layout, focus
//! cycling and per-pane scrollback, as used by a front-end.

use vstd::prelude::*;

verus! {

/// Direction of a split.
#[derive(Clone, Copy, PartialEq, Eq, Structural, Debug)]
pub enum SplitAxis {
    Horizontal,
    Vertical,
}

/// A binary layout tree whose leaves are pane ids.
pub enum LayoutNode {
    Leaf(usize),
    Split { axis: SplitAxis, first: Box<LayoutNode>, second: Box<LayoutNode> },
}

impl Clone for LayoutNode {
    fn clone(&self) -> (r: Self)
        ensures
            r == *self,
        decreases self,
    {
        match self {
            LayoutNode::Leaf(id) => LayoutNode::Leaf(*id),
            LayoutNode::Split { axis, first, second } => LayoutNode::Split {
                axis: *axis,
                first: Box::new((**first).clone()),
                second: Box::new((**second).clone()),
            },
        }
    }
}

/// Whether the pane id occurs as a leaf of the tree.
pub open spec fn layout_contains(n: LayoutNode, id: usize) -> bool
    decreases n,
{
    match n {
        LayoutNode::Leaf(leaf) => leaf == id,
        LayoutNode::Split { axis, first, second } => layout_contains(*first, id)
            || layout_contains(*second, id),
    }
}

/// One pane with a bounded scrollback of lines.
pub struct Pane {
    pub id: usize,
    pub title: String,
    pub lines: Vec<String>,
}

impl Clone for Pane {
    fn clone(&self) -> (r: Self)
        ensures
            r.id == self.id,
            r.title@ == self.title@,
            crate::domain::strs_view(r.lines@) == crate::domain::strs_view(self.lines@),
    {
        Pane {
            id: self.id,
            title: self.title.clone(),
            lines: crate::domain::clone_string_vec(&self.lines),
        }
    }
}

/// A session: panes, their layout, the focused pane and a zoom flag.
pub struct SessionCore {
    pub name: String,
    pub panes: Vec<Pane>,
    pub layout: LayoutNode,
    pub focused_pane: usize,
    pub zoomed: bool,
    pub next_id: usize,
}

/// The pane ids, in creation order.
pub open spec fn pane_id_seq(panes: Seq<Pane>) -> Seq<usize> {
    panes.map_values(|p: Pane| p.id)
}

/// Well-formedness of a session core: at least one pane, unique pane
/// ids below the counter, focus on an existing pane, and the layout's
/// leaves are exactly the pane ids (as a set).
pub open spec fn wf_core(s: SessionCore) -> bool {
    &&& s.panes.len() >= 1
    &&& forall|a: int, b: int|
        0 <= a < b < s.panes@.len() ==> s.panes@[a].id != s.panes@[b].id
    &&& forall|a: int| 0 <= a < s.panes@.len() ==> (#[trigger] s.panes@[a].id) < s.next_id
    &&& exists|a: int| 0 <= a < s.panes@.len() && s.panes@[a].id == s.focused_pane
    &&& forall|id: usize|
        #[trigger] layout_contains(s.layout, id) <==> exists|a: int|
            0 <= a < s.panes@.len() && s.panes@[a].id == id
}

/// A scrollback after one append: the old lines plus the new one,
/// keeping only the last `cap` entries.
pub open spec fn capped_lines(lines: Seq<Seq<char>>, line: Seq<char>, cap: int) -> Seq<
    Seq<char>,
> {
    let all = lines.push(line);
    if all.len() <= cap {
        all
    } else {
        all.subrange(all.len() - cap, all.len() as int)
    }
}

/// What appending a line to the pane named `pane_id` does: that pane's
/// scrollback becomes its old lines plus the new one, capped; its id
/// and title, every other pane, and every other field are unchanged;
/// an unknown id changes nothing at all.
pub open spec fn append_effect(
    pre: SessionCore,
    post: SessionCore,
    pane_id: usize,
    line: Seq<char>,
    cap: int,
) -> bool {
    &&& post.name == pre.name
    &&& post.layout == pre.layout
    &&& post.focused_pane == pre.focused_pane
    &&& post.zoomed == pre.zoomed
    &&& post.next_id == pre.next_id
    &&& post.panes@.len() == pre.panes@.len()
    &&& forall|a: int|
        0 <= a < pre.panes@.len() && (#[trigger] pre.panes@[a]).id != pane_id
            ==> post.panes@[a] == pre.panes@[a]
    &&& forall|a: int|
        0 <= a < pre.panes@.len() && (#[trigger] pre.panes@[a]).id == pane_id ==> {
            &&& post.panes@[a].id == pre.panes@[a].id
            &&& post.panes@[a].title == pre.panes@[a].title
            &&& crate::domain::strs_view(post.panes@[a].lines@) == capped_lines(
                crate::domain::strs_view(pre.panes@[a].lines@),
                line,
                cap,
            )
        }
    &&& (forall|a: int|
        0 <= a < pre.panes@.len() ==> (#[trigger] pre.panes@[a]).id != pane_id) ==> post == pre
}

/// The tree after a split: every leaf holding `target` becomes a split
/// whose first side keeps `target` and whose second side is the new
/// pane's leaf.
pub open spec fn split_leaf_spec(
    node: LayoutNode,
    target: usize,
    new_id: usize,
    axis: SplitAxis,
) -> LayoutNode
    decreases node,
{
    match node {
        LayoutNode::Leaf(id) => if id == target {
            LayoutNode::Split {
                axis,
                first: Box::new(LayoutNode::Leaf(id)),
                second: Box::new(LayoutNode::Leaf(new_id)),
            }
        } else {
            LayoutNode::Leaf(id)
        },
        LayoutNode::Split { axis: current, first, second } => LayoutNode::Split {
            axis: current,
            first: Box::new(split_leaf_spec(*first, target, new_id, axis)),
            second: Box::new(split_leaf_spec(*second, target, new_id, axis)),
        },
    }
}

/// The tree after removing every leaf holding `target`: a split losing
/// one side collapses to the other; a tree of only `target` leaves
/// vanishes.
pub open spec fn remove_leaf_spec(node: LayoutNode, target: usize) -> Option<LayoutNode>
    decreases node,
{
    match node {
        LayoutNode::Leaf(id) => if id == target {
            None
        } else {
            Some(LayoutNode::Leaf(id))
        },
        LayoutNode::Split { axis, first, second } => match (
            remove_leaf_spec(*first, target),
            remove_leaf_spec(*second, target),
        ) {
            (Some(l), Some(rn)) => Some(
                LayoutNode::Split { axis, first: Box::new(l), second: Box::new(rn) },
            ),
            (Some(l), None) => Some(l),
            (None, Some(rn)) => Some(rn),
            (None, None) => None,
        },
    }
}

fn split_leaf(node: LayoutNode, target: usize, new_id: usize, axis: SplitAxis) -> (r: LayoutNode)
    ensures
        r == split_leaf_spec(node, target, new_id, axis),
        forall|id: usize|
            #[trigger] layout_contains(r, id) <==> (layout_contains(node, id) || (id == new_id
                && layout_contains(node, target))),
    decreases node,
{
    match node {
        LayoutNode::Leaf(id) => {
            if id == target {
                let r = LayoutNode::Split {
                    axis,
                    first: Box::new(LayoutNode::Leaf(id)),
                    second: Box::new(LayoutNode::Leaf(new_id)),
                };
                proof {
                    assert forall|x: usize|
                        #[trigger] layout_contains(r, x) <==> (layout_contains(
                            LayoutNode::Leaf(id),
                            x,
                        ) || (x == new_id && layout_contains(LayoutNode::Leaf(id), target)))
                        by {
                        assert(layout_contains(LayoutNode::Leaf(id), x) == (x == id));
                        assert(layout_contains(LayoutNode::Leaf(new_id), x) == (x == new_id));
                    }
                }
                r
            } else {
                LayoutNode::Leaf(id)
            }
        },
        LayoutNode::Split { axis: current, first, second } => {
            let ghost orig = node;
            let f = split_leaf(*first, target, new_id, axis);
            let s = split_leaf(*second, target, new_id, axis);
            let r = LayoutNode::Split { axis: current, first: Box::new(f), second: Box::new(s) };
            proof {
                assert forall|id: usize|
                    #[trigger] layout_contains(r, id) <==> (layout_contains(orig, id) || (id
                        == new_id && layout_contains(orig, target))) by {
                    assert(layout_contains(r, id) == (layout_contains(f, id)
                        || layout_contains(s, id)));
                }
            }
            r
        },
    }
}

fn remove_leaf(node: LayoutNode, target: usize) -> (r: Option<LayoutNode>)
    ensures
        r == remove_leaf_spec(node, target),
        match r {
            Some(res) => forall|id: usize|
                #[trigger] layout_contains(res, id) <==> (layout_contains(node, id) && id
                    != target),
            None => forall|id: usize| #[trigger] layout_contains(node, id) ==> id == target,
        },
        (r is None) ==> layout_contains(node, target),
    decreases node,
{
    match node {
        LayoutNode::Leaf(id) => {
            if id == target {
                None
            } else {
                Some(LayoutNode::Leaf(id))
            }
        },
        LayoutNode::Split { axis, first, second } => {
            let ghost orig = node;
            let left = remove_leaf(*first, target);
            let right = remove_leaf(*second, target);
            match (left, right) {
                (Some(l), Some(rn)) => {
                    let r = LayoutNode::Split {
                        axis,
                        first: Box::new(l),
                        second: Box::new(rn),
                    };
                    proof {
                        assert forall|id: usize|
                            #[trigger] layout_contains(r, id) <==> (layout_contains(orig, id)
                                && id != target) by {
                            assert(layout_contains(r, id) == (layout_contains(l, id)
                                || layout_contains(rn, id)));
                        }
                    }
                    Some(r)
                },
                (Some(l), None) => {
                    proof {
                        assert forall|id: usize|
                            #[trigger] layout_contains(l, id) <==> (layout_contains(orig, id)
                                && id != target) by {
                            assert(layout_contains(orig, id) == (layout_contains(*first, id)
                                || layout_contains(*second, id)));
                        }
                    }
                    Some(l)
                },
                (None, Some(rn)) => {
                    proof {
                        assert forall|id: usize|
                            #[trigger] layout_contains(rn, id) <==> (layout_contains(orig, id)
                                && id != target) by {
                            assert(layout_contains(orig, id) == (layout_contains(*first, id)
                                || layout_contains(*second, id)));
                        }
                    }
                    Some(rn)
                },
                (None, None) => {
                    proof {
                        assert forall|id: usize|
                            #[trigger] layout_contains(orig, id) implies id == target by {
                            assert(layout_contains(orig, id) == (layout_contains(*first, id)
                                || layout_contains(*second, id)));
                        }
                        assert(layout_contains(orig, target)) by {
                            assert(layout_contains(orig, target) == (layout_contains(
                                *first,
                                target,
                            ) || layout_contains(*second, target)));
                        }
                    }
                    None
                },
            }
        },
    }
}

impl SessionCore {
    /// A fresh session with one pane and a greeting line.
    pub fn new(name: &str) -> (r: Self)
        ensures
            wf_core(r),
            r.name@ == name@,
            r.panes@.len() == 1,
            r.panes@[0].id == 0,
            r.panes@[0].title@ == "Pane 0"@,
            crate::domain::strs_view(r.panes@[0].lines@) == seq!["OrchestraTerm ready"@],
            r.focused_pane == 0,
            r.zoomed == false,
            r.layout == LayoutNode::Leaf(0usize),
            r.next_id == 1,
    {
        let mut lines: Vec<String> = Vec::new();
        lines.push("OrchestraTerm ready".to_owned());
        proof {
            assert(crate::domain::strs_view(lines@) =~= seq!["OrchestraTerm ready"@]);
        }
        let pane = Pane { id: 0, title: "Pane 0".to_owned(), lines };
        let mut panes: Vec<Pane> = Vec::new();
        panes.push(pane);
        let r = SessionCore {
            name: name.to_owned(),
            panes,
            layout: LayoutNode::Leaf(0),
            focused_pane: 0,
            zoomed: false,
            next_id: 1,
        };
        proof {
            assert(layout_contains(r.layout, 0usize));
            assert forall|id: usize|
                #[trigger] layout_contains(r.layout, id) implies exists|a: int|
                    0 <= a < r.panes@.len() && r.panes@[a].id == id by {
                assert(r.panes@[0].id == id);
            }
        }
        r
    }

    /// The pane ids, in creation order.
    pub fn pane_ids(&self) -> (r: Vec<usize>)
        ensures
            r@ == pane_id_seq(self.panes@),
    {
        let mut r: Vec<usize> = Vec::new();
        let mut i: usize = 0;
        while i < self.panes.len()
            invariant
                i <= self.panes.len(),
                r@.len() == i,
                forall|j: int| 0 <= j < i ==> #[trigger] r@[j] == self.panes@[j].id,
            decreases self.panes.len() - i,
        {
            r.push(self.panes[i].id);
            i = i + 1;
        }
        proof {
            assert(r@ =~= pane_id_seq(self.panes@));
        }
        r
    }

    /// Splits the focused pane; the new pane takes the next id and the
    /// focus, its leaf sits beside the old focused leaf, and existing
    /// panes are untouched.
    pub fn split_focused(&mut self, axis: SplitAxis)
        requires
            wf_core(*old(self)),
            old(self).next_id < usize::MAX,
        ensures
            wf_core(*final(self)),
            final(self).panes@.len() == old(self).panes@.len() + 1,
            forall|j: int|
                0 <= j < old(self).panes@.len() ==> final(self).panes@[j]
                    == old(self).panes@[j],
            final(self).panes@.last().id == old(self).next_id,
            final(self).panes@.last().title@ == "Pane "@ + crate::domain::dec_digits(
                old(self).next_id as nat,
            ),
            crate::domain::strs_view(final(self).panes@.last().lines@) == seq![
                "split from pane "@ + crate::domain::dec_digits(old(self).focused_pane as nat),
            ],
            final(self).layout == split_leaf_spec(
                old(self).layout,
                old(self).focused_pane,
                old(self).next_id,
                axis,
            ),
            final(self).focused_pane == old(self).next_id,
            final(self).next_id == old(self).next_id + 1,
            final(self).name == old(self).name,
            final(self).zoomed == old(self).zoomed,
    {
        let new_id = self.next_id;
        self.next_id = self.next_id + 1;
        let title = "Pane ".to_owned().concat(
            crate::domain::u64_to_string(new_id as u64).as_str(),
        );
        let mut lines: Vec<String> = Vec::new();
        lines.push(
            "split from pane ".to_owned().concat(
                crate::domain::u64_to_string(self.focused_pane as u64).as_str(),
            ),
        );
        proof {
            assert(crate::domain::strs_view(lines@) =~= seq![
                "split from pane "@ + crate::domain::dec_digits(
                    old(self).focused_pane as nat,
                ),
            ]);
        }
        self.panes.push(Pane { id: new_id, title, lines });
        let old_layout = self.layout.clone();
        let ghost prev = *old(self);
        self.layout = split_leaf(old_layout, self.focused_pane, new_id, axis);
        self.focused_pane = new_id;
        proof {
            assert(layout_contains(prev.layout, prev.focused_pane));
            assert forall|id: usize|
                #[trigger] layout_contains(self.layout, id) implies exists|a: int|
                    0 <= a < self.panes@.len() && self.panes@[a].id == id by {
                if id == new_id {
                    assert(self.panes@[self.panes@.len() - 1].id == id);
                } else {
                    assert(layout_contains(prev.layout, id));
                    let a = choose|a: int|
                        0 <= a < prev.panes@.len() && prev.panes@[a].id == id;
                    assert(self.panes@[a].id == id);
                }
            }
            assert forall|a: int|
                0 <= a < self.panes@.len() implies layout_contains(
                    self.layout,
                    #[trigger] self.panes@[a].id,
                ) by {
                if a < self.panes@.len() - 1 {
                    assert(layout_contains(prev.layout, self.panes@[a].id));
                }
            }
            assert(self.panes@[self.panes@.len() - 1].id == new_id);
            assert(wf_core(*self));
        }
    }

    /// Closes the focused pane, unless it is the only one; focus moves
    /// to the first remaining pane and zoom is reset.
    pub fn close_focused(&mut self)
        requires
            wf_core(*old(self)),
        ensures
            wf_core(*final(self)),
            old(self).panes@.len() == 1 ==> *final(self) == *old(self),
            old(self).panes@.len() > 1 ==> {
                &&& final(self).panes@.len() == old(self).panes@.len() - 1
                &&& (exists|idx: int|
                    0 <= idx < old(self).panes@.len() && (#[trigger] old(
                        self,
                    ).panes@[idx]).id == old(self).focused_pane && final(self).panes@ == old(
                        self,
                    ).panes@.remove(idx))
                &&& forall|a: int|
                    0 <= a < final(self).panes@.len()
                        ==> (#[trigger] final(self).panes@[a]).id != old(self).focused_pane
                &&& (remove_leaf_spec(old(self).layout, old(self).focused_pane) matches Some(l)
                    && final(self).layout == l)
                &&& final(self).focused_pane == final(self).panes@[0].id
                &&& final(self).zoomed == false
                &&& final(self).name == old(self).name
                &&& final(self).next_id == old(self).next_id
            },
    {
        if self.panes.len() == 1 {
            return ;
        }
        let removed = self.focused_pane;
        let ghost prev = *self;
        let mut idx: usize = 0;
        let mut found: bool = false;
        let mut i: usize = 0;
        while i < self.panes.len()
            invariant
                i <= self.panes.len(),
                *self == prev,
                wf_core(prev),
                removed == prev.focused_pane,
                !found ==> forall|j: int| 0 <= j < i ==> prev.panes@[j].id != removed,
                found ==> idx < i && prev.panes@[idx as int].id == removed,
            decreases self.panes.len() - i,
        {
            if !found && self.panes[i].id == removed {
                idx = i;
                found = true;
            }
            i = i + 1;
        }
        proof {
            if !found {
                let a = choose|a: int|
                    0 <= a < prev.panes@.len() && prev.panes@[a].id == removed;
                assert(false);
            }
        }
        self.panes.remove(idx);
        let node = self.layout.clone();
        let removed_result = remove_leaf(node, removed);
        self.zoomed = false;
        proof {
            assert(self.panes@ == prev.panes@.remove(idx as int));
            assert forall|a: int|
                0 <= a < self.panes@.len() implies (#[trigger] self.panes@[a]).id
                    != removed by {
                let b = if a < idx as int { a } else { a + 1 };
                assert(self.panes@[a] == prev.panes@[b]);
                if b != idx as int {
                    assert(prev.panes@[b].id != prev.panes@[idx as int].id);
                }
            }
            assert forall|a: int, b: int|
                0 <= a < b < self.panes@.len() implies self.panes@[a].id
                    != self.panes@[b].id by {
                let oa = if a < idx as int { a } else { a + 1 };
                let ob = if b < idx as int { b } else { b + 1 };
                assert(self.panes@[a] == prev.panes@[oa]);
                assert(self.panes@[b] == prev.panes@[ob]);
            }
            assert forall|a: int|
                0 <= a < self.panes@.len() implies (#[trigger] self.panes@[a]).id
                    < self.next_id by {
                let oa = if a < idx as int { a } else { a + 1 };
                assert(self.panes@[a] == prev.panes@[oa]);
            }
        }
        match removed_result {
            Some(l) => {
                self.layout = l;
            },
            None => {
                proof {
                    let b = if idx == 0 {
                        1int
                    } else {
                        0int
                    };
                    assert(prev.panes@[b].id != prev.panes@[idx as int].id);
                    assert(layout_contains(prev.layout, prev.panes@[b].id));
                    assert(false);
                }
                self.layout = LayoutNode::Leaf(0);
            },
        }
        self.focused_pane = self.panes[0].id;
        proof {
            assert forall|id: usize|
                #[trigger] layout_contains(self.layout, id) implies exists|a: int|
                    0 <= a < self.panes@.len() && self.panes@[a].id == id by {
                assert(layout_contains(prev.layout, id) && id != removed);
                let b = choose|b: int| 0 <= b < prev.panes@.len() && prev.panes@[b].id == id;
                assert(b != idx as int);
                let a = if b < idx as int { b } else { b - 1 };
                assert(self.panes@[a] == prev.panes@[b]);
            }
            assert forall|a: int|
                0 <= a < self.panes@.len() implies layout_contains(
                    self.layout,
                    #[trigger] self.panes@[a].id,
                ) by {
                let b = if a < idx as int { a } else { a + 1 };
                assert(self.panes@[a] == prev.panes@[b]);
                assert(layout_contains(prev.layout, prev.panes@[b].id));
            }
            assert(self.panes@[0].id == self.focused_pane);
            assert(wf_core(*self));
            assert(prev.panes@[idx as int].id == prev.focused_pane && self.panes@
                == prev.panes@.remove(idx as int));
        }
    }

    /// Moves the focus to the next pane in creation order, wrapping
    /// around.
    pub fn focus_next(&mut self)
        requires
            wf_core(*old(self)),
        ensures
            wf_core(*final(self)),
            final(self).panes == old(self).panes,
            final(self).layout == old(self).layout,
            final(self).zoomed == old(self).zoomed,
            final(self).name == old(self).name,
            final(self).next_id == old(self).next_id,
            exists|p: int|
                0 <= p < old(self).panes@.len() && (#[trigger] old(self).panes@[p]).id == old(
                    self,
                ).focused_pane && final(self).focused_pane == old(self).panes@[if p + 1 == old(
                    self,
                ).panes@.len() {
                    0int
                } else {
                    p + 1
                }].id,
    {
        let n = self.panes.len();
        let mut i: usize = 0;
        while i < n
            invariant
                i <= n,
                n == self.panes@.len(),
                wf_core(*self),
                *self == *old(self),
                forall|j: int| 0 <= j < i ==> self.panes@[j].id != self.focused_pane,
            decreases n - i,
        {
            if self.panes[i].id == self.focused_pane {
                let next = if i + 1 < n {
                    i + 1
                } else {
                    0
                };
                let ghost p = i as int;
                self.focused_pane = self.panes[next].id;
                proof {
                    assert(exists|a: int|
                        0 <= a < self.panes@.len() && self.panes@[a].id == self.focused_pane)
                        by {
                        assert(self.panes@[next as int].id == self.focused_pane);
                    }
                    assert(wf_core(*self));
                }
                return ;
            }
            i = i + 1;
        }
        proof {
            let a = choose|a: int|
                0 <= a < self.panes@.len() && self.panes@[a].id == self.focused_pane;
            assert(false);
        }
    }

    /// Moves the focus to the previous pane in creation order, wrapping
    /// around.
    pub fn focus_prev(&mut self)
        requires
            wf_core(*old(self)),
        ensures
            wf_core(*final(self)),
            final(self).panes == old(self).panes,
            final(self).layout == old(self).layout,
            final(self).zoomed == old(self).zoomed,
            final(self).name == old(self).name,
            final(self).next_id == old(self).next_id,
            exists|p: int|
                0 <= p < old(self).panes@.len() && (#[trigger] old(self).panes@[p]).id == old(
                    self,
                ).focused_pane && final(self).focused_pane == old(self).panes@[if p == 0 {
                    old(self).panes@.len() as int - 1
                } else {
                    p - 1
                }].id,
    {
        let n = self.panes.len();
        let mut i: usize = 0;
        while i < n
            invariant
                i <= n,
                n == self.panes@.len(),
                wf_core(*self),
                *self == *old(self),
                forall|j: int| 0 <= j < i ==> self.panes@[j].id != self.focused_pane,
            decreases n - i,
        {
            if self.panes[i].id == self.focused_pane {
                let prev_idx = if i == 0 {
                    n - 1
                } else {
                    i - 1
                };
                let ghost p = i as int;
                self.focused_pane = self.panes[prev_idx].id;
                proof {
                    assert(exists|a: int|
                        0 <= a < self.panes@.len() && self.panes@[a].id == self.focused_pane)
                        by {
                        assert(self.panes@[prev_idx as int].id == self.focused_pane);
                    }
                    assert(wf_core(*self));
                }
                return ;
            }
            i = i + 1;
        }
        proof {
            let a = choose|a: int|
                0 <= a < self.panes@.len() && self.panes@[a].id == self.focused_pane;
            assert(false);
        }
    }

    /// Toggles the zoom flag.
    pub fn toggle_zoom(&mut self)
        ensures
            final(self).zoomed == !old(self).zoomed,
            final(self).panes == old(self).panes,
            final(self).layout == old(self).layout,
            final(self).focused_pane == old(self).focused_pane,
            final(self).name == old(self).name,
            final(self).next_id == old(self).next_id,
    {
        self.zoomed = !self.zoomed;
    }

    /// Appends a line to the focused pane's scrollback, keeping only
    /// the last 200 lines; every other pane and field is untouched.
    pub fn append_line_focused(&mut self, line: &str)
        requires
            wf_core(*old(self)),
        ensures
            wf_core(*final(self)),
            append_effect(*old(self), *final(self), old(self).focused_pane, line@, 200),
    {
        let target = self.focused_pane;
        self.append_line_to_pane_capped(target, line, 200);
    }

    /// Appends a line to the named pane's scrollback, keeping only the
    /// last 400 lines; an unknown id changes nothing, and every other
    /// pane and field is untouched.
    pub fn append_line_to_pane(&mut self, pane_id: usize, line: &str)
        requires
            wf_core(*old(self)),
        ensures
            wf_core(*final(self)),
            append_effect(*old(self), *final(self), pane_id, line@, 400),
    {
        self.append_line_to_pane_capped(pane_id, line, 400);
    }

    fn append_line_to_pane_capped(&mut self, pane_id: usize, line: &str, cap: usize)
        requires
            wf_core(*old(self)),
            cap >= 1,
        ensures
            wf_core(*final(self)),
            append_effect(*old(self), *final(self), pane_id, line@, cap as int),
    {
        let ghost prev = *old(self);
        let mut idx: usize = 0;
        let mut found: bool = false;
        let mut i: usize = 0;
        while i < self.panes.len()
            invariant
                i <= self.panes.len(),
                *self == prev,
                prev == *old(self),
                !found ==> forall|j: int| 0 <= j < i ==> prev.panes@[j].id != pane_id,
                found ==> idx < i <= prev.panes@.len() && prev.panes@[idx as int].id == pane_id,
            decreases self.panes.len() - i,
        {
            if !found && self.panes[i].id == pane_id {
                idx = i;
                found = true;
            }
            i = i + 1;
        }
        if !found {
            proof {
                assert(append_effect(prev, *self, pane_id, line@, cap as int));
            }
            return ;
        }
        let ghost target0 = prev.panes@[idx as int];
        let p = &mut self.panes[idx];
        p.lines.push(line.to_owned());
        let ghost all = crate::domain::strs_view(target0.lines@).push(line@);
        proof {
            assert(crate::domain::strs_view(p.lines@) =~= all);
            assert(crate::domain::strs_view(p.lines@) =~= all.subrange(
                all.len() - p.lines@.len(),
                all.len() as int,
            ));
        }
        while p.lines.len() > cap
            invariant
                cap >= 1,
                p.id == target0.id,
                p.title == target0.title,
                all == crate::domain::strs_view(target0.lines@).push(line@),
                1 <= p.lines@.len() <= all.len(),
                p.lines@.len() >= cap || p.lines@.len() == all.len(),
                crate::domain::strs_view(p.lines@) == all.subrange(
                    all.len() - p.lines@.len(),
                    all.len() as int,
                ),
            decreases p.lines.len(),
        {
            let ghost before = p.lines@;
            p.lines.remove(0);
            proof {
                let m = p.lines@.len() as int;
                assert(p.lines@ =~= before.remove(0));
                assert forall|j: int|
                    0 <= j < m implies crate::domain::strs_view(p.lines@)[j] == all[all.len()
                        - m + j] by {
                    assert(p.lines@[j] == before[j + 1]);
                    assert(crate::domain::strs_view(before)[j + 1] == all[all.len() - (m + 1) + (
                    j + 1)]);
                }
                assert(crate::domain::strs_view(p.lines@) =~= all.subrange(
                    all.len() - m,
                    all.len() as int,
                ));
            }
        }
        proof {
            if all.len() <= cap as int {
                assert(crate::domain::strs_view(p.lines@) =~= all);
            }
            assert(crate::domain::strs_view(p.lines@) == capped_lines(
                crate::domain::strs_view(target0.lines@),
                line@,
                cap as int,
            ));
        }
        proof {
            assert(self.panes@[idx as int].id == prev.panes@[idx as int].id);
            assert forall|a: int|
                0 <= a < prev.panes@.len() && a != idx as int implies self.panes@[a]
                    == prev.panes@[a] by {}
            assert forall|id: usize|
                #[trigger] layout_contains(self.layout, id) implies exists|a: int|
                    0 <= a < self.panes@.len() && self.panes@[a].id == id by {
                let a = choose|a: int| 0 <= a < prev.panes@.len() && prev.panes@[a].id == id;
                assert(self.panes@[a].id == id);
            }
            assert forall|a: int|
                0 <= a < self.panes@.len() implies layout_contains(
                    self.layout,
                    #[trigger] self.panes@[a].id,
                ) by {
                assert(layout_contains(prev.layout, prev.panes@[a].id));
            }
            assert(exists|a: int|
                0 <= a < self.panes@.len() && self.panes@[a].id == self.focused_pane) by {
                let a = choose|a: int|
                    0 <= a < prev.panes@.len() && prev.panes@[a].id == prev.focused_pane;
                assert(self.panes@[a].id == self.focused_pane);
            }
            assert(wf_core(*self));
            assert forall|a: int|
                0 <= a < prev.panes@.len() && (#[trigger] prev.panes@[a]).id == pane_id
                    implies a == idx as int by {
                if a != idx as int {
                    assert(prev.panes@[a].id != prev.panes@[idx as int].id);
                }
            }
            assert(append_effect(prev, *self, pane_id, line@, cap as int));
        }
    }
}

} // verus!
