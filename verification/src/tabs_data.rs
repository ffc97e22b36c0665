//! What the tab strip of the body shows: a label per tab with whether it is
//! selected, and how the tabs changed between two states of the body.
use vstd::prelude::*;

use crate::body::{ids_of, increasing, State, TabId};

verus! {

/// On which side of a comparison of two id lists an id occurs.
#[derive(Debug, Clone, Copy, PartialEq, Eq, Structural)]
pub enum Side {
    Left,
    Both,
    Right,
}

/// Two id lists interleaved as `iter_set::classify` does: the smaller head
/// goes first, tagged with its side; equal heads go together.
pub open spec fn merge_ids(a: Seq<TabId>, b: Seq<TabId>) -> Seq<(TabId, Side)>
    decreases a.len() + b.len(),
{
    if a.len() == 0 {
        b.map_values(|x: TabId| (x, Side::Right))
    } else if b.len() == 0 {
        a.map_values(|x: TabId| (x, Side::Left))
    } else if a[0] < b[0] {
        seq![(a[0], Side::Left)] + merge_ids(a.drop_first(), b)
    } else if a[0] == b[0] {
        seq![(a[0], Side::Both)] + merge_ids(a.drop_first(), b.drop_first())
    } else {
        seq![(b[0], Side::Right)] + merge_ids(a, b.drop_first())
    }
}

/// Interleaves the two id lists with `iter_set::classify_by_key`, keyed by
/// the id. Claims what its `next_by` shows: heads are compared, the smaller
/// comes first as `Left` or `Right`, equal heads come as `Both`, and the rest
/// of the longer list follows.
#[verifier::external_body]
fn classify_ids(old: &[TabId], new: &[TabId]) -> (res: Vec<(TabId, Side)>)
    ensures
        res@ == merge_ids(old@, new@),
{
    iter_set::classify_by_key(old.iter(), new.iter(), |id| **id)
        .map(|inclusion| match inclusion {
            iter_set::Inclusion::Left(id) => (*id, Side::Left),
            iter_set::Inclusion::Both(id, _) => (*id, Side::Both),
            iter_set::Inclusion::Right(id) => (*id, Side::Right),
        })
        .collect()
}

/// How a tab changed between two states of the body.
#[derive(Debug, Clone, Copy, PartialEq, Eq, Structural)]
pub enum TabChange {
    Removed,
    Changed,
    Added,
}

/// The change a side of the comparison stands for.
pub open spec fn change_of(side: Side) -> TabChange {
    match side {
        Side::Left => TabChange::Removed,
        Side::Both => TabChange::Changed,
        Side::Right => TabChange::Added,
    }
}

/// The label of a tab on the strip: its text and whether it is selected.
#[derive(Debug, Clone)]
pub struct TabLabel {
    pub id: TabId,
    pub text: String,
    pub selected: bool,
}

/// The ids of a list of tabs, as a vector.
fn id_list(state: &State) -> (res: Vec<TabId>)
    ensures
        res@ == state.spec_ids(),
{
    let tabs = state.tabs();
    let mut ids: Vec<TabId> = Vec::new();
    let mut i: usize = 0;
    while i < tabs.len()
        invariant
            tabs@ == state.spec_tabs(),
            i <= tabs@.len(),
            ids@ == ids_of(tabs@).take(i as int),
        decreases tabs@.len() - i,
    {
        ids.push(tabs[i].id);
        proof {
            assert(ids@ =~= ids_of(tabs@).take(i + 1));
        }
        i = i + 1;
    }
    proof {
        assert(ids_of(tabs@).take(tabs@.len() as int) =~= ids_of(tabs@));
    }
    ids
}

impl State {
    /// How the tabs changed from `old` to this state, in id order: a tab only
    /// in `old` was removed, one in both changed, one only here was added.
    pub fn tab_changes(&self, old: &State) -> (res: Vec<(TabId, TabChange)>)
        ensures
            res@ == merge_ids(old.spec_ids(), self.spec_ids()).map_values(
                |e: (TabId, Side)| (e.0, change_of(e.1)),
            ),
    {
        let before = id_list(old);
        let after = id_list(self);
        let merged = classify_ids(before.as_slice(), after.as_slice());
        let mut res: Vec<(TabId, TabChange)> = Vec::new();
        let mut i: usize = 0;
        while i < merged.len()
            invariant
                i <= merged@.len(),
                res@ == merged@.take(i as int).map_values(|e: (TabId, Side)| (e.0, change_of(e.1))),
            decreases merged@.len() - i,
        {
            let (id, side) = merged[i];
            let change = match side {
                Side::Left => TabChange::Removed,
                Side::Both => TabChange::Changed,
                Side::Right => TabChange::Added,
            };
            res.push((id, change));
            proof {
                assert(res@ =~= merged@.take(i + 1).map_values(|e: (TabId, Side)| (e.0, change_of(e.1))));
            }
            i = i + 1;
        }
        proof {
            assert(merged@.take(merged@.len() as int) =~= merged@);
        }
        res
    }

    /// The labels of the tabs in order, each marked selected when it is the
    /// selected tab.
    pub fn tab_labels(&self) -> (res: Vec<TabLabel>)
        ensures
            res@.len() == self.spec_tabs().len(),
            forall|i: int|
                0 <= i < res@.len() ==> {
                    let l = #[trigger] res@[i];
                    let t = self.spec_tabs()[i];
                    &&& l.id == t.id
                    &&& l.text@ == t.state.spec_label()
                    &&& l.selected == (self.spec_selected() == Some(t.id))
                },
    {
        let tabs = self.tabs();
        let selected = self.selected_tab();
        let mut res: Vec<TabLabel> = Vec::new();
        let mut i: usize = 0;
        while i < tabs.len()
            invariant
                tabs@ == self.spec_tabs(),
                selected == self.spec_selected(),
                i <= tabs@.len(),
                res@.len() == i,
                forall|k: int|
                    0 <= k < i ==> {
                        let l = #[trigger] res@[k];
                        let t = tabs@[k];
                        &&& l.id == t.id
                        &&& l.text@ == t.state.spec_label()
                        &&& l.selected == (selected == Some(t.id))
                    },
            decreases tabs@.len() - i,
        {
            let t = &tabs[i];
            let is_selected = match selected {
                Some(s) => s == t.id,
                None => false,
            };
            res.push(TabLabel { id: t.id, text: t.state.label(), selected: is_selected });
            i = i + 1;
        }
        res
    }
}

/// The ids of an interleaving, in order.
pub open spec fn merged_ids(m: Seq<(TabId, Side)>) -> Seq<TabId> {
    m.map_values(|e: (TabId, Side)| e.0)
}

/// An entry in front of entries whose ids are all greater keeps the ids
/// increasing, and every id of the tail is found one place further.
proof fn lemma_cons_step(e: (TabId, Side), t: Seq<(TabId, Side)>)
    requires
        increasing(merged_ids(t)),
        forall|i: int| 0 <= i < t.len() ==> e.0 < (#[trigger] t[i]).0,
    ensures
        increasing(merged_ids(seq![e] + t)),
        forall|i: int| 0 <= i < t.len() ==> (seq![e] + t)[i + 1] == t[i],
{
    let m = seq![e] + t;
    assert forall|i: int, j: int| 0 <= i < j < merged_ids(m).len() implies merged_ids(m)[i] < merged_ids(m)[j] by {
        assert(m[j] == t[j - 1]);
        if i == 0 {
            assert(e.0 < t[j - 1].0);
        } else {
            assert(m[i] == t[i - 1]);
            assert(merged_ids(t)[i - 1] < merged_ids(t)[j - 1]);
        }
    }
}

/// Every element of `s` is greater than `x`.
pub open spec fn all_above(s: Seq<TabId>, x: TabId) -> bool {
    forall|i: int| 0 <= i < s.len() ==> x < #[trigger] s[i]
}

/// The interleaving of two increasing id lists names every id of either
/// list once, in increasing order, with the side it occurs on: only the
/// first list, both, or only the second.
pub proof fn law_merge_classifies(a: Seq<TabId>, b: Seq<TabId>)
    requires
        increasing(a),
        increasing(b),
    ensures
        increasing(merged_ids(merge_ids(a, b))),
        forall|i: int|
            0 <= i < merge_ids(a, b).len() ==> {
                let e = #[trigger] merge_ids(a, b)[i];
                match e.1 {
                    Side::Left => a.contains(e.0) && !b.contains(e.0),
                    Side::Both => a.contains(e.0) && b.contains(e.0),
                    Side::Right => !a.contains(e.0) && b.contains(e.0),
                }
            },
        forall|x: TabId|
            a.contains(x) || b.contains(x) ==> exists|i: int|
                0 <= i < merge_ids(a, b).len() && (#[trigger] merge_ids(a, b)[i]).0 == x,
    decreases a.len() + b.len(),
{
    let m = merge_ids(a, b);
    if a.len() == 0 {
        assert(merged_ids(m) =~= b);
        assert forall|x: TabId| a.contains(x) || b.contains(x) implies exists|i: int|
            0 <= i < m.len() && (#[trigger] m[i]).0 == x by {
            let k = choose|k: int| 0 <= k < b.len() && b[k] == x;
            assert(m[k].0 == x);
        }
    } else if b.len() == 0 {
        assert(merged_ids(m) =~= a);
        assert forall|x: TabId| a.contains(x) || b.contains(x) implies exists|i: int|
            0 <= i < m.len() && (#[trigger] m[i]).0 == x by {
            let k = choose|k: int| 0 <= k < a.len() && a[k] == x;
            assert(m[k].0 == x);
        }
    } else {
        let a1 = a.drop_first();
        let b1 = b.drop_first();
        assert(increasing(a1)) by {
            assert forall|i: int, j: int| 0 <= i < j < a1.len() implies a1[i] < a1[j] by {
                assert(a[i + 1] < a[j + 1]);
            }
        }
        assert(increasing(b1)) by {
            assert forall|i: int, j: int| 0 <= i < j < b1.len() implies b1[i] < b1[j] by {
                assert(b[i + 1] < b[j + 1]);
            }
        }
        assert(all_above(a1, a[0])) by {
            assert forall|i: int| 0 <= i < a1.len() implies a[0] < #[trigger] a1[i] by {
                assert(a[0] < a[i + 1]);
            }
        }
        assert(all_above(b1, b[0])) by {
            assert forall|i: int| 0 <= i < b1.len() implies b[0] < #[trigger] b1[i] by {
                assert(b[0] < b[i + 1]);
            }
        }
        assert forall|x: TabId| a.contains(x) <==> (x == a[0] || a1.contains(x)) by {
            if a.contains(x) && x != a[0] {
                let k = choose|k: int| 0 <= k < a.len() && a[k] == x;
                assert(a1[k - 1] == x);
            }
            if a1.contains(x) {
                let k = choose|k: int| 0 <= k < a1.len() && a1[k] == x;
                assert(a[k + 1] == x);
            }
            if x == a[0] {
                assert(a[0] == x);
            }
        }
        assert forall|x: TabId| b.contains(x) <==> (x == b[0] || b1.contains(x)) by {
            if b.contains(x) && x != b[0] {
                let k = choose|k: int| 0 <= k < b.len() && b[k] == x;
                assert(b1[k - 1] == x);
            }
            if b1.contains(x) {
                let k = choose|k: int| 0 <= k < b1.len() && b1[k] == x;
                assert(b[k + 1] == x);
            }
            if x == b[0] {
                assert(b[0] == x);
            }
        }
        lemma_merge_shape(a, b);
        if a[0] < b[0] {
            law_merge_classifies(a1, b);
            let t = merge_ids(a1, b);
            assert(all_above(b, a[0])) by {
                assert forall|i: int| 0 <= i < b.len() implies a[0] < #[trigger] b[i] by {
                    if i > 0 {
                        assert(b[0] < b[i]);
                    }
                }
            }
            lemma_merge_above(a1, b, a[0]);
            lemma_cons_step((a[0], Side::Left), t);
            assert forall|x: TabId| a.contains(x) || b.contains(x) implies exists|i: int|
                0 <= i < m.len() && (#[trigger] m[i]).0 == x by {
                if x == a[0] {
                    assert(m[0].0 == x);
                } else {
                    let i = choose|i: int| 0 <= i < t.len() && (#[trigger] t[i]).0 == x;
                    assert(m[i + 1].0 == x);
                }
            }
        } else if a[0] == b[0] {
            law_merge_classifies(a1, b1);
            let t = merge_ids(a1, b1);
            lemma_merge_above(a1, b1, a[0]);
            lemma_cons_step((a[0], Side::Both), t);
            assert forall|x: TabId| a.contains(x) || b.contains(x) implies exists|i: int|
                0 <= i < m.len() && (#[trigger] m[i]).0 == x by {
                if x == a[0] {
                    assert(m[0].0 == x);
                } else {
                    let i = choose|i: int| 0 <= i < t.len() && (#[trigger] t[i]).0 == x;
                    assert(m[i + 1].0 == x);
                }
            }
        } else {
            law_merge_classifies(a, b1);
            let t = merge_ids(a, b1);
            assert(all_above(a, b[0])) by {
                assert forall|i: int| 0 <= i < a.len() implies b[0] < #[trigger] a[i] by {
                    if i > 0 {
                        assert(a[0] < a[i]);
                    }
                }
            }
            lemma_merge_above(a, b1, b[0]);
            lemma_cons_step((b[0], Side::Right), t);
            assert forall|x: TabId| a.contains(x) || b.contains(x) implies exists|i: int|
                0 <= i < m.len() && (#[trigger] m[i]).0 == x by {
                if x == b[0] {
                    assert(m[0].0 == x);
                } else {
                    let i = choose|i: int| 0 <= i < t.len() && (#[trigger] t[i]).0 == x;
                    assert(m[i + 1].0 == x);
                }
            }
        }
    }
}

/// The ids of an interleaving come from the two lists.
proof fn lemma_merge_from(a: Seq<TabId>, b: Seq<TabId>)
    ensures
        forall|i: int|
            0 <= i < merge_ids(a, b).len() ==> a.contains((#[trigger] merge_ids(a, b)[i]).0) || b.contains(
                merge_ids(a, b)[i].0,
            ),
    decreases a.len() + b.len(),
{
    let m = merge_ids(a, b);
    if a.len() == 0 {
        assert forall|i: int| 0 <= i < m.len() implies a.contains((#[trigger] m[i]).0) || b.contains(m[i].0) by {
            assert(b[i] == m[i].0);
        }
    } else if b.len() == 0 {
        assert forall|i: int| 0 <= i < m.len() implies a.contains((#[trigger] m[i]).0) || b.contains(m[i].0) by {
            assert(a[i] == m[i].0);
        }
    } else if a[0] < b[0] {
        lemma_merge_from(a.drop_first(), b);
        assert forall|i: int| 0 <= i < m.len() implies a.contains((#[trigger] m[i]).0) || b.contains(m[i].0) by {
            if i == 0 {
                assert(a[0] == m[0].0);
            } else {
                let x = merge_ids(a.drop_first(), b)[i - 1].0;
                assert(m[i].0 == x);
                if a.drop_first().contains(x) {
                    let k = choose|k: int| 0 <= k < a.drop_first().len() && a.drop_first()[k] == x;
                    assert(a[k + 1] == x);
                }
            }
        }
    } else if a[0] == b[0] {
        lemma_merge_from(a.drop_first(), b.drop_first());
        assert forall|i: int| 0 <= i < m.len() implies a.contains((#[trigger] m[i]).0) || b.contains(m[i].0) by {
            if i == 0 {
                assert(a[0] == m[0].0);
            } else {
                let x = merge_ids(a.drop_first(), b.drop_first())[i - 1].0;
                assert(m[i].0 == x);
                if a.drop_first().contains(x) {
                    let k = choose|k: int| 0 <= k < a.drop_first().len() && a.drop_first()[k] == x;
                    assert(a[k + 1] == x);
                }
                if b.drop_first().contains(x) {
                    let k = choose|k: int| 0 <= k < b.drop_first().len() && b.drop_first()[k] == x;
                    assert(b[k + 1] == x);
                }
            }
        }
    } else {
        lemma_merge_from(a, b.drop_first());
        assert forall|i: int| 0 <= i < m.len() implies a.contains((#[trigger] m[i]).0) || b.contains(m[i].0) by {
            if i == 0 {
                assert(b[0] == m[0].0);
            } else {
                let x = merge_ids(a, b.drop_first())[i - 1].0;
                assert(m[i].0 == x);
                if b.drop_first().contains(x) {
                    let k = choose|k: int| 0 <= k < b.drop_first().len() && b.drop_first()[k] == x;
                    assert(b[k + 1] == x);
                }
            }
        }
    }
}

/// Lists above `x` interleave into ids above `x`.
proof fn lemma_merge_above(a: Seq<TabId>, b: Seq<TabId>, x: TabId)
    ensures
        (all_above(a, x) && all_above(b, x)) ==> forall|i: int|
            0 <= i < merge_ids(a, b).len() ==> x < (#[trigger] merge_ids(a, b)[i]).0,
{
    lemma_merge_from(a, b);
    if all_above(a, x) && all_above(b, x) {
        assert forall|i: int| 0 <= i < merge_ids(a, b).len() implies x < (#[trigger] merge_ids(a, b)[i]).0 by {
            let y = merge_ids(a, b)[i].0;
            if a.contains(y) {
                let k = choose|k: int| 0 <= k < a.len() && a[k] == y;
                assert(x < a[k]);
            } else {
                let k = choose|k: int| 0 <= k < b.len() && b[k] == y;
                assert(x < b[k]);
            }
        }
    }
}

/// The step of an interleaving of non-empty lists.
proof fn lemma_merge_shape(a: Seq<TabId>, b: Seq<TabId>)
    requires
        a.len() > 0,
        b.len() > 0,
    ensures
        a[0] < b[0] ==> merge_ids(a, b) == seq![(a[0], Side::Left)] + merge_ids(a.drop_first(), b),
        a[0] == b[0] ==> merge_ids(a, b) == seq![(a[0], Side::Both)] + merge_ids(a.drop_first(), b.drop_first()),
        a[0] > b[0] ==> merge_ids(a, b) == seq![(b[0], Side::Right)] + merge_ids(a, b.drop_first()),
{
}

} // verus!
