//! The ordered list of open shells that every client is shown.
//!
//! The list gives the presentation order and the geometry of the open shells.
//! Three edits are made to it: a new shell goes to the end, a closed shell
//! leaves, and a shell that is moved or resized comes to the end again, which
//! is how a window is brought to the front.

use crate::protocol::WsWinsize;
use vstd::prelude::*;

verus! {

/// A shell's id and where its window stands.
pub type Placement = (u32, WsWinsize);

/// Whether the list has an entry for `id`.
pub open spec fn shows(order: Seq<Placement>, id: u32) -> bool {
    exists|i: int| 0 <= i < order.len() && (#[trigger] order[i]).0 == id
}

/// Whether `i` is the place of the first entry for `id`.
pub open spec fn is_first_of(order: Seq<Placement>, id: u32, i: int) -> bool {
    &&& 0 <= i < order.len()
    &&& order[i].0 == id
    &&& forall|j: int| 0 <= j < i ==> (#[trigger] order[j]).0 != id
}

/// The place of the first entry for `id`, where the list has one.
pub open spec fn first_of(order: Seq<Placement>, id: u32) -> int {
    choose|i: int| is_first_of(order, id, i)
}

/// No id has two entries.
pub open spec fn distinct(order: Seq<Placement>) -> bool {
    forall|i: int, j: int|
        0 <= i < j < order.len() ==> (#[trigger] order[i]).0 != (#[trigger] order[j]).0
}

/// The test that an entry is for another shell than `id`.
pub open spec fn is_other(id: u32) -> spec_fn(Placement) -> bool {
    |p: Placement| p.0 != id
}

/// The list without the entries for `id`.
pub open spec fn without(order: Seq<Placement>, id: u32) -> Seq<Placement> {
    order.filter(is_other(id))
}

/// The list with the first entry for `id` taken out and put at the end,
/// with a new size if one is given and the old one if not. A list without
/// such an entry stays as it is.
pub open spec fn focused(order: Seq<Placement>, id: u32, size: Option<WsWinsize>) -> Seq<
    Placement,
> {
    if shows(order, id) {
        let i = first_of(order, id);
        order.remove(i).push(
            (
                id,
                match size {
                    Some(size) => size,
                    None => order[i].1,
                },
            ),
        )
    } else {
        order
    }
}

/// An edit to the list of open shells.
#[derive(Debug, Clone, Copy, PartialEq, Eq, Structural)]
pub enum LayoutEdit {
    /// A shell was added: it goes to the end, with the initial geometry.
    Open(u32),
    /// A shell was closed: it leaves the list.
    Close(u32),
    /// A shell was moved or resized: it comes to the end.
    Focus(u32, Option<WsWinsize>),
}

impl LayoutEdit {
    /// The list after the edit.
    pub open spec fn apply(self, order: Seq<Placement>) -> Seq<Placement> {
        match self {
            LayoutEdit::Open(id) => order.push((id, WsWinsize::initial())),
            LayoutEdit::Close(id) => without(order, id),
            LayoutEdit::Focus(id, size) => focused(order, id, size),
        }
    }
}

/// Any place that holds `id` and has no entry for `id` before it is the first.
pub proof fn lemma_first_of(order: Seq<Placement>, id: u32, i: int)
    requires
        is_first_of(order, id, i),
    ensures
        shows(order, id),
        first_of(order, id) == i,
{
    let k = first_of(order, id);
    assert(is_first_of(order, id, k));
    if k < i {
        assert(order[k].0 != id);
    } else if i < k {
        assert(order[i].0 != id);
    }
}

/// After a shell is added the list shows it and what it showed before. If
/// the shell was not shown before, no id has two entries after.
pub proof fn lemma_open(order: Seq<Placement>, id: u32)
    ensures
        forall|x: u32| #[trigger]
            shows(order.push((id, WsWinsize::initial())), x) <==> shows(order, x) || x == id,
        distinct(order) && !shows(order, id) ==> distinct(order.push((id, WsWinsize::initial()))),
{
    let entry = (id, WsWinsize::initial());
    let after = order.push(entry);
    assert forall|x: u32| #[trigger] shows(after, x) <==> shows(order, x) || x == id by {
        if shows(order, x) {
            let i = choose|i: int| 0 <= i < order.len() && (#[trigger] order[i]).0 == x;
            assert(after[i].0 == x);
        }
        if x == id {
            assert(after[order.len() as int].0 == x);
        }
        if shows(after, x) && x != id {
            let i = choose|i: int| 0 <= i < after.len() && (#[trigger] after[i]).0 == x;
            assert(order[i].0 == x);
        }
    }
    if distinct(order) && !shows(order, id) {
        assert forall|i: int, j: int| 0 <= i < j < after.len() implies (#[trigger] after[i]).0 != (
        #[trigger] after[j]).0 by {
            if j == order.len() {
                assert(order[i].0 != id);
            } else {
                assert(order[i].0 != order[j].0);
            }
        }
    }
}

/// After a shell is closed the list shows what it showed before but that
/// shell, and still no id twice.
pub proof fn lemma_close(order: Seq<Placement>, id: u32)
    ensures
        forall|x: u32| #[trigger] shows(without(order, id), x) <==> shows(order, x) && x != id,
        distinct(order) ==> distinct(without(order, id)),
    decreases order.len(),
{
    reveal(Seq::filter);
    let after = without(order, id);
    if order.len() == 0 {
        assert forall|x: u32| #[trigger] shows(after, x) <==> shows(order, x) && x != id by {}
    } else {
        let rest = order.drop_last();
        let last = order.last();
        let kept = without(rest, id);
        lemma_close(rest, id);
        assert forall|x: u32| #[trigger] shows(after, x) <==> shows(order, x) && x != id by {
            if shows(after, x) {
                let i = choose|i: int| 0 <= i < after.len() && (#[trigger] after[i]).0 == x;
                if i < kept.len() {
                    assert(kept[i].0 == x);
                    assert(shows(kept, x));
                    let k = choose|k: int| 0 <= k < rest.len() && (#[trigger] rest[k]).0 == x;
                    assert(order[k].0 == x);
                } else {
                    assert(order[order.len() - 1].0 == x);
                }
            }
            if shows(order, x) && x != id {
                let i = choose|i: int| 0 <= i < order.len() && (#[trigger] order[i]).0 == x;
                if i < rest.len() {
                    assert(rest[i].0 == x);
                    assert(shows(kept, x));
                    let k = choose|k: int| 0 <= k < kept.len() && (#[trigger] kept[k]).0 == x;
                    assert(after[k].0 == x);
                } else {
                    assert(after[after.len() - 1].0 == x);
                }
            }
        }
        if distinct(order) {
            assert forall|i: int, j: int| 0 <= i < j < rest.len() implies (#[trigger] rest[i]).0 != (
            #[trigger] rest[j]).0 by {
                assert(order[i].0 != order[j].0);
            }
            assert forall|i: int, j: int| 0 <= i < j < after.len() implies (
            #[trigger] after[i]).0 != (#[trigger] after[j]).0 by {
                if j < kept.len() {
                    assert(kept[i].0 != kept[j].0);
                } else {
                    assert(kept[i].0 == after[i].0);
                    assert(shows(kept, after[i].0));
                    assert(shows(rest, after[i].0));
                    let k = choose|k: int|
                        0 <= k < rest.len() && (#[trigger] rest[k]).0 == after[i].0;
                    assert(order[k].0 != order[order.len() - 1].0);
                }
            }
        }
    }
}

/// Taking an entry out of a list moves the later entries one place down.
proof fn lemma_remove_index(order: Seq<Placement>, i: int, k: int)
    requires
        0 <= i < order.len(),
        0 <= k < order.len() - 1,
    ensures
        order.remove(i).len() == order.len() - 1,
        order.remove(i)[k] == if k < i {
            order[k]
        } else {
            order[k + 1]
        },
{
}

/// After a shell is moved the list shows what it showed before, and still
/// no id twice.
pub proof fn lemma_focus(order: Seq<Placement>, id: u32, size: Option<WsWinsize>)
    ensures
        forall|x: u32| #[trigger] shows(focused(order, id, size), x) <==> shows(order, x),
        distinct(order) ==> distinct(focused(order, id, size)),
{
    let after = focused(order, id, size);
    if shows(order, id) {
        let w = choose|w: int| 0 <= w < order.len() && (#[trigger] order[w]).0 == id;
        lemma_has_first(order, id, w);
        let i = first_of(order, id);
        assert(is_first_of(order, id, i));
        let cut = order.remove(i);
        let n = order.len() - 1;
        assert(after.len() == order.len());
        assert(after[n].0 == id);
        assert forall|k: int| 0 <= k < n implies #[trigger] after[k] == if k < i {
            order[k]
        } else {
            order[k + 1]
        } by {
            lemma_remove_index(order, i, k);
        }
        assert forall|x: u32| #[trigger] shows(after, x) <==> shows(order, x) by {
            if shows(after, x) {
                let k = choose|k: int| 0 <= k < after.len() && (#[trigger] after[k]).0 == x;
                if k == n {
                    assert(order[i].0 == x);
                } else if k < i {
                    assert(order[k].0 == x);
                } else {
                    assert(order[k + 1].0 == x);
                }
            }
            if shows(order, x) {
                let k = choose|k: int| 0 <= k < order.len() && (#[trigger] order[k]).0 == x;
                if k == i {
                    assert(after[n].0 == x);
                } else if k < i {
                    assert(after[k].0 == x);
                } else {
                    assert(after[k - 1].0 == x);
                }
            }
        }
        if distinct(order) {
            assert forall|a: int, b: int| 0 <= a < b < after.len() implies (
            #[trigger] after[a]).0 != (#[trigger] after[b]).0 by {
                let from_a = if a < i {
                    a
                } else {
                    a + 1
                };
                if b == n {
                    assert(order[from_a].0 == after[a].0);
                    if from_a < i {
                        assert(order[from_a].0 != order[i].0);
                    } else {
                        assert(order[i].0 != order[from_a].0);
                    }
                } else {
                    let from_b = if b < i {
                        b
                    } else {
                        b + 1
                    };
                    assert(order[from_a].0 != order[from_b].0);
                }
            }
        }
    }
}

/// A list that holds `id` somewhere holds it somewhere first.
pub proof fn lemma_has_first(order: Seq<Placement>, id: u32, w: int)
    requires
        0 <= w < order.len(),
        order[w].0 == id,
    ensures
        is_first_of(order, id, first_of(order, id)),
        first_of(order, id) <= w,
    decreases w,
{
    if exists|j: int| 0 <= j < w && (#[trigger] order[j]).0 == id {
        let j = choose|j: int| 0 <= j < w && (#[trigger] order[j]).0 == id;
        lemma_has_first(order, id, j);
    } else {
        assert(is_first_of(order, id, w));
        lemma_first_of(order, id, w);
    }
}

/// Finds the first entry for `id`.
pub fn position(order: &Vec<Placement>, id: u32) -> (place: Option<usize>)
    ensures
        match place {
            Some(i) => is_first_of(order@, id, i as int),
            None => !shows(order@, id),
        },
{
    let mut i: usize = 0;
    while i < order.len()
        invariant
            i <= order.len(),
            forall|j: int| 0 <= j < i ==> (#[trigger] order@[j]).0 != id,
        decreases order.len() - i,
    {
        if order[i].0 == id {
            return Some(i);
        }
        i = i + 1;
    }
    None
}

/// Takes every entry for `id` out of the list.
pub fn remove_entries(order: &mut Vec<Placement>, id: u32)
    ensures
        final(order)@ == without(old(order)@, id),
{
    let ghost keep = is_other(id);
    let mut kept: Vec<Placement> = Vec::new();
    let mut i: usize = 0;
    proof {
        reveal(Seq::filter);
        assert(order@.subrange(0, 0) =~= Seq::empty());
    }
    while i < order.len()
        invariant
            i <= order.len(),
            keep == is_other(id),
            kept@ == order@.subrange(0, i as int).filter(keep),
        decreases order.len() - i,
    {
        let entry = order[i];
        proof {
            order@.subrange(0, i as int).lemma_filter_push(entry, keep);
            assert(order@.subrange(0, i as int).push(entry) =~= order@.subrange(0, i + 1));
        }
        if entry.0 != id {
            kept.push(entry);
        }
        i = i + 1;
    }
    assert(order@.subrange(0, i as int) =~= order@);
    *order = kept;
}

/// Brings the first entry for `id` to the end of the list, with a new size
/// if one is given.
pub fn focus_entry(order: &mut Vec<Placement>, id: u32, size: Option<WsWinsize>)
    ensures
        final(order)@ == focused(old(order)@, id, size),
{
    match position(order, id) {
        Some(i) => {
            proof {
                lemma_first_of(order@, id, i as int);
            }
            let (_, previous) = order.remove(i);
            let size = match size {
                Some(size) => size,
                None => previous,
            };
            order.push((id, size));
        },
        None => {},
    }
}

/// Makes one edit to the list.
pub fn apply_edit(order: &mut Vec<Placement>, edit: LayoutEdit)
    ensures
        final(order)@ == edit.apply(old(order)@),
{
    match edit {
        LayoutEdit::Open(id) => {
            order.push((id, WsWinsize::default()));
        },
        LayoutEdit::Close(id) => {
            remove_entries(order, id);
        },
        LayoutEdit::Focus(id, size) => {
            focus_entry(order, id, size);
        },
    }
}

} // verus!
