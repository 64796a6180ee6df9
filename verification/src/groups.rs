//! Tab-group extraction: one named, indexed group per window, split into the
//! open and the closed partition.

use vstd::prelude::*;
use vstd::string::StringSliceAdditionalSpecFns;

use crate::bytes_util::{copy_bytes, dec_digits, push_bytes, push_decimal};
use crate::session::{SessionTree, WindowV};

verus! {

/// One selectable group: a human-readable name and its position within its
/// partition. The index is the addressing key for selection; it is not a
/// global index across both partitions.
pub struct TabGroupInfo {
    pub name: Vec<u8>,
    pub index: u32,
}

/// Mathematical model of a `TabGroupInfo`.
pub ghost struct TabGroupInfoV {
    pub name: Seq<u8>,
    pub index: u32,
}

impl View for TabGroupInfo {
    type V = TabGroupInfoV;

    open spec fn view(&self) -> TabGroupInfoV {
        TabGroupInfoV { name: self.name@, index: self.index }
    }
}

/// All groups of a parsed session: the open windows and the closed windows,
/// each in document order.
pub struct AllTabGroups {
    pub open: Vec<TabGroupInfo>,
    pub closed: Vec<TabGroupInfo>,
}

/// Mathematical model of `AllTabGroups`.
pub ghost struct AllTabGroupsV {
    pub open: Seq<TabGroupInfoV>,
    pub closed: Seq<TabGroupInfoV>,
}

impl View for AllTabGroups {
    type V = AllTabGroupsV;

    open spec fn view(&self) -> AllTabGroupsV {
        AllTabGroupsV {
            open: self.open@.map_values(|g: TabGroupInfo| g@),
            closed: self.closed@.map_values(|g: TabGroupInfo| g@),
        }
    }
}

impl Default for AllTabGroups {
    /// No groups at all, as before any file is loaded.
    fn default() -> (r: Self)
        ensures
            r@.open.len() == 0,
            r@.closed.len() == 0,
    {
        AllTabGroups { open: Vec::new(), closed: Vec::new() }
    }
}

/// The open windows of `ws`, in order.
pub open spec fn open_windows(ws: Seq<WindowV>) -> Seq<WindowV>
    decreases ws.len(),
{
    if ws.len() == 0 {
        Seq::<WindowV>::empty()
    } else if ws.last().open {
        open_windows(ws.drop_last()).push(ws.last())
    } else {
        open_windows(ws.drop_last())
    }
}

/// The closed windows of `ws`, in order.
pub open spec fn closed_windows(ws: Seq<WindowV>) -> Seq<WindowV>
    decreases ws.len(),
{
    if ws.len() == 0 {
        Seq::<WindowV>::empty()
    } else if !ws.last().open {
        closed_windows(ws.drop_last()).push(ws.last())
    } else {
        closed_windows(ws.drop_last())
    }
}

/// The deterministic name of the group at position `i` of its partition: the
/// window title, or `Window N` with the 1-based position when the title is
/// empty.
pub open spec fn group_name(w: WindowV, i: int) -> Seq<u8> {
    if w.title.len() > 0 {
        w.title
    } else {
        "Window ".spec_bytes() + dec_digits((i + 1) as nat)
    }
}

/// The groups derived from one partition's windows: position `i` gets index
/// `i` and its window's name.
pub open spec fn groups_of(ws: Seq<WindowV>) -> Seq<TabGroupInfoV> {
    Seq::new(ws.len(), |i: int| TabGroupInfoV { name: group_name(ws[i], i), index: i as u32 })
}

/// The name of the window at position `i` of its partition.
pub fn make_group_name(title: &Vec<u8>, i: u32) -> (r: Vec<u8>)
    requires
        i < 0xFFFFFFFFu32,
    ensures
        r@ == group_name(WindowV { title: title@, open: arbitrary(), tabs: arbitrary() }, i as int),
        r@ == (if title@.len() > 0 {
            title@
        } else {
            "Window ".spec_bytes() + dec_digits((i + 1) as nat)
        }),
{
    if title.len() > 0 {
        copy_bytes(title)
    } else {
        let mut nm: Vec<u8> = Vec::new();
        push_bytes(&mut nm, "Window ".as_bytes());
        push_decimal(&mut nm, (i + 1) as u64);
        nm
    }
}

/// Walks the session tree and produces one group per window in each
/// partition, indexed by position within that partition, with the window
/// title as name and `Window N` as deterministic fallback.
pub fn extract(tree: &SessionTree) -> (r: AllTabGroups)
    requires
        tree@.len() < 0xFFFFFFFFu32,
    ensures
        r@.open == groups_of(open_windows(tree@)),
        r@.closed == groups_of(closed_windows(tree@)),
{
    let mut open_groups: Vec<TabGroupInfo> = Vec::new();
    let mut closed_groups: Vec<TabGroupInfo> = Vec::new();
    let mut j: usize = 0;
    proof {
        assert(tree@.subrange(0, 0) =~= Seq::<WindowV>::empty());
        assert(open_groups@.map_values(|g: TabGroupInfo| g@) =~= groups_of(
            open_windows(tree@.subrange(0, 0)),
        ));
        assert(closed_groups@.map_values(|g: TabGroupInfo| g@) =~= groups_of(
            closed_windows(tree@.subrange(0, 0)),
        ));
    }
    while j < tree.windows.len()
        invariant
            0 <= j <= tree@.len(),
            tree@.len() < 0xFFFFFFFFu32,
            tree@.len() == tree.windows@.len(),
            open_groups@.len() == open_windows(tree@.subrange(0, j as int)).len(),
            closed_groups@.len() == closed_windows(tree@.subrange(0, j as int)).len(),
            open_groups@.map_values(|g: TabGroupInfo| g@) == groups_of(
                open_windows(tree@.subrange(0, j as int)),
            ),
            closed_groups@.map_values(|g: TabGroupInfo| g@) == groups_of(
                closed_windows(tree@.subrange(0, j as int)),
            ),
        decreases tree@.len() - j,
    {
        let w = &tree.windows[j];
        proof {
            assert(tree@.subrange(0, j + 1).drop_last() =~= tree@.subrange(0, j as int));
            assert(tree@.subrange(0, j + 1).last() == tree@[j as int]);
            assert(open_windows(tree@.subrange(0, j as int)).len() + closed_windows(
                tree@.subrange(0, j as int),
            ).len() == j as int) by {
                lemma_partition_sizes(tree@.subrange(0, j as int));
            }
        }
        proof {
            assert(tree@[j as int] == tree.windows@[j as int]@);
        }
        if w.open {
            let idx = open_groups.len() as u32;
            let name = make_group_name(&w.title, idx);
            let ghost before = open_groups@.map_values(|g: TabGroupInfo| g@);
            let ghost ow = open_windows(tree@.subrange(0, j as int));
            open_groups.push(TabGroupInfo { name, index: idx });
            proof {
                assert(open_windows(tree@.subrange(0, j + 1)) == ow.push(tree@[j as int]));
                assert(closed_windows(tree@.subrange(0, j + 1)) == closed_windows(
                    tree@.subrange(0, j as int),
                ));
                assert(name@ == group_name(tree@[j as int], idx as int));
                assert(groups_of(ow.push(tree@[j as int])) =~= before.push(
                    TabGroupInfoV { name: name@, index: idx },
                ));
                assert(open_groups@.map_values(|g: TabGroupInfo| g@) =~= before.push(
                    TabGroupInfoV { name: name@, index: idx },
                ));
            }
        } else {
            let idx = closed_groups.len() as u32;
            let name = make_group_name(&w.title, idx);
            let ghost before = closed_groups@.map_values(|g: TabGroupInfo| g@);
            let ghost cw = closed_windows(tree@.subrange(0, j as int));
            closed_groups.push(TabGroupInfo { name, index: idx });
            proof {
                assert(closed_windows(tree@.subrange(0, j + 1)) == cw.push(tree@[j as int]));
                assert(open_windows(tree@.subrange(0, j + 1)) == open_windows(
                    tree@.subrange(0, j as int),
                ));
                assert(name@ == group_name(tree@[j as int], idx as int));
                assert(groups_of(cw.push(tree@[j as int])) =~= before.push(
                    TabGroupInfoV { name: name@, index: idx },
                ));
                assert(closed_groups@.map_values(|g: TabGroupInfo| g@) =~= before.push(
                    TabGroupInfoV { name: name@, index: idx },
                ));
            }
        }
        j = j + 1;
    }
    proof {
        assert(tree@.subrange(0, tree@.len() as int) =~= tree@);
    }
    AllTabGroups { open: open_groups, closed: closed_groups }
}

/// Every window lands in exactly one partition.
pub proof fn lemma_partition_sizes(ws: Seq<WindowV>)
    ensures
        open_windows(ws).len() + closed_windows(ws).len() == ws.len(),
    decreases ws.len(),
{
    if ws.len() > 0 {
        lemma_partition_sizes(ws.drop_last());
    }
}

/// Each partition gets one group per window, indexed by its position there,
/// under its window's name — so the indexes of a partition with `n` groups
/// are exactly `0` to `n - 1`, stable across repeated extraction.
pub proof fn lemma_groups_indexed_by_position(ws: Seq<WindowV>)
    ensures
        groups_of(ws).len() == ws.len(),
        forall|i: int|
            0 <= i < ws.len() ==> groups_of(ws)[i].index == i as u32 && groups_of(ws)[i].name
                == group_name(ws[i], i),
{
}

} // verus!
