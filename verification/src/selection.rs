//! The selection model: which groups, by partition and index, the next
//! export includes.
//!
//! `None` for a partition means every group of that partition is selected;
//! `Some` holds the explicitly selected indexes. Deselecting the last
//! selected group snaps the open partition back to select-all and the closed
//! partition to an empty explicit set, so an export never silently selects
//! nothing.

use vstd::prelude::*;

use crate::groups::AllTabGroups;

verus! {

/// The selection: one optional index set per partition.
pub struct GenerateOptions {
    pub open_group_indexes: Option<Vec<u32>>,
    pub closed_group_indexes: Option<Vec<u32>>,
}

/// Mathematical model of `GenerateOptions`.
pub ghost struct GenerateOptionsV {
    pub open_sel: Option<Seq<u32>>,
    pub closed_sel: Option<Seq<u32>>,
}

/// View of an optional index list.
pub open spec fn opt_idx_view(o: Option<Vec<u32>>) -> Option<Seq<u32>> {
    match o {
        Some(v) => Some(v@),
        None => None,
    }
}

impl View for GenerateOptions {
    type V = GenerateOptionsV;

    open spec fn view(&self) -> GenerateOptionsV {
        GenerateOptionsV {
            open_sel: opt_idx_view(self.open_group_indexes),
            closed_sel: opt_idx_view(self.closed_group_indexes),
        }
    }
}

/// No index occurs twice.
pub open spec fn distinct(s: Seq<u32>) -> bool {
    forall|i: int, j: int| 0 <= i < j < s.len() ==> s[i] != s[j]
}

impl GenerateOptionsV {
    /// Well-formed: an explicit index set holds no duplicates.
    pub open spec fn wf(self) -> bool {
        &&& match self.open_sel {
            Some(s) => distinct(s),
            None => true,
        }
        &&& match self.closed_sel {
            Some(s) => distinct(s),
            None => true,
        }
    }

    /// The selection of one partition.
    pub open spec fn sel_of(self, open: bool) -> Option<Seq<u32>> {
        if open {
            self.open_sel
        } else {
            self.closed_sel
        }
    }
}

impl Default for GenerateOptions {
    /// The initial selection: all open windows, no closed windows explicit.
    fn default() -> (r: Self)
        ensures
            r@.open_sel is None,
            r@.closed_sel is None,
    {
        GenerateOptions { open_group_indexes: None, closed_group_indexes: None }
    }
}

/// How many indexes in `s` address a group of a partition with `n` groups.
pub open spec fn count_below(s: Seq<u32>, n: int) -> int
    decreases s.len(),
{
    if s.len() == 0 {
        0
    } else {
        count_below(s.drop_last(), n) + if s.last() < n {
            1int
        } else {
            0int
        }
    }
}

/// How many groups of a partition with `n` groups a selection includes.
pub open spec fn sel_count(sel: Option<Seq<u32>>, n: int) -> int {
    match sel {
        None => n,
        Some(s) => count_below(s, n),
    }
}

/// How many groups `o` selects out of `g`.
pub open spec fn spec_selected_groups(o: GenerateOptionsV, g: crate::groups::AllTabGroupsV) -> int {
    sel_count(o.open_sel, g.open.len() as int) + sel_count(o.closed_sel, g.closed.len() as int)
}

/// An upper bound on what the two partitions can count, used only to rule
/// out machine overflow of the sum.
pub open spec fn sel_size_bound(o: GenerateOptionsV, g: crate::groups::AllTabGroupsV) -> int {
    (match o.open_sel {
        None => g.open.len() as int,
        Some(s) => s.len() as int,
    }) + (match o.closed_sel {
        None => g.closed.len() as int,
        Some(s) => s.len() as int,
    })
}

/// Counts the indexes in `v` below `n`.
fn count_indexes_below(v: &Vec<u32>, n: usize) -> (r: usize)
    ensures
        r == count_below(v@, n as int),
        r <= v@.len(),
{
    let mut r: usize = 0;
    let mut i: usize = 0;
    proof {
        assert(v@.subrange(0, 0) =~= Seq::<u32>::empty());
    }
    while i < v.len()
        invariant
            0 <= i <= v@.len(),
            r <= i,
            r == count_below(v@.subrange(0, i as int), n as int),
        decreases v@.len() - i,
    {
        proof {
            assert(v@.subrange(0, i + 1).drop_last() =~= v@.subrange(0, i as int));
        }
        if (v[i] as usize) < n {
            r = r + 1;
        }
        i = i + 1;
    }
    proof {
        assert(v@.subrange(0, v@.len() as int) =~= v@);
    }
    r
}

/// Whether `v` holds `x`.
pub fn contains_u32(v: &Vec<u32>, x: u32) -> (r: bool)
    ensures
        r == v@.contains(x),
{
    let mut i: usize = 0;
    while i < v.len()
        invariant
            0 <= i <= v@.len(),
            forall|j: int| 0 <= j < i ==> v@[j] != x,
        decreases v@.len() - i,
    {
        if v[i] == x {
            return true;
        }
        i = i + 1;
    }
    false
}

/// `s` with every occurrence of `x` removed, order kept.
pub open spec fn seq_remove(s: Seq<u32>, x: u32) -> Seq<u32>
    decreases s.len(),
{
    if s.len() == 0 {
        Seq::<u32>::empty()
    } else if s.last() == x {
        seq_remove(s.drop_last(), x)
    } else {
        seq_remove(s.drop_last(), x).push(s.last())
    }
}

/// Builds `seq_remove(v, x)`.
fn remove_u32(v: &Vec<u32>, x: u32) -> (r: Vec<u32>)
    ensures
        r@ == seq_remove(v@, x),
{
    let mut out: Vec<u32> = Vec::new();
    let mut i: usize = 0;
    proof {
        assert(v@.subrange(0, 0) =~= Seq::<u32>::empty());
        assert(out@ =~= seq_remove(v@.subrange(0, 0), x));
    }
    while i < v.len()
        invariant
            0 <= i <= v@.len(),
            out@ == seq_remove(v@.subrange(0, i as int), x),
        decreases v@.len() - i,
    {
        proof {
            assert(v@.subrange(0, i + 1).drop_last() =~= v@.subrange(0, i as int));
        }
        if v[i] != x {
            out.push(v[i]);
        }
        i = i + 1;
    }
    proof {
        assert(v@.subrange(0, v@.len() as int) =~= v@);
    }
    out
}

/// The two partitions of a selection put back together: `target` is the one
/// named by `open`, `other` the remaining one.
pub open spec fn assemble(open: bool, target: Option<Seq<u32>>, other: Option<Seq<u32>>)
    -> GenerateOptionsV {
    if open {
        GenerateOptionsV { open_sel: target, closed_sel: other }
    } else {
        GenerateOptionsV { open_sel: other, closed_sel: target }
    }
}

/// What a select or deselect event does to a selection, and whether it
/// changed anything.
///
/// Select materializes both partitions (so selecting in one partition stops
/// keeping the other at select-all) and inserts the index unless present.
/// Deselect removes the index if an explicit set holds it; when the removal
/// leaves nothing selected at all, the open partition snaps back to
/// select-all and the closed partition to an explicit empty set.
pub open spec fn spec_apply_change(
    o: GenerateOptionsV,
    index: u32,
    open: bool,
    select: bool,
    g: crate::groups::AllTabGroupsV,
) -> (GenerateOptionsV, bool) {
    if select {
        let t0: Seq<u32> = match o.sel_of(open) {
            Some(s) => s,
            None => Seq::<u32>::empty(),
        };
        let other0: Option<Seq<u32>> = match o.sel_of(!open) {
            Some(s) => Some(s),
            None => Some(Seq::<u32>::empty()),
        };
        if t0.contains(index) {
            (assemble(open, Some(t0), other0), false)
        } else {
            (assemble(open, Some(t0.push(index)), other0), true)
        }
    } else {
        match o.sel_of(open) {
            None => (o, false),
            Some(ts) => if !ts.contains(index) {
                (o, false)
            } else {
                let o2 = assemble(open, Some(seq_remove(ts, index)), o.sel_of(!open));
                if spec_selected_groups(o2, g) == 0 {
                    (
                        GenerateOptionsV {
                            open_sel: None,
                            closed_sel: match o2.closed_sel {
                                None => Some(Seq::<u32>::empty()),
                                Some(c) => Some(c),
                            },
                        },
                        true,
                    )
                } else {
                    (o2, true)
                }
            },
        }
    }
}

proof fn lemma_seq_remove_len(s: Seq<u32>, x: u32)
    ensures
        seq_remove(s, x).len() <= s.len(),
    decreases s.len(),
{
    if s.len() > 0 {
        lemma_seq_remove_len(s.drop_last(), x);
    }
}

proof fn lemma_seq_remove_distinct(s: Seq<u32>, x: u32)
    requires
        distinct(s),
    ensures
        distinct(seq_remove(s, x)),
        forall|y: u32| seq_remove(s, x).contains(y) ==> s.contains(y),
    decreases s.len(),
{
    if s.len() > 0 {
        assert(distinct(s.drop_last()));
        lemma_seq_remove_distinct(s.drop_last(), x);
        assert forall|y: u32| seq_remove(s, x).contains(y) implies s.contains(y) by {
            let r = seq_remove(s, x);
            let i = choose|i: int| 0 <= i < r.len() && r[i] == y;
            if s.last() != x && i == r.len() - 1 {
                assert(s[s.len() - 1] == y);
            } else {
                assert(seq_remove(s.drop_last(), x).contains(y));
                let j = choose|j: int|
                    0 <= j < seq_remove(s.drop_last(), x).len() && seq_remove(s.drop_last(), x)[j]
                        == y;
                assert(s.drop_last().contains(y));
                let k = choose|k: int| 0 <= k < s.drop_last().len() && s.drop_last()[k] == y;
                assert(s[k] == y);
            }
        }
        if s.last() != x {
            let r0 = seq_remove(s.drop_last(), x);
            assert forall|i: int, j: int|
                0 <= i < j < r0.push(s.last()).len() implies r0.push(s.last())[i] != r0.push(
                s.last(),
            )[j] by {
                if j == r0.len() {
                    assert(r0.contains(r0[i]));
                    assert(s.drop_last().contains(r0[i]));
                    let k = choose|k: int|
                        0 <= k < s.drop_last().len() && s.drop_last()[k] == r0[i];
                    assert(s[k] == r0[i]);
                    assert(s[k] != s.last());
                }
            }
        }
    }
}

/// Removing a value that does not occur changes nothing.
proof fn lemma_seq_remove_absent(s: Seq<u32>, x: u32)
    requires
        !s.contains(x),
    ensures
        seq_remove(s, x) == s,
    decreases s.len(),
{
    if s.len() > 0 {
        assert forall|i: int| 0 <= i < s.drop_last().len() implies s.drop_last()[i] != x by {
            assert(s[i] == s.drop_last()[i]);
        }
        assert(!s.drop_last().contains(x));
        lemma_seq_remove_absent(s.drop_last(), x);
        assert(s.last() != x);
        assert(seq_remove(s, x) =~= s);
    }
}

impl GenerateOptions {
    /// How many groups are currently included, resolving each optional index
    /// set against its partition's length: `None` counts the whole
    /// partition, an explicit set counts its indexes that address a group.
    pub fn selected_groups(&self, groups: &AllTabGroups) -> (r: usize)
        requires
            sel_size_bound(self@, groups@) <= usize::MAX,
        ensures
            r == spec_selected_groups(self@, groups@),
    {
        let open_n = match &self.open_group_indexes {
            None => groups.open.len(),
            Some(v) => count_indexes_below(v, groups.open.len()),
        };
        let closed_n = match &self.closed_group_indexes {
            None => groups.closed.len(),
            Some(v) => count_indexes_below(v, groups.closed.len()),
        };
        open_n + closed_n
    }

    /// Applies one select or deselect event for the group `index` of the
    /// partition named by `open`, exactly as `spec_apply_change` says, and
    /// reports whether the selection state changed (so the caller knows to
    /// regenerate the preview).
    pub fn change_selected_tab_group(
        &mut self,
        groups: &AllTabGroups,
        index: u32,
        open: bool,
        select: bool,
    ) -> (changed: bool)
        requires
            old(self)@.wf(),
            sel_size_bound(old(self)@, groups@) <= usize::MAX,
        ensures
            final(self)@ == spec_apply_change(old(self)@, index, open, select, groups@).0,
            changed == spec_apply_change(old(self)@, index, open, select, groups@).1,
            final(self)@.wf(),
    {
        if select {
            let mut tv: Vec<u32> = if open {
                match self.open_group_indexes.take() {
                    Some(v) => v,
                    None => Vec::new(),
                }
            } else {
                match self.closed_group_indexes.take() {
                    Some(v) => v,
                    None => Vec::new(),
                }
            };
            if open {
                if self.closed_group_indexes.is_none() {
                    self.closed_group_indexes = Some(Vec::new());
                }
            } else {
                if self.open_group_indexes.is_none() {
                    self.open_group_indexes = Some(Vec::new());
                }
            }
            let changed: bool;
            if contains_u32(&tv, index) {
                changed = false;
            } else {
                tv.push(index);
                changed = true;
            }
            if open {
                self.open_group_indexes = Some(tv);
            } else {
                self.closed_group_indexes = Some(tv);
            }
            changed
        } else {
            let t_opt: Option<Vec<u32>> = if open {
                self.open_group_indexes.take()
            } else {
                self.closed_group_indexes.take()
            };
            match t_opt {
                None => false,
                Some(ts) => {
                    if !contains_u32(&ts, index) {
                        if open {
                            self.open_group_indexes = Some(ts);
                        } else {
                            self.closed_group_indexes = Some(ts);
                        }
                        false
                    } else {
                        proof {
                            lemma_seq_remove_len(ts@, index);
                            lemma_seq_remove_distinct(ts@, index);
                        }
                        let removed = remove_u32(&ts, index);
                        if open {
                            self.open_group_indexes = Some(removed);
                        } else {
                            self.closed_group_indexes = Some(removed);
                        }
                        if self.selected_groups(groups) == 0 {
                            self.open_group_indexes = None;
                            if self.closed_group_indexes.is_none() {
                                self.closed_group_indexes = Some(Vec::new());
                            }
                        }
                        true
                    }
                },
            }
        }
    }
}

/// Selecting a group and deselecting it again restores the selection, and
/// with it the selected-group count, exactly — provided both partitions are
/// explicit, the group was not selected before, and something was selected
/// at all (else the deselection's snap-back to all-open applies).
pub proof fn lemma_select_deselect_round_trip(
    o: GenerateOptionsV,
    g: crate::groups::AllTabGroupsV,
    index: u32,
    open: bool,
)
    requires
        o.wf(),
        o.open_sel is Some,
        o.closed_sel is Some,
        !o.sel_of(open).unwrap().contains(index),
        spec_selected_groups(o, g) != 0,
    ensures
        ({
            let (o1, c1) = spec_apply_change(o, index, open, true, g);
            let (o2, c2) = spec_apply_change(o1, index, open, false, g);
            &&& c1
            &&& c2
            &&& o2 == o
            &&& spec_selected_groups(o2, g) == spec_selected_groups(o, g)
        }),
{
    let t0 = o.sel_of(open).unwrap();
    let (o1, c1) = spec_apply_change(o, index, open, true, g);
    assert(o1 == assemble(open, Some(t0.push(index)), o.sel_of(!open)));
    let t1 = t0.push(index);
    assert(t1[t1.len() - 1] == index);
    assert(t1.contains(index));
    assert(t1.drop_last() =~= t0);
    lemma_seq_remove_absent(t0, index);
    assert(seq_remove(t1, index) == t0);
    let o2r = assemble(open, Some(seq_remove(t1, index)), o1.sel_of(!open));
    assert(o2r == o);
    assert(spec_selected_groups(o2r, g) != 0);
    let (o2, c2) = spec_apply_change(o1, index, open, false, g);
    assert(o2 == o2r);
}

} // verus!
