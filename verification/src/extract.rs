//! Safe extraction planning and tree relocation.
//!
//! Extraction is planned, not performed: from a decoded entry list the
//! planner produces the writes that a driver may then carry out under the
//! destination root.  An entry whose declared path cannot be resolved to
//! a safe relative path contributes no write and aborts nothing; every
//! resolvable entry is planned with its exact bytes.  Relocation moves
//! the planned tree from under the archive's top-level directory to the
//! canonical destination and drops everything outside that directory.

use vstd::prelude::*;

use crate::archive::ArchiveEntry;
use crate::archive::entries_view;
use crate::bytestr::bytes_eq;
use crate::bytestr::copy_range;
use crate::error::ScaffoldError;
use crate::paths::entry_is_dir;
use crate::paths::norm_entry_path;
use crate::paths::normalize_entry_path;
use crate::paths::lemma_norm_entry_path_plain;
use crate::paths::plain_seg;

verus! {

/// One planned write, in the mathematical view.
pub struct PlanItemV {
    /// The resolved path, as plain name segments under the destination
    /// root.
    pub segs: Seq<Seq<u8>>,
    /// Whether the write creates a directory rather than a file.
    pub is_dir: bool,
    /// The file bytes; empty for a directory.
    pub data: Seq<u8>,
}

/// One planned write.
#[derive(Debug)]
pub struct PlannedWrite {
    /// The resolved path, as plain name segments under the destination
    /// root.
    pub segs: Vec<Vec<u8>>,
    /// Whether the write creates a directory rather than a file.
    pub is_dir: bool,
    /// The file bytes; empty for a directory.
    pub data: Vec<u8>,
}

/// The view of one planned write.
pub open spec fn pw_view(w: PlannedWrite) -> PlanItemV {
    PlanItemV { segs: w.segs.deep_view(), is_dir: w.is_dir, data: w.data@ }
}

/// The view of a plan.
pub open spec fn plan_view(ws: Seq<PlannedWrite>) -> Seq<PlanItemV> {
    Seq::new(ws.len(), |i: int| pw_view(ws[i]))
}

/// The writes planned for one entry: none where its declared path cannot
/// be resolved inside the destination root, otherwise exactly one write
/// at the resolved path, a directory where the declared name ends in the
/// separator and a file with the entry's exact bytes otherwise.
pub open spec fn entry_plan(e: (Seq<u8>, Seq<u8>)) -> Seq<PlanItemV> {
    match norm_entry_path(e.0) {
        None => Seq::empty(),
        Some(segs) => seq![
            PlanItemV {
                segs,
                is_dir: entry_is_dir(e.0),
                data: if entry_is_dir(e.0) {
                    Seq::empty()
                } else {
                    e.1
                },
            },
        ],
    }
}

/// The extraction plan of an entry list, entry by entry, in order.
pub open spec fn plan_spec(entries: Seq<(Seq<u8>, Seq<u8>)>) -> Seq<PlanItemV>
    decreases entries.len(),
{
    if entries.len() == 0 {
        Seq::empty()
    } else {
        plan_spec(entries.drop_last()) + entry_plan(entries.last())
    }
}

/// Plans the extraction of a decoded entry list, as [`plan_spec`]
/// describes.  Total: a path-traversal entry is skipped, never an error.
pub fn plan_extraction(entries: &Vec<ArchiveEntry>) -> (r: Vec<PlannedWrite>)
    ensures
        plan_view(r@) == plan_spec(entries_view(entries@)),
{
    let ghost ev = entries_view(entries@);
    let n = entries.len();
    let mut out: Vec<PlannedWrite> = Vec::new();
    let mut i: usize = 0;
    while i < n
        invariant
            0 <= i <= n,
            n == entries@.len(),
            ev == entries_view(entries@),
            ev.len() == n,
            plan_view(out@) == plan_spec(ev.take(i as int)),
        decreases n - i,
    {
        let e = &entries[i];
        let ghost evi = ev[i as int];
        proof {
            assert(evi == (e.name@, e.data@));
        }
        match normalize_entry_path(&e.name) {
            None => {
                proof {
                    assert(entry_plan(evi) =~= Seq::<PlanItemV>::empty());
                    assert(ev.take(i + 1).drop_last() =~= ev.take(i as int));
                    assert(ev.take(i + 1).last() == evi);
                    assert(plan_view(out@) =~= plan_spec(ev.take(i + 1)));
                }
            },
            Some(segs) => {
                let namelen = e.name.len();
                let is_dir = namelen > 0 && e.name[namelen - 1] == 47;
                proof {
                    assert(is_dir == entry_is_dir(evi.0));
                }
                let data = if is_dir {
                    Vec::new()
                } else {
                    copy_range(&e.data, 0, e.data.len())
                };
                proof {
                    if !is_dir {
                        assert(e.data@.subrange(0, e.data@.len() as int) =~= e.data@);
                    }
                }
                let w = PlannedWrite { segs, is_dir, data };
                out.push(w);
                proof {
                    assert(ev.take(i + 1).drop_last() =~= ev.take(i as int));
                    assert(ev.take(i + 1).last() == evi);
                    assert(plan_view(out@) =~= plan_spec(ev.take(i + 1)));
                }
            },
        }
        i = i + 1;
    }
    proof {
        assert(ev.take(n as int) =~= ev);
    }
    out
}

/// Every planned write lies inside the destination root: its path is a
/// nonempty sequence of plain name segments, so joining it under the root
/// can only name something inside the root.
pub proof fn lemma_plan_safe(entries: Seq<(Seq<u8>, Seq<u8>)>)
    ensures
        forall|j: int|
            0 <= j < plan_spec(entries).len() ==> (#[trigger] plan_spec(entries)[j]).segs.len() > 0
                && forall|k: int|
                0 <= k < plan_spec(entries)[j].segs.len() ==> plain_seg(
                    #[trigger] plan_spec(entries)[j].segs[k],
                ),
    decreases entries.len(),
{
    if entries.len() > 0 {
        lemma_plan_safe(entries.drop_last());
        let e = entries.last();
        if norm_entry_path(e.0) is Some {
            lemma_norm_entry_path_plain(e.0);
        }
        assert forall|j: int| 0 <= j < plan_spec(entries).len() implies (#[trigger] plan_spec(
            entries,
        )[j]).segs.len() > 0 && forall|k: int|
            0 <= k < plan_spec(entries)[j].segs.len() ==> plain_seg(
                #[trigger] plan_spec(entries)[j].segs[k],
            ) by {
            let pre = plan_spec(entries.drop_last());
            if j < pre.len() {
                assert(plan_spec(entries)[j] == pre[j]);
            } else {
                assert(plan_spec(entries)[j] == entry_plan(e)[j - pre.len()]);
            }
        }
    }
}

/// An entry whose declared path cannot be resolved inside the destination
/// root contributes nothing: the plan equals the plan of the list without
/// that entry — and the other entries are still planned.
pub proof fn lemma_unresolvable_entry_skipped(entries: Seq<(Seq<u8>, Seq<u8>)>, i: int)
    requires
        0 <= i < entries.len(),
        norm_entry_path(entries[i].0) is None,
    ensures
        plan_spec(entries) == plan_spec(entries.remove(i)),
    decreases entries.len(),
{
    if i == entries.len() - 1 {
        assert(entry_plan(entries.last()) =~= Seq::<PlanItemV>::empty());
        assert(entries.remove(i) =~= entries.drop_last());
        assert(plan_spec(entries) =~= plan_spec(entries.drop_last()));
    } else {
        lemma_unresolvable_entry_skipped(entries.drop_last(), i);
        assert(entries.remove(i).drop_last() =~= entries.drop_last().remove(i));
        assert(entries.remove(i).last() == entries.last());
        assert(plan_spec(entries.remove(i)) == plan_spec(entries.remove(i).drop_last())
            + entry_plan(entries.remove(i).last()));
        assert(plan_spec(entries) =~= plan_spec(entries.remove(i)));
    }
}

/// Every entry whose declared path resolves inside the destination root
/// is planned: one write stands in the plan with the resolved path and,
/// for a file, the entry's exact bytes.
pub proof fn lemma_resolvable_entry_planned(entries: Seq<(Seq<u8>, Seq<u8>)>, i: int)
    requires
        0 <= i < entries.len(),
        norm_entry_path(entries[i].0) is Some,
    ensures
        exists|j: int|
            0 <= j < plan_spec(entries).len() && #[trigger] plan_spec(entries)[j] == (PlanItemV {
                segs: norm_entry_path(entries[i].0)->Some_0,
                is_dir: entry_is_dir(entries[i].0),
                data: if entry_is_dir(entries[i].0) {
                    Seq::empty()
                } else {
                    entries[i].1
                },
            }),
    decreases entries.len(),
{
    let w = PlanItemV {
        segs: norm_entry_path(entries[i].0)->Some_0,
        is_dir: entry_is_dir(entries[i].0),
        data: if entry_is_dir(entries[i].0) {
            Seq::empty()
        } else {
            entries[i].1
        },
    };
    if i == entries.len() - 1 {
        let pre = plan_spec(entries.drop_last());
        assert(entry_plan(entries.last())[0] == w);
        assert(plan_spec(entries)[pre.len() as int] == w);
    } else {
        lemma_resolvable_entry_planned(entries.drop_last(), i);
        let j = choose|j: int|
            0 <= j < plan_spec(entries.drop_last()).len() && #[trigger] plan_spec(
                entries.drop_last(),
            )[j] == w;
        assert(plan_spec(entries)[j] == w);
    }
}

// ---------------------------------------------------------------------
// Relocation.
// ---------------------------------------------------------------------

/// Where one planned write goes under relocation: a write under the
/// archive's top-level directory moves below the destination path; every
/// other write is dropped with the stale archive layout.
pub open spec fn reloc_item(w: PlanItemV, top: Seq<u8>, dest: Seq<Seq<u8>>) -> Seq<PlanItemV> {
    if w.segs.len() > 0 && w.segs[0] == top {
        seq![PlanItemV { segs: dest + w.segs.skip(1), is_dir: w.is_dir, data: w.data }]
    } else {
        Seq::empty()
    }
}

/// The relocated plan, write by write, in order.
pub open spec fn reloc_spec(plan: Seq<PlanItemV>, top: Seq<u8>, dest: Seq<Seq<u8>>) -> Seq<
    PlanItemV,
>
    decreases plan.len(),
{
    if plan.len() == 0 {
        Seq::empty()
    } else {
        reloc_spec(plan.drop_last(), top, dest) + reloc_item(plan.last(), top, dest)
    }
}

/// Whether any planned write lies under the expected top-level directory.
pub open spec fn plan_has_top(plan: Seq<PlanItemV>, top: Seq<u8>) -> bool {
    exists|i: int|
        0 <= i < plan.len() && (#[trigger] plan[i]).segs.len() > 0 && plan[i].segs[0] == top
}

/// Relocates a plan from under the archive's top-level directory `top` to
/// the destination path `dest`.  Fails with `IoError` exactly where no
/// planned write lies under `top` — an unexpected archive layout.
pub fn relocate(plan: Vec<PlannedWrite>, top: &Vec<u8>, dest: &Vec<Vec<u8>>) -> (r: Result<
    Vec<PlannedWrite>,
    ScaffoldError,
>)
    ensures
        r is Ok <==> plan_has_top(plan_view(plan@), top@),
        r is Ok ==> plan_view(r->Ok_0@) == reloc_spec(plan_view(plan@), top@, dest.deep_view()),
        r is Err ==> r->Err_0 == ScaffoldError::IoError,
{
    let ghost pv = plan_view(plan@);
    let ghost dv = dest.deep_view();
    let n = plan.len();
    let mut found = false;
    let mut i: usize = 0;
    while i < n
        invariant
            0 <= i <= n,
            n == plan@.len(),
            pv == plan_view(plan@),
            pv.len() == n,
            found <==> exists|q: int|
                0 <= q < i && (#[trigger] pv[q]).segs.len() > 0 && pv[q].segs[0] == top@,
        decreases n - i,
    {
        proof {
            assert(pv[i as int] == pw_view(plan@[i as int]));
            assert(pv[i as int].segs.len() == plan@[i as int].segs@.len());
        }
        if plan[i].segs.len() > 0 {
            proof {
                assert(pv[i as int].segs[0] == plan@[i as int].segs@[0].deep_view());
                assert(plan@[i as int].segs@[0].deep_view() =~= plan@[i as int].segs@[0]@);
            }
            if bytes_eq(&plan[i].segs[0], top) {
                found = true;
                proof {
                    assert((#[trigger] pv[i as int]).segs.len() > 0 && pv[i as int].segs[0]
                        == top@);
                }
            }
        }
        i = i + 1;
    }
    if !found {
        assert(!plan_has_top(pv, top@));
        return Err(ScaffoldError::IoError);
    }
    assert(plan_has_top(pv, top@));
    let mut rest = plan;
    let mut out: Vec<PlannedWrite> = Vec::new();
    let mut k: usize = 0;
    while k < n
        invariant
            0 <= k <= n,
            n == pv.len(),
            rest@.len() == n - k,
            plan_view(rest@) == pv.skip(k as int),
            plan_view(out@) == reloc_spec(pv.take(k as int), top@, dv),
            dv == dest.deep_view(),
        decreases n - k,
    {
        let ghost r0 = rest@;
        let w = rest.remove(0);
        proof {
            assert(w == r0[0]);
            assert(plan_view(r0)[0] == pw_view(r0[0]));
            assert(plan_view(r0) == pv.skip(k as int));
            assert(pv.skip(k as int)[0] == pv[k as int]);
            assert(pw_view(w) == pv[k as int]);
            assert(rest@ =~= r0.skip(1));
            assert(plan_view(rest@) =~= pv.skip(k + 1)) by {
                assert forall|t: int| 0 <= t < rest@.len() implies #[trigger] plan_view(rest@)[t]
                    == pv.skip(k + 1)[t] by {
                    assert(plan_view(rest@)[t] == pw_view(rest@[t]));
                    assert(rest@[t] == r0[t + 1]);
                    assert(plan_view(r0)[t + 1] == pw_view(r0[t + 1]));
                    assert(pv.skip(k as int)[t + 1] == pv[k + 1 + t]);
                }
            }
            assert(pv.take(k + 1).drop_last() =~= pv.take(k as int));
            assert(pv.take(k + 1).last() == pv[k as int]);
        }
        if w.segs.len() > 0 && bytes_eq(&w.segs[0], top) {
            proof {
                assert(pv[k as int].segs[0] == w.segs@[0].deep_view());
                assert(w.segs@[0].deep_view() =~= w.segs@[0]@);
            }
            let mut segs: Vec<Vec<u8>> = Vec::new();
            let dn = dest.len();
            let mut q: usize = 0;
            while q < dn
                invariant
                    0 <= q <= dn,
                    dn == dest@.len(),
                    segs@.len() == q,
                    forall|t: int|
                        0 <= t < q ==> (#[trigger] segs@[t])@ == dest@[t]@,
                decreases dn - q,
            {
                let seg = copy_range(&dest[q], 0, dest[q].len());
                proof {
                    assert(dest@[q as int]@.subrange(0, dest@[q as int]@.len() as int)
                        =~= dest@[q as int]@);
                }
                segs.push(seg);
                q = q + 1;
            }
            let mut tail = w.segs;
            tail.remove(0);
            segs.append(&mut tail);
            let w2 = PlannedWrite { segs, is_dir: w.is_dir, data: w.data };
            out.push(w2);
            proof {
                assert(pw_view(w2).segs =~= dv + pv[k as int].segs.skip(1)) by {
                    assert forall|t: int|
                        0 <= t < pw_view(w2).segs.len() implies #[trigger] pw_view(w2).segs[t]
                        == (dv + pv[k as int].segs.skip(1))[t] by {
                        assert(pw_view(w2).segs[t] == w2.segs@[t].deep_view());
                        assert(w2.segs@[t].deep_view() =~= w2.segs@[t]@);
                        if t < dv.len() {
                            assert(dv[t] == dest@[t].deep_view());
                            assert(dest@[t].deep_view() =~= dest@[t]@);
                        } else {
                            assert(pv[k as int].segs[t - dv.len() + 1] == w.segs@[t - dv.len()
                                + 1].deep_view());
                            assert(w.segs@[t - dv.len() + 1].deep_view() =~= w.segs@[t - dv.len()
                                + 1]@);
                        }
                    }
                }
                assert(reloc_item(pv[k as int], top@, dv) =~= seq![pw_view(w2)]);
                assert(plan_view(out@) =~= reloc_spec(pv.take(k + 1), top@, dv));
            }
        } else {
            proof {
                if pv[k as int].segs.len() > 0 {
                    assert(pv[k as int].segs[0] == w.segs@[0].deep_view());
                    assert(w.segs@[0].deep_view() =~= w.segs@[0]@);
                }
                assert(reloc_item(pv[k as int], top@, dv) =~= Seq::<PlanItemV>::empty());
                assert(plan_view(out@) =~= reloc_spec(pv.take(k + 1), top@, dv));
            }
        }
        k = k + 1;
    }
    proof {
        assert(pv.take(n as int) =~= pv);
    }
    Ok(out)
}

} // verus!
